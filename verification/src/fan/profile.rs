//! The ACPI platform profile: `low-power`, `balanced`, `performance` and the
//! rest, from `Documentation/ABI/testing/sysfs-platform_profile`.
//!
//! Two layouts, because the kernel grew a second one when a machine turned
//! out to be able to have more than one handler:
//!
//!   /sys/firmware/acpi/platform_profile{,_choices}      the original
//!   /sys/class/platform-profile/platform-profile-N/     the multi-handler one

use vstd::prelude::*;

use crate::backlight::leds::knob_views;
use crate::model::{Domain, DomainView, Knob, KnobView, Role, Setting, SettingView, setting_text};
use crate::sysfs::{
    is_writable, join_path, list_dir, node_exists, pair_views, read_text, trim_start_char,
    write_verified_result, Root, RootView, is_writable_file, write_result, lemma_read_after_write,
    lemma_write_verified_takes,
};
use crate::text::{
    cat, cat3, chars_eq, chars_of, debug_str, debug_string, replace_char, replace_char_exec,
    starts_with, starts_with_exec, string_of, string_views, upper, upper_exec, views, words,
    words_of,
};

verus! {

pub const LEGACY: &'static str = "/sys/firmware/acpi/platform_profile";

pub const LEGACY_CHOICES: &'static str = "/sys/firmware/acpi/platform_profile_choices";

pub const CLASS: &'static str = "/sys/class/platform-profile";

pub struct PlatformProfile;

/// `low-power` as a person writes it: `Low power`. Only an ASCII first
/// character is capitalised, since only it can be changed in place.
pub open spec fn pretty_name(name: Seq<char>) -> Seq<char> {
    let c = replace_char(name, '-', ' ');
    if c.len() > 0 && (c[0] as u32) < 128 {
        c.update(0, upper(c[0]))
    } else {
        c
    }
}

/// The kernel's profile name, readable. One-way on purpose: the kernel name
/// is what gets written.
pub fn pretty(name: &str) -> (r: String)
    ensures
        r@ == pretty_name(name@),
{
    let mut c = replace_char_exec(&chars_of(name), '-', ' ');
    if c.len() > 0 && (c[0] as u32) < 128 {
        let first = upper_exec(c[0]);
        c.set(0, first);
    }
    string_of(&c)
}

/// One platform-profile handler.
pub struct Handler {
    pub id: String,
    pub label: String,
    pub profile_attr: String,
    pub choices_attr: String,
}

pub struct HandlerView {
    pub id: Seq<char>,
    pub label: Seq<char>,
    pub profile_attr: Seq<char>,
    pub choices_attr: Seq<char>,
}

impl View for Handler {
    type V = HandlerView;

    open spec fn view(&self) -> HandlerView {
        HandlerView {
            id: self.id@,
            label: self.label@,
            profile_attr: self.profile_attr@,
            choices_attr: self.choices_attr@,
        }
    }
}

pub open spec fn handler_views(v: Seq<Handler>) -> Seq<HandlerView> {
    Seq::new(v.len(), |i: int| v[i]@)
}

pub open spec fn class_handlers(r: RootView, entries: Seq<(Seq<char>, Seq<char>)>) -> Seq<HandlerView>
    decreases entries.len(),
{
    if entries.len() == 0 {
        seq![]
    } else {
        let rest = class_handlers(r, entries.drop_last());
        let (name, dir) = entries.last();
        if starts_with(name, "platform-profile-"@) {
            let driver = match read_text(r, dir + "/name"@) {
                Some(d) => d,
                None => seq![],
            };
            rest.push(
                HandlerView {
                    id: "platform-profile/"@ + name,
                    label: if driver.len() == 0 {
                        "Platform profile"@
                    } else {
                        "Platform profile ("@ + driver + ")"@
                    },
                    profile_attr: dir + "/profile"@,
                    choices_attr: dir + "/choices"@,
                },
            )
        } else {
            rest
        }
    }
}

/// The handlers in the class directory, or, where it has none, the original
/// path -- on a kernel with both, the legacy file is an alias of the same
/// handler, not a second one.
pub open spec fn handlers_of(r: RootView) -> Seq<HandlerView> {
    let found = class_handlers(r, list_dir(r, CLASS@));
    if found.len() == 0 && node_exists(r, LEGACY@) {
        seq![
            HandlerView {
                id: "platform-profile/acpi"@,
                label: "Platform profile"@,
                profile_attr: LEGACY@,
                choices_attr: LEGACY_CHOICES@,
            },
        ]
    } else {
        found
    }
}

pub fn handlers(root: &Root) -> (r: Vec<Handler>)
    ensures
        handler_views(r@) == handlers_of(root@),
{
    let entries = root.list(CLASS);
    let prefix = chars_of("platform-profile-");
    let mut out: Vec<Handler> = Vec::new();
    let mut i: usize = 0;
    while i < entries.len()
        invariant
            i <= entries@.len(),
            prefix@ == "platform-profile-"@,
            handler_views(out@) == class_handlers(root@, pair_views(entries@).take(i as int)),
        decreases entries@.len() - i,
    {
        proof {
            let t = pair_views(entries@).take(i + 1);
            assert(t.drop_last() =~= pair_views(entries@).take(i as int));
            assert(t.last() == (entries@[i as int].0@, entries@[i as int].1@));
        }
        if starts_with_exec(&chars_of(entries[i].0.as_str()), &prefix) {
            let dir = entries[i].1.as_str();
            let name_attr = cat(dir, "/name");
            let driver = match root.read(name_attr.as_str()) {
                Some(d) => d,
                None => String::new(),
            };
            let label = if driver.as_str().unicode_len() == 0 {
                String::from_str("Platform profile")
            } else {
                cat3("Platform profile (", driver.as_str(), ")")
            };
            let ghost before = out@;
            out.push(
                Handler {
                    id: cat("platform-profile/", entries[i].0.as_str()),
                    label,
                    profile_attr: cat(dir, "/profile"),
                    choices_attr: cat(dir, "/choices"),
                },
            );
            assert(handler_views(out@) =~= handler_views(before).push(out@.last()@));
        }
        i = i + 1;
    }
    assert(pair_views(entries@).take(entries@.len() as int) =~= pair_views(entries@));
    if out.len() == 0 && root.path_exists(LEGACY) {
        out.push(
            Handler {
                id: String::from_str("platform-profile/acpi"),
                label: String::from_str("Platform profile"),
                profile_attr: String::from_str(LEGACY),
                choices_attr: String::from_str(LEGACY_CHOICES),
            },
        );
        assert(handler_views(out@) =~= handlers_of(root@));
    }
    out
}

pub open spec fn pretty_all(ws: Seq<Seq<char>>) -> Seq<Seq<char>> {
    Seq::new(ws.len(), |i: int| pretty_name(ws[i]))
}

pub open spec fn handler_knob(r: RootView, h: HandlerView) -> Seq<KnobView> {
    match read_text(r, h.choices_attr) {
        Some(choices) => {
            let options = pretty_all(words(choices));
            if options.len() == 0 {
                seq![]
            } else {
                match read_text(r, h.profile_attr) {
                    Some(current) => seq![
                        KnobView {
                            id: h.id,
                            label: h.label,
                            role: Role::ThermalProfile,
                            domain: DomainView::Modes { options: options },
                            value: SettingView::Mode { name: pretty_name(current) },
                            writable: is_writable(r, h.profile_attr),
                            provider: "platform-profile"@,
                            origin: join_path(r.base, trim_start_char(h.profile_attr, '/')),
                        },
                    ],
                    None => seq![],
                }
            }
        },
        None => seq![],
    }
}

pub open spec fn handlers_knobs(r: RootView, hs: Seq<HandlerView>) -> Seq<KnobView>
    decreases hs.len(),
{
    if hs.len() == 0 {
        seq![]
    } else {
        handlers_knobs(r, hs.drop_last()) + handler_knob(r, hs.last())
    }
}

pub open spec fn profile_knobs(r: RootView) -> Seq<KnobView> {
    handlers_knobs(r, handlers_of(r))
}

fn pretty_words(ws: &Vec<Vec<char>>) -> (r: Vec<String>)
    ensures
        string_views(r@) == pretty_all(views(ws@)),
{
    let mut out: Vec<String> = Vec::new();
    let mut k: usize = 0;
    while k < ws.len()
        invariant
            k <= ws@.len(),
            string_views(out@) =~= pretty_all(views(ws@)).take(k as int),
        decreases ws@.len() - k,
    {
        let w = string_of(&ws[k]);
        let ghost before = out@;
        out.push(pretty(w.as_str()));
        assert(string_views(out@) =~= string_views(before).push(pretty_name(ws@[k as int]@)));
        k = k + 1;
        assert(string_views(out@) =~= pretty_all(views(ws@)).take(k as int));
    }
    assert(pretty_all(views(ws@)).take(ws@.len() as int) =~= pretty_all(views(ws@)));
    out
}

fn handler_knob_exec(root: &Root, h: &Handler) -> (r: Vec<Knob>)
    ensures
        knob_views(r@) == handler_knob(root@, h@),
{
    let mut out: Vec<Knob> = Vec::new();
    if let Some(choices) = root.read(h.choices_attr.as_str()) {
        let ws = words_of(&chars_of(choices.as_str()));
        let options = pretty_words(&ws);
        if options.len() > 0 {
            if let Some(current) = root.read(h.profile_attr.as_str()) {
                out.push(
                    Knob {
                        id: h.id.clone(),
                        label: h.label.clone(),
                        role: Role::ThermalProfile,
                        domain: Domain::Modes { options },
                        value: Setting::Mode { name: pretty(current.as_str()) },
                        writable: root.writable(h.profile_attr.as_str()),
                        provider: String::from_str("platform-profile"),
                        origin: root.path(h.profile_attr.as_str()),
                    },
                );
            }
        }
    }
    assert(knob_views(out@) =~= handler_knob(root@, h@));
    out
}

pub open spec fn is_handler_at(hs: Seq<HandlerView>, id: Seq<char>, i: int) -> bool {
    0 <= i < hs.len() && hs[i].id == id && forall|j: int| 0 <= j < i ==> hs[j].id != id
}

pub open spec fn find_handler(hs: Seq<HandlerView>, id: Seq<char>) -> Option<int> {
    if exists|i: int| is_handler_at(hs, id, i) {
        Some(choose|i: int| is_handler_at(hs, id, i))
    } else {
        None
    }
}

pub open spec fn is_choice_at(ws: Seq<Seq<char>>, name: Seq<char>, i: int) -> bool {
    0 <= i < ws.len() && pretty_name(ws[i]) == name && forall|j: int|
        0 <= j < i ==> pretty_name(ws[j]) != name
}

/// The kernel's spelling of a mode a person chose: matched against the
/// published choices rather than un-prettified, so an unexpected shape still
/// round-trips.
pub open spec fn kernel_choice(choices: Seq<char>, name: Seq<char>) -> Option<Seq<char>> {
    let ws = words(choices);
    if exists|i: int| is_choice_at(ws, name, i) {
        Some(ws[choose|i: int| is_choice_at(ws, name, i)])
    } else {
        None
    }
}

proof fn lemma_first_choice(ws: Seq<Seq<char>>, name: Seq<char>, j: int)
    requires
        0 <= j < ws.len(),
        pretty_name(ws[j]) == name,
    ensures
        exists|i: int| is_choice_at(ws, name, i),
    decreases j,
{
    if exists|k: int| 0 <= k < j && pretty_name(ws[k]) == name {
        let k = choose|k: int| 0 <= k < j && pretty_name(ws[k]) == name;
        lemma_first_choice(ws, name, k);
    } else {
        assert(is_choice_at(ws, name, j));
    }
}

/// Every mode a profile knob offers can be set: it maps back to a choice the
/// firmware published, and the choice written is one that reads as the mode
/// asked for.
pub proof fn lemma_offered_modes_round_trip(choices: Seq<char>, name: Seq<char>)
    ensures
        pretty_all(words(choices)).contains(name) ==> kernel_choice(choices, name).is_some(),
        kernel_choice(choices, name) matches Some(k) ==> words(choices).contains(k)
            && pretty_name(k) == name,
{
    let ws = words(choices);
    if pretty_all(ws).contains(name) {
        let j = choose|j: int| 0 <= j < pretty_all(ws).len() && pretty_all(ws)[j] == name;
        lemma_first_choice(ws, name, j);
    }
    if let Some(k) = kernel_choice(choices, name) {
        let i = choose|i: int| is_choice_at(ws, name, i);
        assert(ws[i] == k);
    }
}

pub open spec fn profile_set_result(r: RootView, id: Seq<char>, value: SettingView) -> (
    Result<(), Seq<char>>,
    RootView,
) {
    let hs = handlers_of(r);
    match find_handler(hs, id) {
        None => (Err(id + " is no longer present"@), r),
        Some(i) => match value {
            SettingView::Mode { name } => match read_text(r, hs[i].choices_attr) {
                None => (Err("the driver stopped publishing its choices"@), r),
                Some(choices) => match kernel_choice(choices, name) {
                    None => (Err(debug_str(name) + " is not offered by this firmware"@), r),
                    Some(k) => write_verified_result(r, hs[i].profile_attr, k),
                },
            },
            _ => (Err("a platform profile takes a mode, not "@ + setting_text(value)), r),
        },
    }
}

/// Setting a platform profile writes one of the choices the firmware
/// published, the one that reads as the mode asked for; where the profile is
/// writable on a live machine and the mode is on offer, the set succeeds.
pub proof fn lemma_profile_set_writes_a_published_choice(r: RootView, id: Seq<char>, name: Seq<char>, i: int)
    requires
        find_handler(handlers_of(r), id) == Some(i),
    ensures
        ({
            let h = handlers_of(r)[i];
            let (verdict, after) = profile_set_result(r, id, SettingView::Mode { name });
            &&& verdict is Ok ==> (read_text(r, h.choices_attr) matches Some(c) && read_text(
                after,
                h.profile_attr,
            ) matches Some(t) && words(c).contains(t) && pretty_name(t) == name)
            &&& is_writable_file(r, h.profile_attr) && (read_text(r, h.choices_attr) matches Some(c)
                && pretty_all(words(c)).contains(name)) ==> verdict is Ok
        }),
{
    let h = handlers_of(r)[i];
    if let Some(c) = read_text(r, h.choices_attr) {
        lemma_offered_modes_round_trip(c, name);
        if let Some(k) = kernel_choice(c, name) {
            crate::text::lemma_words_are_plain(c);
            let j = choose|j: int| 0 <= j < words(c).len() && words(c)[j] == k;
            assert(words(c)[j].len() > 0 && crate::text::no_ws(words(c)[j]));
            crate::text::lemma_trim_plain(k);
            if write_result(r, h.profile_attr, k) is Ok {
                lemma_read_after_write(r, h.profile_attr, k, h.profile_attr);
            }
            if is_writable_file(r, h.profile_attr) {
                lemma_write_verified_takes(r, h.profile_attr, k);
            }
        }
    }
}

impl PlatformProfile {
    pub fn id(&self) -> (r: &'static str)
        ensures
            r@ == "platform-profile"@,
    {
        "platform-profile"
    }

    /// One knob of modes per handler that publishes its choices.
    pub fn knobs(&self, root: &Root) -> (r: Vec<Knob>)
        ensures
            knob_views(r@) == profile_knobs(root@),
    {
        let hs = handlers(root);
        let mut out: Vec<Knob> = Vec::new();
        let mut i: usize = 0;
        while i < hs.len()
            invariant
                i <= hs@.len(),
                handler_views(hs@) == handlers_of(root@),
                knob_views(out@) == handlers_knobs(root@, handler_views(hs@).take(i as int)),
            decreases hs@.len() - i,
        {
            let mut more = handler_knob_exec(root, &hs[i]);
            let ghost before = out@;
            let ghost added = more@;
            out.append(&mut more);
            proof {
                let t = handler_views(hs@).take(i + 1);
                assert(t.drop_last() =~= handler_views(hs@).take(i as int));
                assert(t.last() == hs@[i as int]@);
                assert(knob_views(out@) =~= knob_views(before) + knob_views(added));
            }
            i = i + 1;
        }
        assert(handler_views(hs@).take(hs@.len() as int) =~= handler_views(hs@));
        out
    }

    /// Choose a profile, by the name a person sees.
    pub fn set(&self, root: &mut Root, knob_id: &str, value: &Setting) -> (r: Result<(), String>)
        ensures
            ({
                let (verdict, after) = profile_set_result(old(root)@, knob_id@, value@);
                &&& final(root)@ == after
                &&& match r {
                    Ok(()) => verdict == Ok::<(), Seq<char>>(()),
                    Err(e) => verdict == Err::<(), Seq<char>>(e@),
                }
            }),
    {
        let hs = handlers(root);
        let want = chars_of(knob_id);
        let mut i: usize = 0;
        let mut found: Option<usize> = None;
        while i < hs.len()
            invariant_except_break
                found.is_none(),
            invariant
                i <= hs@.len(),
                want@ == knob_id@,
                forall|j: int| 0 <= j < i ==> handler_views(hs@)[j].id != knob_id@,
            ensures
                match found {
                    Some(k) => k < hs@.len() && is_handler_at(handler_views(hs@), knob_id@, k as int),
                    None => forall|j: int| 0 <= j < hs@.len() ==> handler_views(hs@)[j].id != knob_id@,
                },
            decreases hs@.len() - i,
        {
            if chars_eq(&chars_of(hs[i].id.as_str()), &want) {
                found = Some(i);
                break;
            }
            i = i + 1;
        }
        let k = match found {
            Some(k) => k,
            None => return Err(cat(knob_id, " is no longer present")),
        };
        proof {
            let v = handler_views(hs@);
            let w = choose|w: int| is_handler_at(v, knob_id@, w);
            assert(w == k) by {
                if w < k {
                } else if w > k {
                }
            }
        }
        let name = match value {
            Setting::Mode { name } => name,
            _ => {
                let d = value.describe();
                return Err(cat("a platform profile takes a mode, not ", d.as_str()));
            },
        };
        let choices = match root.read(hs[k].choices_attr.as_str()) {
            Some(c) => c,
            None => return Err(String::from_str("the driver stopped publishing its choices")),
        };
        let ws = words_of(&chars_of(choices.as_str()));
        let target = chars_of(name.as_str());
        let mut j: usize = 0;
        while j < ws.len()
            invariant
                j <= ws@.len(),
                k < hs@.len(),
                root@ == old(root)@,
                handler_views(hs@) == handlers_of(root@),
                is_handler_at(handler_views(hs@), knob_id@, k as int),
                value@ == (SettingView::Mode { name: name@ }),
                read_text(root@, hs@[k as int].choices_attr@) == Some(choices@),
                target@ == name@,
                views(ws@) == words(choices@),
                forall|m: int| 0 <= m < j ==> pretty_name(views(ws@)[m]) != name@,
            decreases ws@.len() - j,
        {
            let w = string_of(&ws[j]);
            let p = pretty(w.as_str());
            proof {
                assert(views(ws@)[j as int] == ws@[j as int]@);
            }
            if chars_eq(&chars_of(p.as_str()), &target) {
                proof {
                    let v = views(ws@);
                    assert(is_choice_at(v, name@, j as int));
                    let c = choose|c: int| is_choice_at(v, name@, c);
                    assert(c == j) by {
                        if c < j {
                        } else if c > j {
                        }
                    }
                }
                return root.write_verified(hs[k].profile_attr.as_str(), w.as_str());
            }
            j = j + 1;
        }
        let d = debug_string(name.as_str());
        Err(cat(d.as_str(), " is not offered by this firmware"))
    }
}

} // verus!
