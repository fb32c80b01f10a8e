//! The Linux LED class: `/sys/class/leds/*`.
//!
//! Every laptop keyboard light with a kernel driver lands here, named
//! `devicename:colour:function` with the function `kbd_backlight`, which is
//! why this file names no vendor.
//!
//! Two kinds of device turn up: single-channel ones with `brightness` and
//! `max_brightness`, and multicolour ones that add `multi_index` and
//! `multi_intensity`, which become a separate colour knob.

use vstd::prelude::*;

use crate::model::{Domain, DomainView, Knob, KnobView, Role, Setting, SettingView, setting_text};
use crate::sysfs::{
    is_writable, join_path, list_dir, pair_views, read_text, read_u32, read_u32_list, trim_start_char,
    write_result, write_verified_result, Root, RootView, is_writable_file, parse_u32_all,
    lemma_read_after_write, lemma_write_keeps_shape, lemma_write_verified_takes,
};
use crate::text::{
    cat, cat3, chars_of, eq_ignore_case, eq_ignore_case_exec, first_index, first_index_exec,
    join, join_exec, last_index, last_index_exec, slice_to_vec, starts_with, strip_prefix,
    strip_prefix_exec, strip_suffix, strip_suffix_exec, string_of, string_views, u64_string,
    decimal, decimal_of, views, words, words_of, trim, no_ws, lemma_words_of_join, lemma_join_ends,
    lemma_parse_decimal, lemma_trim_decimal, lemma_trim_plain, is_digit,
};

verus! {

pub const CLASS: &'static str = "/sys/class/leds";

/// The udev rule that lets the session set the keyboard light without root.
///
/// Matched on the LED's function rather than a device name, so it covers the
/// same set of machines this provider does. `video` is the group the session
/// already holds for DRM, so no new group and no new membership.
pub const UDEV_RULE: &'static str = r#"ACTION=="add", SUBSYSTEM=="leds", KERNEL=="*kbd_backlight", RUN+="/bin/chgrp video /sys/class/leds/%k/brightness", RUN+="/bin/chmod g+w /sys/class/leds/%k/brightness""#;

pub struct Leds;

/// The part of an LED name after its last `:`, the function.
pub open spec fn led_function(name: Seq<char>) -> Seq<char> {
    match last_index(name, ':') {
        Some(i) => name.skip(i + 1),
        None => name,
    }
}

/// The part of an LED name before its first `:`, the device.
pub open spec fn led_device(name: Seq<char>) -> Seq<char> {
    match first_index(name, ':') {
        Some(i) => name.take(i),
        None => name,
    }
}

pub open spec fn keyboard_backlight(name: Seq<char>) -> bool {
    eq_ignore_case(led_function(name), "kbd_backlight"@)
}

/// The kernel's LED names are `devicename:colour:function`. Match on the
/// function alone, so `tpacpi::kbd_backlight` and `rgb:kbd_backlight` are both
/// recognised without either being listed.
pub fn is_keyboard_backlight(name: &str) -> (b: bool)
    ensures
        b == keyboard_backlight(name@),
{
    let c = chars_of(name);
    let function = match last_index_exec(&c, ':') {
        Some(i) => {
            let n = c.len();
            let f = slice_to_vec(&c, i + 1, n);
            assert(f@ =~= c@.skip(i + 1));
            f
        },
        None => c,
    };
    let want = chars_of("kbd_backlight");
    eq_ignore_case_exec(&function, &want)
}

pub open spec fn led_label(name: Seq<char>, multiple: bool) -> Seq<char> {
    if !multiple || led_device(name).len() == 0 {
        "Keyboard backlight"@
    } else {
        "Keyboard backlight ("@ + led_device(name) + ")"@
    }
}

/// "Keyboard backlight", and where a machine really has two of them, the
/// device part of the name to tell them apart.
pub fn label_for(name: &str, multiple: bool) -> (r: String)
    ensures
        r@ == led_label(name@, multiple),
{
    if !multiple {
        return String::from_str("Keyboard backlight");
    }
    let c = chars_of(name);
    let device = match first_index_exec(&c, ':') {
        Some(i) => {
            let d = slice_to_vec(&c, 0, i);
            assert(d@ =~= c@.take(i as int));
            d
        },
        None => c,
    };
    if device.len() == 0 {
        String::from_str("Keyboard backlight")
    } else {
        let d = string_of(&device);
        cat3("Keyboard backlight (", d.as_str(), ")")
    }
}

/// The keyboard lights among the LED class's entries, in order.
pub open spec fn keyboard_entries(s: Seq<(Seq<char>, Seq<char>)>) -> Seq<(Seq<char>, Seq<char>)>
    decreases s.len(),
{
    if s.len() == 0 {
        seq![]
    } else if keyboard_backlight(s.last().0) {
        keyboard_entries(s.drop_last()).push(s.last())
    } else {
        keyboard_entries(s.drop_last())
    }
}

/// The knobs one keyboard light gives: a brightness, and a colour where the
/// driver implements the multicolour framework.
pub open spec fn led_knobs(r: RootView, name: Seq<char>, dir: Seq<char>, multiple: bool) -> Seq<
    KnobView,
> {
    let brightness = dir + "/brightness"@;
    match (read_u32(r, dir + "/max_brightness"@), read_u32(r, brightness)) {
        (Some(max), Some(current)) => {
            let label = led_label(name, multiple);
            let main = KnobView {
                id: "leds/"@ + name,
                label: label,
                role: Role::KeyboardBacklight,
                domain: if max <= 1 {
                    DomainView::Switch
                } else {
                    DomainView::Percent { raw_max: max }
                },
                value: if max <= 1 {
                    SettingView::Switch { on: current >= 1 }
                } else {
                    SettingView::Percent { raw: if current <= max { current } else { max } }
                },
                writable: is_writable(r, brightness),
                provider: "leds"@,
                origin: join_path(r.base, trim_start_char(brightness, '/')),
            };
            let intensity = dir + "/multi_intensity"@;
            match (read_text(r, dir + "/multi_index"@), read_u32_list(r, intensity)) {
                (Some(index), Some(levels)) => {
                    let channels = words(index);
                    if channels.len() > 0 && channels.len() == levels.len() {
                        seq![
                            main,
                            KnobView {
                                id: "leds/"@ + name + "/color"@,
                                label: label + " colour"@,
                                role: Role::KeyboardBacklight,
                                domain: DomainView::Color { channels: channels, raw_max: max },
                                value: SettingView::Color { intensities: levels },
                                writable: is_writable(r, intensity),
                                provider: "leds"@,
                                origin: join_path(r.base, trim_start_char(intensity, '/')),
                            },
                        ]
                    } else {
                        seq![main]
                    }
                },
                _ => seq![main],
            }
        },
        _ => seq![],
    }
}

pub open spec fn led_knobs_all(r: RootView, entries: Seq<(Seq<char>, Seq<char>)>, multiple: bool) -> Seq<
    KnobView,
>
    decreases entries.len(),
{
    if entries.len() == 0 {
        seq![]
    } else {
        led_knobs_all(r, entries.drop_last(), multiple) + led_knobs(
            r,
            entries.last().0,
            entries.last().1,
            multiple,
        )
    }
}

/// Every keyboard-light knob the LED class offers.
pub open spec fn leds_knobs(r: RootView) -> Seq<KnobView> {
    let entries = keyboard_entries(list_dir(r, CLASS@));
    led_knobs_all(r, entries, entries.len() > 1)
}

pub open spec fn knob_views(v: Seq<Knob>) -> Seq<KnobView> {
    Seq::new(v.len(), |i: int| v[i]@)
}

} // verus!

verus! {

fn keyboard_entries_exec(entries: &Vec<(String, String)>) -> (r: Vec<(String, String)>)
    ensures
        pair_views(r@) == keyboard_entries(pair_views(entries@)),
{
    let mut out: Vec<(String, String)> = Vec::new();
    let mut i: usize = 0;
    while i < entries.len()
        invariant
            i <= entries@.len(),
            pair_views(out@) == keyboard_entries(pair_views(entries@).take(i as int)),
        decreases entries@.len() - i,
    {
        proof {
            let t = pair_views(entries@).take(i + 1);
            assert(t.drop_last() =~= pair_views(entries@).take(i as int));
            assert(t.last() == (entries@[i as int].0@, entries@[i as int].1@));
        }
        if is_keyboard_backlight(entries[i].0.as_str()) {
            let ghost before = out@;
            out.push((entries[i].0.clone(), entries[i].1.clone()));
            assert(pair_views(out@) =~= pair_views(before).push(
                (entries@[i as int].0@, entries@[i as int].1@),
            ));
        }
        i = i + 1;
    }
    assert(pair_views(entries@).take(entries@.len() as int) =~= pair_views(entries@));
    out
}

fn led_knobs_exec(root: &Root, name: &str, dir: &str, multiple: bool) -> (r: Vec<Knob>)
    ensures
        knob_views(r@) == led_knobs(root@, name@, dir@, multiple),
{
    let brightness = cat(dir, "/brightness");
    let max_attr = cat(dir, "/max_brightness");
    let max = match root.read_u32(max_attr.as_str()) {
        Some(m) => m,
        None => {
            let v: Vec<Knob> = Vec::new();
            assert(knob_views(v@) =~= Seq::<KnobView>::empty());
            return v;
        },
    };
    let current = match root.read_u32(brightness.as_str()) {
        Some(c) => c,
        None => {
            let v: Vec<Knob> = Vec::new();
            assert(knob_views(v@) =~= Seq::<KnobView>::empty());
            return v;
        },
    };
    let label = label_for(name, multiple);
    let (domain, value) = if max <= 1 {
        (Domain::Switch, Setting::Switch { on: current >= 1 })
    } else {
        (
            Domain::Percent { raw_max: max },
            Setting::Percent {
                raw: if current <= max {
                    current
                } else {
                    max
                },
            },
        )
    };
    let main = Knob {
        id: cat("leds/", name),
        label: label.clone(),
        role: Role::KeyboardBacklight,
        domain,
        value,
        writable: root.writable(brightness.as_str()),
        provider: String::from_str("leds"),
        origin: root.path(brightness.as_str()),
    };
    let mut out: Vec<Knob> = Vec::new();
    out.push(main);
    let index_attr = cat(dir, "/multi_index");
    let intensity_attr = cat(dir, "/multi_intensity");
    match (root.read(index_attr.as_str()), root.read_u32_list(intensity_attr.as_str())) {
        (Some(index), Some(levels)) => {
            let ic = chars_of(index.as_str());
            let ws = words_of(&ic);
            if ws.len() > 0 && ws.len() == levels.len() {
                let channels = crate::text::strings_of(&ws);
                out.push(
                    Knob {
                        id: cat3("leds/", name, "/color"),
                        label: cat(label.as_str(), " colour"),
                        role: Role::KeyboardBacklight,
                        domain: Domain::Color { channels, raw_max: max },
                        value: Setting::Color { intensities: levels },
                        writable: root.writable(intensity_attr.as_str()),
                        provider: String::from_str("leds"),
                        origin: root.path(intensity_attr.as_str()),
                    },
                );
            }
        },
        _ => {},
    }
    assert(knob_views(out@) =~= led_knobs(root@, name@, dir@, multiple));
    out
}

impl Leds {
    pub fn id(&self) -> (r: &'static str)
        ensures
            r@ == "leds"@,
    {
        "leds"
    }

    /// Every keyboard light the LED class offers, as knobs.
    pub fn knobs(&self, root: &Root) -> (r: Vec<Knob>)
        ensures
            knob_views(r@) == leds_knobs(root@),
    {
        let listed = root.list(CLASS);
        let entries = keyboard_entries_exec(&listed);
        let multiple = entries.len() > 1;
        let mut out: Vec<Knob> = Vec::new();
        let mut i: usize = 0;
        while i < entries.len()
            invariant
                i <= entries@.len(),
                multiple == (entries@.len() > 1),
                pair_views(entries@) == keyboard_entries(list_dir(root@, CLASS@)),
                knob_views(out@) == led_knobs_all(root@, pair_views(entries@).take(i as int), multiple),
            decreases entries@.len() - i,
        {
            let more = led_knobs_exec(root, entries[i].0.as_str(), entries[i].1.as_str(), multiple);
            let ghost before = out@;
            let mut more = more;
            out.append(&mut more);
            proof {
                let t = pair_views(entries@).take(i + 1);
                assert(t.drop_last() =~= pair_views(entries@).take(i as int));
                assert(t.last() == (entries@[i as int].0@, entries@[i as int].1@));
                assert(knob_views(out@) =~= knob_views(before) + led_knobs(
                    root@,
                    entries@[i as int].0@,
                    entries@[i as int].1@,
                    multiple,
                ));
            }
            i = i + 1;
        }
        assert(pair_views(entries@).take(entries@.len() as int) =~= pair_views(entries@));
        out
    }
}

} // verus!

verus! {

/// The LED name and attribute a knob id addresses.
pub open spec fn led_target(id: Seq<char>) -> Option<(Seq<char>, Seq<char>)> {
    match strip_prefix(id, "leds/"@) {
        None => None,
        Some(rest) => match strip_suffix(rest, "/color"@) {
            Some(name) => Some((name, "multi_intensity"@)),
            None => Some((rest, "brightness"@)),
        },
    }
}

pub open spec fn led_dir(name: Seq<char>) -> Seq<char> {
    CLASS@ + "/"@ + name
}

/// Decimal numbers separated by spaces, as `multi_intensity` takes them.
pub open spec fn intensities_text(v: Seq<u32>) -> Seq<char> {
    join(Seq::new(v.len(), |i: int| decimal(v[i] as nat)), " "@)
}

/// The text an LED attribute is given for a setting, or why it cannot be.
pub open spec fn led_text(r: RootView, name: Seq<char>, value: SettingView) -> Result<
    Seq<char>,
    Seq<char>,
> {
    match value {
        SettingView::Percent { raw } => match read_u32(r, led_dir(name) + "/max_brightness"@) {
            Some(max) => Ok(decimal((if raw <= max { raw } else { max }) as nat)),
            None => Err(name + " disappeared while being set"@),
        },
        SettingView::Switch { on } => Ok(if on { "1"@ } else { "0"@ }),
        SettingView::Color { intensities } => Ok(intensities_text(intensities)),
        _ => Err("an LED cannot take "@ + setting_text(value)),
    }
}

/// `[a]` for the active trigger, with the brackets stripped: the word of the
/// `trigger` attribute that starts with `[`, less every `[` and `]` at
/// either end.
pub open spec fn active_trigger(text: Seq<char>) -> Option<Seq<char>> {
    let ws = words(text);
    if exists|i: int| is_bracketed_at(ws, i) {
        let i = choose|i: int| is_bracketed_at(ws, i);
        Some(trim_brackets(ws[i]))
    } else {
        None
    }
}

pub open spec fn is_bracketed_at(ws: Seq<Seq<char>>, i: int) -> bool {
    0 <= i < ws.len() && starts_with(ws[i], "["@) && forall|j: int|
        0 <= j < i ==> !starts_with(ws[j], "["@)
}

pub open spec fn is_bracket(c: char) -> bool {
    c == '[' || c == ']'
}

pub open spec fn trim_brackets_start(s: Seq<char>) -> Seq<char>
    decreases s.len(),
{
    if s.len() > 0 && is_bracket(s[0]) {
        trim_brackets_start(s.drop_first())
    } else {
        s
    }
}

pub open spec fn trim_brackets_end(s: Seq<char>) -> Seq<char>
    decreases s.len(),
{
    if s.len() > 0 && is_bracket(s.last()) {
        trim_brackets_end(s.drop_last())
    } else {
        s
    }
}

pub open spec fn trim_brackets(s: Seq<char>) -> Seq<char> {
    trim_brackets_end(trim_brackets_start(s))
}

/// The root after taking an LED away from whatever trigger drives it: a
/// trigger other than `none` overwrites our value within the second.
pub open spec fn release_trigger(r: RootView, name: Seq<char>) -> RootView {
    let attr = led_dir(name) + "/trigger"@;
    match read_text(r, attr) {
        Some(t) => match active_trigger(t) {
            Some(a) => if a != "none"@ && is_writable(r, attr) {
                match write_result(r, attr, "none"@) {
                    Ok(after) => after,
                    Err(_) => r,
                }
            } else {
                r
            },
            None => r,
        },
        None => r,
    }
}

/// What setting an LED knob does: its verdict, and the root after.
pub open spec fn leds_set_result(r: RootView, id: Seq<char>, value: SettingView) -> (
    Result<(), Seq<char>>,
    RootView,
) {
    match led_target(id) {
        None => (Err(id + " is not an LED"@), r),
        Some((name, attr)) => match led_text(r, name, value) {
            Err(e) => (Err(e), r),
            Ok(text) => write_verified_result(
                release_trigger(r, name),
                led_dir(name) + "/"@ + attr,
                text,
            ),
        },
    }
}

fn trim_brackets_exec(s: &[char]) -> (r: Vec<char>)
    ensures
        r@ == trim_brackets(s@),
{
    let n = s.len();
    let mut i: usize = 0;
    assert(s@.subrange(0, n as int) =~= s@);
    while i < n && (s[i] == '[' || s[i] == ']')
        invariant
            n == s@.len(),
            i <= n,
            trim_brackets_start(s@) == trim_brackets_start(s@.subrange(i as int, n as int)),
        decreases n - i,
    {
        assert(s@.subrange(i as int, n as int).drop_first() =~= s@.subrange(i + 1, n as int));
        i = i + 1;
    }
    let mut j: usize = n;
    while j > i && (s[j - 1] == '[' || s[j - 1] == ']')
        invariant
            n == s@.len(),
            i <= j <= n,
            trim_brackets(s@) == trim_brackets_end(s@.subrange(i as int, j as int)),
        decreases j,
    {
        assert(s@.subrange(i as int, j as int).drop_last() =~= s@.subrange(i as int, j - 1));
        j = j - 1;
    }
    slice_to_vec(s, i, j)
}

fn active_trigger_exec(text: &str) -> (r: Option<Vec<char>>)
    ensures
        match r {
            Some(a) => active_trigger(text@) == Some(a@),
            None => active_trigger(text@).is_none(),
        },
{
    let c = chars_of(text);
    let ws = words_of(&c);
    let open = chars_of("[");
    let mut i: usize = 0;
    while i < ws.len()
        invariant
            i <= ws@.len(),
            open@ == "["@,
            views(ws@) == words(text@),
            forall|j: int| 0 <= j < i ==> !starts_with(views(ws@)[j], "["@),
        decreases ws@.len() - i,
    {
        if crate::text::starts_with_exec(&ws[i], &open) {
            proof {
                let w = views(ws@);
                assert(w[i as int] == ws@[i as int]@);
                assert(is_bracketed_at(w, i as int));
                let k = choose|k: int| is_bracketed_at(w, k);
                assert(k == i) by {
                    if k < i {
                    } else if k > i {
                    }
                }
            }
            return Some(trim_brackets_exec(&ws[i]));
        }
        proof {
            assert(views(ws@)[i as int] == ws@[i as int]@);
        }
        i = i + 1;
    }
    proof {
        assert forall|k: int| !is_bracketed_at(views(ws@), k) by {
        }
    }
    None
}

fn release_trigger_exec(root: &mut Root, name: &str)
    ensures
        final(root)@ == release_trigger(old(root)@, name@),
{
    let dir = cat3(CLASS, "/", name);
    let attr = cat(dir.as_str(), "/trigger");
    proof {
        reveal_strlit("/");
    }
    if let Some(t) = root.read(attr.as_str()) {
        if let Some(a) = active_trigger_exec(t.as_str()) {
            let none = chars_of("none");
            if !crate::text::chars_eq(&a, &none) && root.writable(attr.as_str()) {
                let _ = root.write(attr.as_str(), "none");
            }
        }
    }
}

/// Each intensity spelled in decimal, in order.
pub open spec fn decimals(v: Seq<u32>) -> Seq<Seq<char>> {
    Seq::new(v.len(), |j: int| decimal(v[j] as nat))
}

proof fn lemma_decimals_are_words(v: Seq<u32>)
    ensures
        forall|i: int| 0 <= i < v.len() ==> #[trigger] decimals(v)[i].len() > 0 && no_ws(decimals(v)[i]),
{
    let parts = decimals(v);
    assert forall|i: int| 0 <= i < v.len() implies #[trigger] parts[i].len() > 0 && no_ws(parts[i]) by {
        lemma_parse_decimal(v[i] as nat);
        let d = parts[i];
        assert forall|k: int| 0 <= k < d.len() implies !crate::text::is_ws(#[trigger] d[k]) by {
            assert(is_digit(d[k]));
        }
    }
}

proof fn lemma_parse_all_decimals(v: Seq<u32>)
    ensures
        parse_u32_all(decimals(v)) == Some(v),
    decreases v.len(),
{
    let parts = decimals(v);
    if v.len() == 0 {
        assert(v =~= Seq::<u32>::empty());
    } else {
        let init = v.drop_last();
        lemma_parse_all_decimals(init);
        assert(parts.drop_last() =~= decimals(init));
        lemma_trim_decimal(v.last() as nat);
        assert(init.push(v.last()) =~= v);
    }
}

/// The text written for a colour lists the intensities in the order they
/// were given: split on whitespace, its `k`-th word is the `k`-th intensity,
/// so the `k`-th channel of `multi_index` gets the `k`-th value.
pub proof fn lemma_colour_text_in_channel_order(v: Seq<u32>)
    ensures
        words(intensities_text(v)).len() == v.len(),
        forall|k: int| 0 <= k < v.len() ==> #[trigger] words(intensities_text(v))[k] == decimal(v[k] as nat),
        parse_u32_all(words(intensities_text(v))) == Some(v),
        trim(intensities_text(v)) == intensities_text(v),
{
    let parts = decimals(v);
    assert(intensities_text(v) == join(parts, " "@));
    lemma_decimals_are_words(v);
    lemma_words_of_join(parts);
    lemma_parse_all_decimals(v);
    if v.len() > 0 {
        lemma_join_ends(parts, " "@);
        lemma_parse_decimal(v[0] as nat);
        lemma_parse_decimal(v.last() as nat);
        let t = intensities_text(v);
        assert(is_digit(parts[0][0]));
        assert(parts.last() == parts[v.len() - 1]);
        assert(is_digit(parts.last().last()));
        lemma_trim_plain(t);
    } else {
        assert(intensities_text(v) =~= Seq::<char>::empty());
    }
}

/// Setting a colour leaves `multi_intensity` reading the intensities given,
/// channel by channel; on a live machine where it is writable, the set
/// succeeds.
pub proof fn lemma_colour_set_reads_back(r: RootView, id: Seq<char>, v: Seq<u32>)
    requires
        led_target(id) is Some,
        led_target(id)->Some_0.1 == "multi_intensity"@,
    ensures
        ({
            let name = led_target(id)->Some_0.0;
            let path = led_dir(name) + "/multi_intensity"@;
            let (verdict, after) = leds_set_result(r, id, SettingView::Color { intensities: v });
            &&& verdict is Ok ==> read_u32_list(after, path) == Some(v)
            &&& is_writable_file(r, path) ==> verdict is Ok
        }),
{
    let name = led_target(id)->Some_0.0;
    let path = led_dir(name) + "/multi_intensity"@;
    let t = intensities_text(v);
    reveal_strlit("/");
    reveal_strlit("multi_intensity");
    reveal_strlit("/multi_intensity");
    assert(led_dir(name) + "/"@ + "multi_intensity"@ =~= path);
    lemma_colour_text_in_channel_order(v);
    let r1 = release_trigger(r, name);
    let trig = led_dir(name) + "/trigger"@;
    if r1 != r {
        lemma_write_keeps_shape(r, trig, "none"@, path);
    }
    assert(is_writable_file(r, path) ==> is_writable_file(r1, path));
    if write_result(r1, path, t) is Ok {
        lemma_read_after_write(r1, path, t, path);
    }
    if is_writable_file(r1, path) {
        lemma_write_verified_takes(r1, path, t);
    }
}

/// Setting a keyboard light's brightness leaves it reading the value asked
/// for, held to the light's own maximum; a switch leaves it reading 1 or 0.
/// Where the attribute is writable on a live machine and the maximum is
/// published, the set succeeds.
pub proof fn lemma_brightness_set_reads_back(r: RootView, id: Seq<char>, value: SettingView)
    requires
        led_target(id) is Some,
        led_target(id)->Some_0.1 == "brightness"@,
    ensures
        ({
            let name = led_target(id)->Some_0.0;
            let path = led_dir(name) + "/brightness"@;
            let max_path = led_dir(name) + "/max_brightness"@;
            let (verdict, after) = leds_set_result(r, id, value);
            &&& value matches SettingView::Percent { raw } ==> (verdict is Ok ==> (read_u32(
                r,
                max_path,
            ) matches Some(max) && read_u32(after, path) == Some(
                if raw <= max {
                    raw
                } else {
                    max
                },
            )))
            &&& value matches SettingView::Switch { on } ==> (verdict is Ok ==> read_u32(after, path)
                == Some(if on { 1u32 } else { 0u32 }))
            &&& is_writable_file(r, path) && (value is Switch || (value is Percent && read_u32(
                r,
                max_path,
            ) is Some)) ==> verdict is Ok
        }),
{
    let name = led_target(id)->Some_0.0;
    let path = led_dir(name) + "/brightness"@;
    reveal_strlit("/");
    reveal_strlit("brightness");
    reveal_strlit("/brightness");
    reveal_strlit("1");
    reveal_strlit("0");
    assert(led_dir(name) + "/"@ + "brightness"@ =~= path);
    assert("1"@ =~= decimal(1));
    assert("0"@ =~= decimal(0));
    lemma_trim_decimal(1);
    lemma_trim_decimal(0);
    if let Ok(t) = led_text(r, name, value) {
        if let SettingView::Percent { raw } = value {
            let max = read_u32(r, led_dir(name) + "/max_brightness"@)->Some_0;
            lemma_trim_decimal((if raw <= max { raw } else { max }) as nat);
        }
        if let SettingView::Color { intensities } = value {
            lemma_colour_text_in_channel_order(intensities);
        }
        let r1 = release_trigger(r, name);
        let trig = led_dir(name) + "/trigger"@;
        if r1 != r {
            lemma_write_keeps_shape(r, trig, "none"@, path);
        }
        if write_result(r1, path, t) is Ok {
            lemma_read_after_write(r1, path, t, path);
        }
        if is_writable_file(r1, path) {
            lemma_write_verified_takes(r1, path, t);
        }
    }
}

fn intensities_text_exec(v: &Vec<u32>) -> (r: String)
    ensures
        r@ == intensities_text(v@),
{
    let mut parts: Vec<Vec<char>> = Vec::new();
    let mut k: usize = 0;
    while k < v.len()
        invariant
            k <= v@.len(),
            views(parts@) =~= Seq::new(k as nat, |i: int| decimal(v@[i] as nat)),
        decreases v@.len() - k,
    {
        let ghost before = parts@;
        let d = decimal_of(v[k] as u64);
        parts.push(d);
        assert(views(parts@) =~= views(before).push(decimal(v@[k as int] as nat)));
        k = k + 1;
    }
    let sep = chars_of(" ");
    let j = join_exec(&parts, &sep);
    string_of(&j)
}

impl Leds {
    /// Apply a value to one LED knob: a brightness, an on/off, or a colour.
    pub fn set(&self, root: &mut Root, knob_id: &str, value: &Setting) -> (r: Result<(), String>)
        ensures
            ({
                let (verdict, after) = leds_set_result(old(root)@, knob_id@, value@);
                &&& final(root)@ == after
                &&& match r {
                    Ok(()) => verdict == Ok::<(), Seq<char>>(()),
                    Err(e) => verdict == Err::<(), Seq<char>>(e@),
                }
            }),
    {
        let id = chars_of(knob_id);
        let prefix = chars_of("leds/");
        let rest = match strip_prefix_exec(&id, &prefix) {
            Some(rest) => rest,
            None => return Err(cat(knob_id, " is not an LED")),
        };
        let suffix = chars_of("/color");
        let (name, attr) = match strip_suffix_exec(&rest, &suffix) {
            Some(n) => (string_of(&n), "multi_intensity"),
            None => (string_of(&rest), "brightness"),
        };
        let dir = cat3(CLASS, "/", name.as_str());
        let path = cat3(dir.as_str(), "/", attr);
        let text = match value {
            Setting::Percent { raw } => {
                let max_attr = cat(dir.as_str(), "/max_brightness");
                let max = match root.read_u32(max_attr.as_str()) {
                    Some(m) => m,
                    None => return Err(cat(name.as_str(), " disappeared while being set")),
                };
                let v = if *raw <= max {
                    *raw
                } else {
                    max
                };
                u64_string(v as u64)
            },
            Setting::Switch { on } => {
                if *on {
                    String::from_str("1")
                } else {
                    String::from_str("0")
                }
            },
            Setting::Color { intensities } => intensities_text_exec(intensities),
            _ => {
                let d = value.describe();
                return Err(cat("an LED cannot take ", d.as_str()));
            },
        };
        release_trigger_exec(root, name.as_str());
        root.write_verified(path.as_str(), text.as_str())
    }
}

} // verus!
