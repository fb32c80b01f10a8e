//! Documented vendor sysfs knobs, expressed as data.
//!
//! Some laptops publish a fan control that is neither hwmon nor a platform
//! profile: ASUS has `throttle_thermal_policy` and `fan_boost_mode`, ThinkPads
//! have `/proc/acpi/ibm/fan`. These are kernel interfaces with entries in
//! `Documentation/ABI/testing/`, so they can be driven without knowing
//! anything proprietary.
//!
//! They live in a table, so supporting one more laptop is a row rather than a
//! provider. The table does not key on the platform device's directory name:
//! drivers get renamed, so an attribute is found by looking for it across
//! every platform device.

use vstd::prelude::*;

use crate::backlight::leds::knob_views;
use crate::fan::hwmon::reading_views;
use crate::model::{
    Domain, DomainView, Knob, KnobView, Reading, ReadingView, Role, Setting, SettingView, Unit,
    setting_text,
};
use crate::sysfs::{
    is_writable, join_path, list_dir, node_exists, pair_views, read_text, read_u32,
    trim_start_char, write_result, write_verified_result, Root, RootView, is_writable_file,
    lemma_read_after_write, lemma_write_verified_takes,
};
use crate::text::{
    cat, cat3, chars_eq, chars_of, debug_str, debug_string, decimal, digit_char,
    lemma_parse_decimal, lines, lines_of, parse_i64, parse_i64_of, parse_u32,
    parse_u32_of, rsplit_once, rsplit_once_exec, split_once, split_once_exec, string_of,
    string_views, strip_prefix, strip_prefix_exec, trim, trim_chars, u64_string, views,
    lemma_trim_decimal,
};

verus! {

pub const PLATFORM: &'static str = "/sys/devices/platform";

/// ThinkPad's fan lives in procfs with a format of its own, so it gets a few
/// lines rather than a table row.
pub const THINKPAD_FAN: &'static str = "/proc/acpi/ibm/fan";

pub struct VendorKnobs;

/// One documented attribute, and what its integers mean.
pub struct VendorAttr {
    /// The attribute's filename, searched for across platform devices.
    pub file: &'static str,
    pub label: &'static str,
    /// `(value written to sysfs, name shown)`, coolest first, which is the
    /// order these read best in a list.
    pub modes: Vec<(u32, &'static str)>,
    /// Where the ABI is written down.
    pub reference: &'static str,
}

pub struct VendorAttrView {
    pub file: Seq<char>,
    pub label: Seq<char>,
    pub modes: Seq<(u32, Seq<char>)>,
    pub reference: Seq<char>,
}

pub open spec fn mode_views(m: Seq<(u32, &'static str)>) -> Seq<(u32, Seq<char>)> {
    Seq::new(m.len(), |i: int| (m[i].0, m[i].1@))
}

impl View for VendorAttr {
    type V = VendorAttrView;

    open spec fn view(&self) -> VendorAttrView {
        VendorAttrView {
            file: self.file@,
            label: self.label@,
            modes: mode_views(self.modes@),
            reference: self.reference@,
        }
    }
}

pub open spec fn attr_views(v: Seq<VendorAttr>) -> Seq<VendorAttrView> {
    Seq::new(v.len(), |i: int| v[i]@)
}

pub open spec fn attr_table() -> Seq<VendorAttrView> {
    seq![
        VendorAttrView {
            file: "throttle_thermal_policy"@,
            label: "Throttle policy"@,
            modes: seq![(2u32, "Silent"@), (0u32, "Balanced"@), (1u32, "Turbo"@)],
            reference: "Documentation/ABI/testing/sysfs-platform-asus-wmi"@,
        },
        VendorAttrView {
            file: "fan_boost_mode"@,
            label: "Fan boost"@,
            modes: seq![(2u32, "Silent"@), (0u32, "Normal"@), (1u32, "Overboost"@)],
            reference: "Documentation/ABI/testing/sysfs-platform-asus-wmi"@,
        },
    ]
}

/// The documented attributes. Adding a laptop means adding a row here.
pub fn attrs() -> (r: Vec<VendorAttr>)
    ensures
        attr_views(r@) == attr_table(),
{
    let r = vec![
        VendorAttr {
            file: "throttle_thermal_policy",
            label: "Throttle policy",
            modes: vec![(2u32, "Silent"), (0u32, "Balanced"), (1u32, "Turbo")],
            reference: "Documentation/ABI/testing/sysfs-platform-asus-wmi",
        },
        VendorAttr {
            file: "fan_boost_mode",
            label: "Fan boost",
            modes: vec![(2u32, "Silent"), (0u32, "Normal"), (1u32, "Overboost")],
            reference: "Documentation/ABI/testing/sysfs-platform-asus-wmi",
        },
    ];
    assert(mode_views(r@[0].modes@) =~= attr_table()[0].modes);
    assert(mode_views(r@[1].modes@) =~= attr_table()[1].modes);
    assert(attr_views(r@) =~= attr_table());
    r
}

/// The platform devices exposing `file`, as `(device name, attribute path)`.
pub open spec fn attr_paths(r: RootView, entries: Seq<(Seq<char>, Seq<char>)>, file: Seq<char>) -> Seq<
    (Seq<char>, Seq<char>),
>
    decreases entries.len(),
{
    if entries.len() == 0 {
        seq![]
    } else {
        let rest = attr_paths(r, entries.drop_last(), file);
        let (name, dir) = entries.last();
        let path = dir + "/"@ + file;
        if node_exists(r, path) {
            rest.push((name, path))
        } else {
            rest
        }
    }
}

pub open spec fn find_attr_of(r: RootView, file: Seq<char>) -> Seq<(Seq<char>, Seq<char>)> {
    attr_paths(r, list_dir(r, PLATFORM@), file)
}

/// Every platform device exposing `file`, as `(device name, attribute path)`.
pub fn find_attr(root: &Root, file: &str) -> (r: Vec<(String, String)>)
    ensures
        pair_views(r@) == find_attr_of(root@, file@),
{
    let entries = root.list(PLATFORM);
    let mut out: Vec<(String, String)> = Vec::new();
    let mut i: usize = 0;
    while i < entries.len()
        invariant
            i <= entries@.len(),
            pair_views(entries@) == list_dir(root@, PLATFORM@),
            pair_views(out@) == attr_paths(root@, pair_views(entries@).take(i as int), file@),
        decreases entries@.len() - i,
    {
        proof {
            let t = pair_views(entries@).take(i + 1);
            assert(t.drop_last() =~= pair_views(entries@).take(i as int));
            assert(t.last() == (entries@[i as int].0@, entries@[i as int].1@));
        }
        let path = cat3(entries[i].1.as_str(), "/", file);
        if root.path_exists(path.as_str()) {
            let ghost before = out@;
            out.push((entries[i].0.clone(), path));
            assert(pair_views(out@) =~= pair_views(before).push(
                (entries@[i as int].0@, out@.last().1@),
            ));
        }
        i = i + 1;
    }
    assert(pair_views(entries@).take(entries@.len() as int) =~= pair_views(entries@));
    out
}

/// The name of the first mode written as `v`.
pub open spec fn mode_name(modes: Seq<(u32, Seq<char>)>, v: u32) -> Option<Seq<char>>
    decreases modes.len(),
{
    if modes.len() == 0 {
        None
    } else if modes[0].0 == v {
        Some(modes[0].1)
    } else {
        mode_name(modes.drop_first(), v)
    }
}

/// The value of the first mode named `name`.
pub open spec fn mode_raw(modes: Seq<(u32, Seq<char>)>, name: Seq<char>) -> Option<u32>
    decreases modes.len(),
{
    if modes.len() == 0 {
        None
    } else if modes[0].1 == name {
        Some(modes[0].0)
    } else {
        mode_raw(modes.drop_first(), name)
    }
}

pub open spec fn mode_names(modes: Seq<(u32, Seq<char>)>) -> Seq<Seq<char>> {
    Seq::new(modes.len(), |i: int| modes[i].1)
}

fn mode_name_exec(modes: &Vec<(u32, &'static str)>, v: u32) -> (r: Option<&'static str>)
    ensures
        match r {
            Some(n) => mode_name(mode_views(modes@), v) == Some(n@),
            None => mode_name(mode_views(modes@), v).is_none(),
        },
{
    let ghost m = mode_views(modes@);
    assert(m.skip(0) =~= m);
    let mut i: usize = 0;
    while i < modes.len()
        invariant
            i <= modes@.len(),
            m == mode_views(modes@),
            mode_name(m, v) == mode_name(m.skip(i as int), v),
        decreases modes@.len() - i,
    {
        assert(m.skip(i as int).drop_first() =~= m.skip(i + 1));
        assert(m.skip(i as int)[0] == m[i as int]);
        if modes[i].0 == v {
            return Some(modes[i].1);
        }
        i = i + 1;
    }
    assert(m.skip(i as int).len() == 0);
    None
}

fn mode_raw_exec(modes: &Vec<(u32, &'static str)>, name: &str) -> (r: Option<u32>)
    ensures
        r == mode_raw(mode_views(modes@), name@),
{
    let ghost m = mode_views(modes@);
    assert(m.skip(0) =~= m);
    let want = chars_of(name);
    let mut i: usize = 0;
    while i < modes.len()
        invariant
            i <= modes@.len(),
            m == mode_views(modes@),
            want@ == name@,
            mode_raw(m, name@) == mode_raw(m.skip(i as int), name@),
        decreases modes@.len() - i,
    {
        assert(m.skip(i as int).drop_first() =~= m.skip(i + 1));
        assert(m.skip(i as int)[0] == m[i as int]);
        if chars_eq(&chars_of(modes[i].1), &want) {
            return Some(modes[i].0);
        }
        i = i + 1;
    }
    assert(m.skip(i as int).len() == 0);
    None
}

fn mode_names_exec(modes: &Vec<(u32, &'static str)>) -> (r: Vec<String>)
    ensures
        string_views(r@) == mode_names(mode_views(modes@)),
{
    let mut out: Vec<String> = Vec::new();
    let mut i: usize = 0;
    while i < modes.len()
        invariant
            i <= modes@.len(),
            string_views(out@) =~= mode_names(mode_views(modes@)).take(i as int),
        decreases modes@.len() - i,
    {
        let ghost before = out@;
        out.push(String::from_str(modes[i].1));
        assert(string_views(out@) =~= string_views(before).push(modes@[i as int].1@));
        assert(mode_names(mode_views(modes@)).take(i + 1) =~= mode_names(mode_views(modes@)).take(
            i as int,
        ).push(modes@[i as int].1@));
        i = i + 1;
    }
    out
}

/// The attribute row for a file name, the first one that has it.
pub open spec fn attr_for(table: Seq<VendorAttrView>, file: Seq<char>) -> Option<VendorAttrView>
    decreases table.len(),
{
    if table.len() == 0 {
        None
    } else if table[0].file == file {
        Some(table[0])
    } else {
        attr_for(table.drop_first(), file)
    }
}

// ---- the ThinkPad procfs file ---------------------------------------------------

/// The trimmed value of the first `key: value` line whose trimmed key is
/// `key`.
pub open spec fn key_value_in(ls: Seq<Seq<char>>, key: Seq<char>) -> Option<Seq<char>>
    decreases ls.len(),
{
    if ls.len() == 0 {
        None
    } else {
        match split_once(ls[0], ':') {
            Some((k, v)) => if trim(k) == key {
                Some(trim(v))
            } else {
                key_value_in(ls.drop_first(), key)
            },
            None => key_value_in(ls.drop_first(), key),
        }
    }
}

pub open spec fn key_value(text: Seq<char>, key: Seq<char>) -> Option<Seq<char>> {
    key_value_in(lines(text), key)
}

fn key_value_of(text: &[char], key: &[char]) -> (r: Option<Vec<char>>)
    ensures
        match r {
            Some(v) => key_value(text@, key@) == Some(v@),
            None => key_value(text@, key@).is_none(),
        },
{
    let ls = lines_of(text);
    let ghost l = views(ls@);
    assert(l.skip(0) =~= l);
    let mut i: usize = 0;
    while i < ls.len()
        invariant
            i <= ls@.len(),
            l == views(ls@),
            l == lines(text@),
            key_value(text@, key@) == key_value_in(l.skip(i as int), key@),
        decreases ls@.len() - i,
    {
        assert(l.skip(i as int).drop_first() =~= l.skip(i + 1));
        assert(l.skip(i as int)[0] == ls@[i as int]@);
        match split_once_exec(&ls[i], ':') {
            Some(kv) => {
                let k = trim_chars(&kv.0);
                if chars_eq(&k, key) {
                    return Some(trim_chars(&kv.1));
                }
            },
            None => {},
        }
        i = i + 1;
    }
    assert(l.skip(i as int).len() == 0);
    None
}

/// `level:` from `/proc/acpi/ibm/fan`, which is `auto`, `full-speed`,
/// `disengaged`, or a digit 0-7.
pub fn thinkpad_level(text: &str) -> (r: Option<String>)
    ensures
        match r {
            Some(l) => key_value(text@, "level"@) == Some(l@),
            None => key_value(text@, "level"@).is_none(),
        },
{
    match key_value_of(&chars_of(text), &chars_of("level")) {
        Some(v) => Some(string_of(&v)),
        None => None,
    }
}

pub open spec fn level_name(n: nat) -> Seq<char> {
    "Level "@ + decimal(n)
}

/// The menu of fan levels: automatic, the eight fixed levels, full speed.
pub open spec fn thinkpad_menu() -> Seq<Seq<char>> {
    seq!["Automatic"@] + Seq::new(8, |n: int| level_name(n as nat)) + seq!["Full speed"@]
}

pub fn thinkpad_modes() -> (r: Vec<String>)
    ensures
        string_views(r@) == thinkpad_menu(),
{
    let mut m: Vec<String> = Vec::new();
    m.push(String::from_str("Automatic"));
    let mut n: u64 = 0;
    while n <= 7
        invariant
            n <= 8,
            string_views(m@) =~= seq!["Automatic"@] + Seq::new(n as nat, |k: int| level_name(k as nat)),
        decreases 8 - n,
    {
        let d = u64_string(n);
        let ghost before = m@;
        m.push(cat("Level ", d.as_str()));
        assert(string_views(m@) =~= string_views(before).push(level_name(n as nat)));
        assert(Seq::new((n + 1) as nat, |k: int| level_name(k as nat)) =~= Seq::new(
            n as nat,
            |k: int| level_name(k as nat),
        ).push(level_name(n as nat)));
        n = n + 1;
    }
    m.push(String::from_str("Full speed"));
    assert(string_views(m@) =~= thinkpad_menu());
    m
}

/// The menu entry for a level the driver reports.
pub open spec fn thinkpad_label_of(level: Seq<char>) -> Seq<char> {
    if level == "auto"@ {
        "Automatic"@
    } else if level == "full-speed"@ || level == "disengaged"@ {
        "Full speed"@
    } else {
        match parse_u32(level) {
            Some(n) => if n <= 7 {
                level_name(n as nat)
            } else {
                "Automatic"@
            },
            None => "Automatic"@,
        }
    }
}

pub fn thinkpad_label(level: &str) -> (r: String)
    ensures
        r@ == thinkpad_label_of(level@),
{
    let l = chars_of(level);
    if chars_eq(&l, &chars_of("auto")) {
        String::from_str("Automatic")
    } else if chars_eq(&l, &chars_of("full-speed")) || chars_eq(&l, &chars_of("disengaged")) {
        String::from_str("Full speed")
    } else {
        match parse_u32_of(&l) {
            Some(n) => if n <= 7 {
                let d = u64_string(n as u64);
                cat("Level ", d.as_str())
            } else {
                String::from_str("Automatic")
            },
            None => String::from_str("Automatic"),
        }
    }
}

/// The command the driver takes for a menu entry; `None` for anything that
/// is not a level it has, so no level above 7 is ever written.
pub open spec fn thinkpad_command_of(label: Seq<char>) -> Option<Seq<char>> {
    if label == "Automatic"@ {
        Some("level auto"@)
    } else if label == "Full speed"@ {
        Some("level disengaged"@)
    } else {
        match strip_prefix(label, "Level "@) {
            Some(rest) => match parse_u32(rest) {
                Some(n) => if n <= 7 {
                    Some("level "@ + decimal(n as nat))
                } else {
                    None
                },
                None => None,
            },
            None => None,
        }
    }
}

pub fn thinkpad_command(label: &str) -> (r: Option<String>)
    ensures
        match r {
            Some(c) => thinkpad_command_of(label@) == Some(c@),
            None => thinkpad_command_of(label@).is_none(),
        },
{
    let l = chars_of(label);
    if chars_eq(&l, &chars_of("Automatic")) {
        Some(String::from_str("level auto"))
    } else if chars_eq(&l, &chars_of("Full speed")) {
        Some(String::from_str("level disengaged"))
    } else {
        match strip_prefix_exec(&l, &chars_of("Level ")) {
            Some(rest) => match parse_u32_of(&rest) {
                Some(n) => if n <= 7 {
                    let d = u64_string(n as u64);
                    Some(cat("level ", d.as_str()))
                } else {
                    None
                },
                None => None,
            },
            None => None,
        }
    }
}

/// The commands the driver takes: `level auto`, `level 0` to `level 7`,
/// `level disengaged`.
pub open spec fn thinkpad_commands() -> Seq<Seq<char>> {
    seq!["level auto"@] + Seq::new(8, |n: int| "level "@ + decimal(n as nat)) + seq![
        "level disengaged"@,
    ]
}

proof fn lemma_level_entry(n: nat)
    requires
        n <= 7,
    ensures
        thinkpad_menu()[n + 1 as int] == level_name(n),
        thinkpad_command_of(level_name(n)) == Some("level "@ + decimal(n)),
{
    reveal_strlit("Automatic");
    reveal_strlit("Full speed");
    reveal_strlit("Level ");
    let l = level_name(n);
    assert(decimal(n) =~= seq![digit_char(n)]);
    assert(l.len() == 7);
    assert(l.take(6) =~= "Level "@);
    assert(l.skip(6) =~= decimal(n));
    lemma_parse_decimal(n);
    assert(parse_u32(decimal(n)) == Some(n as u32));
}

/// Every level the driver reports maps to an entry of the menu, and every
/// entry of the menu can be written back: a reported level can always be
/// chosen again.
pub proof fn lemma_reported_level_on_menu(level: Seq<char>)
    ensures
        thinkpad_menu().contains(thinkpad_label_of(level)),
        thinkpad_command_of(thinkpad_label_of(level)).is_some(),
{
    lemma_menu_entries_have_commands();
    let m = thinkpad_menu();
    assert(m[0] == "Automatic"@);
    assert(m[9] == "Full speed"@);
    match parse_u32(level) {
        Some(n) => if n <= 7 {
            lemma_level_entry(n as nat);
        },
        None => {},
    }
}

/// Every entry of the menu names a level the driver takes.
pub proof fn lemma_menu_entries_have_commands()
    ensures
        forall|i: int|
            0 <= i < thinkpad_menu().len() ==> #[trigger] thinkpad_command_of(thinkpad_menu()[i])
                is Some,
{
    reveal_strlit("Automatic");
    reveal_strlit("Full speed");
    let m = thinkpad_menu();
    assert(m.len() == 10);
    assert forall|i: int| 0 <= i < m.len() implies #[trigger] thinkpad_command_of(m[i]) is Some by {
        if i == 0 {
            assert(m[0] == "Automatic"@);
        } else if i == 9 {
            assert(m[9] == "Full speed"@);
        } else {
            lemma_level_entry((i - 1) as nat);
        }
    }
}

/// Whatever is asked for, the only commands written are the driver's own:
/// there is no level 8, and asking for one does not become `level 8`.
pub proof fn lemma_commands_are_the_drivers(label: Seq<char>)
    ensures
        thinkpad_command_of(label) matches Some(c) ==> thinkpad_commands().contains(c),
{
    let k = thinkpad_commands();
    assert(k[0] == "level auto"@);
    assert(k[9] == "level disengaged"@);
    if let Some(c) = thinkpad_command_of(label) {
        if label != "Automatic"@ && label != "Full speed"@ {
            let rest = strip_prefix(label, "Level "@).unwrap();
            let n = parse_u32(rest).unwrap();
            assert(k[n + 1] == c);
        }
    }
}

// ---- the provider ---------------------------------------------------------------

/// The knob for one attribute found at `path`, unless the firmware sits on a
/// value the table does not list: such a firmware is left alone.
pub open spec fn attr_knob(r: RootView, a: VendorAttrView, device: Seq<char>, path: Seq<char>) -> Seq<
    KnobView,
> {
    match read_u32(r, path) {
        None => seq![],
        Some(current) => match mode_name(a.modes, current) {
            None => seq![],
            Some(name) => seq![
                KnobView {
                    id: "vendor/"@ + device + "/"@ + a.file,
                    label: a.label,
                    role: Role::ThermalProfile,
                    domain: DomainView::Modes { options: mode_names(a.modes) },
                    value: SettingView::Mode { name: name },
                    writable: is_writable(r, path),
                    provider: "vendor"@,
                    origin: join_path(r.base, trim_start_char(path, '/')) + " ("@ + a.reference
                        + ")"@,
                },
            ],
        },
    }
}

pub open spec fn attr_found_knobs(
    r: RootView,
    a: VendorAttrView,
    found: Seq<(Seq<char>, Seq<char>)>,
) -> Seq<KnobView>
    decreases found.len(),
{
    if found.len() == 0 {
        seq![]
    } else {
        attr_found_knobs(r, a, found.drop_last()) + attr_knob(r, a, found.last().0, found.last().1)
    }
}

pub open spec fn table_knobs(r: RootView, table: Seq<VendorAttrView>) -> Seq<KnobView>
    decreases table.len(),
{
    if table.len() == 0 {
        seq![]
    } else {
        table_knobs(r, table.drop_last()) + attr_found_knobs(
            r,
            table.last(),
            find_attr_of(r, table.last().file),
        )
    }
}

pub open spec fn thinkpad_knob(r: RootView) -> Seq<KnobView> {
    match read_text(r, THINKPAD_FAN@) {
        None => seq![],
        Some(text) => match key_value(text, "level"@) {
            None => seq![],
            Some(level) => seq![
                KnobView {
                    id: "vendor/thinkpad/fan"@,
                    label: "Fan level"@,
                    role: Role::ThermalProfile,
                    domain: DomainView::Modes { options: thinkpad_menu() },
                    value: SettingView::Mode { name: thinkpad_label_of(level) },
                    writable: is_writable(r, THINKPAD_FAN@),
                    provider: "vendor"@,
                    origin: join_path(r.base, trim_start_char(THINKPAD_FAN@, '/'))
                        + " (thinkpad-acpi; needs fan_control=1)"@,
                },
            ],
        },
    }
}

pub open spec fn vendor_knobs(r: RootView) -> Seq<KnobView> {
    table_knobs(r, attr_table()) + thinkpad_knob(r)
}

/// ThinkPads report fan RPM in the same procfs file.
pub open spec fn vendor_readings(r: RootView) -> Seq<ReadingView> {
    match read_text(r, THINKPAD_FAN@) {
        None => seq![],
        Some(text) => match key_value(text, "speed"@) {
            None => seq![],
            Some(v) => match parse_i64(v) {
                None => seq![],
                Some(rpm) => seq![
                    ReadingView {
                        id: "vendor/thinkpad/fan"@,
                        label: "Fan"@,
                        unit: Unit::Rpm,
                        value: rpm,
                        critical: None,
                        origin: join_path(r.base, trim_start_char(THINKPAD_FAN@, '/')),
                    },
                ],
            },
        },
    }
}

pub open spec fn thinkpad_write_message(e: Seq<char>) -> Seq<char> {
    THINKPAD_FAN@ + ": "@ + e
        + ". thinkpad_acpi refuses fan writes unless it was loaded with fan_control=1."@
}

pub open spec fn vendor_set_result(r: RootView, id: Seq<char>, value: SettingView) -> (
    Result<(), Seq<char>>,
    RootView,
) {
    match value {
        SettingView::Mode { name } => if id == "vendor/thinkpad/fan"@ {
            match thinkpad_command_of(name) {
                None => (Err(debug_str(name) + " is not a ThinkPad fan level"@), r),
                // procfs, so there is nothing to read back.
                Some(c) => match write_result(r, THINKPAD_FAN@, c) {
                    Ok(after) => (Ok(()), after),
                    Err(e) => (Err(thinkpad_write_message(e)), r),
                },
            }
        } else {
            match strip_prefix(id, "vendor/"@) {
                None => (Err(id + " is not a vendor control"@), r),
                Some(rest) => match rsplit_once(rest, '/') {
                    None => (Err(id + " names no attribute"@), r),
                    Some((device, file)) => match attr_for(attr_table(), file) {
                        None => (Err(file + " is not a control RavenControls knows"@), r),
                        Some(a) => match mode_raw(a.modes, name) {
                            None => (Err(debug_str(name) + " is not a "@ + a.label + " mode"@), r),
                            Some(raw) => write_verified_result(
                                r,
                                PLATFORM@ + "/"@ + device + "/"@ + file,
                                decimal(raw as nat),
                            ),
                        },
                    },
                },
            }
        },
        _ => (Err("this control takes a mode, not "@ + setting_text(value)), r),
    }
}

/// Every mode of every documented attribute is written as the number the
/// table pairs with its name, and that number reads back as the same name:
/// the names of a row are distinct, and so are its numbers.
pub proof fn lemma_table_modes_round_trip(ai: int, k: int)
    requires
        0 <= ai < attr_table().len(),
        0 <= k < attr_table()[ai].modes.len(),
    ensures
        mode_raw(attr_table()[ai].modes, attr_table()[ai].modes[k].1) == Some(
            attr_table()[ai].modes[k].0,
        ),
        mode_name(attr_table()[ai].modes, attr_table()[ai].modes[k].0) == Some(
            attr_table()[ai].modes[k].1,
        ),
{
    reveal_strlit("Silent");
    reveal_strlit("Balanced");
    reveal_strlit("Turbo");
    reveal_strlit("Normal");
    reveal_strlit("Overboost");
    let m = attr_table()[ai].modes;
    assert("Silent"@[0] != "Balanced"@[0]);
    assert("Silent"@.len() != "Turbo"@.len());
    assert("Balanced"@.len() != "Turbo"@.len());
    assert("Silent"@[0] != "Normal"@[0]);
    assert("Silent"@.len() != "Overboost"@.len());
    assert("Normal"@.len() != "Overboost"@.len());
    lemma_three_modes(m, k);
}

/// In a list of three modes with distinct names and distinct numbers, each
/// name finds its own number and each number its own name.
proof fn lemma_three_modes(m: Seq<(u32, Seq<char>)>, k: int)
    requires
        m.len() == 3,
        0 <= k < 3,
        m[0].1 != m[1].1 && m[0].1 != m[2].1 && m[1].1 != m[2].1,
        m[0].0 != m[1].0 && m[0].0 != m[2].0 && m[1].0 != m[2].0,
    ensures
        mode_raw(m, m[k].1) == Some(m[k].0),
        mode_name(m, m[k].0) == Some(m[k].1),
{
    reveal_with_fuel(mode_raw, 4);
    reveal_with_fuel(mode_name, 4);
    let m1 = m.drop_first();
    let m2 = m1.drop_first();
    assert(m1 =~= seq![m[1], m[2]]);
    assert(m2 =~= seq![m[2]]);
    assert(m1[0] == m[1]);
    assert(m2[0] == m[2]);
}

/// A mode found by name is one of the modes of the list.
proof fn lemma_mode_raw_found(modes: Seq<(u32, Seq<char>)>, name: Seq<char>)
    requires
        mode_raw(modes, name) is Some,
    ensures
        exists|k: int| 0 <= k < modes.len() && #[trigger] modes[k] == (mode_raw(modes, name)->Some_0, name),
    decreases modes.len(),
{
    if modes[0].1 == name {
        assert(modes[0] == (mode_raw(modes, name)->Some_0, name));
    } else {
        lemma_mode_raw_found(modes.drop_first(), name);
        let k = choose|k: int|
            0 <= k < modes.drop_first().len() && #[trigger] modes.drop_first()[k] == (mode_raw(
                modes.drop_first(),
                name,
            )->Some_0, name);
        assert(modes[k + 1] == modes.drop_first()[k]);
    }
}

/// The row found for a file is a row of the table.
proof fn lemma_attr_for_in(table: Seq<VendorAttrView>, file: Seq<char>)
    requires
        attr_for(table, file) is Some,
    ensures
        exists|ai: int| 0 <= ai < table.len() && #[trigger] table[ai] == attr_for(table, file)->Some_0,
    decreases table.len(),
{
    if table[0].file != file {
        lemma_attr_for_in(table.drop_first(), file);
        let ai = choose|ai: int|
            0 <= ai < table.drop_first().len() && #[trigger] table.drop_first()[ai] == attr_for(
                table.drop_first(),
                file,
            )->Some_0;
        assert(table[ai + 1] == table.drop_first()[ai]);
    } else {
        assert(table[0] == attr_for(table, file)->Some_0);
    }
}

/// Setting a documented attribute to a mode writes the number its table row
/// pairs with that name, and what the attribute then reads names the same
/// mode. On a live machine where the attribute is writable, every mode of
/// the row is accepted.
pub proof fn lemma_vendor_mode_set_writes_the_table_value(
    r: RootView,
    id: Seq<char>,
    name: Seq<char>,
    device: Seq<char>,
    file: Seq<char>,
)
    requires
        id != "vendor/thinkpad/fan"@,
        strip_prefix(id, "vendor/"@) is Some,
        rsplit_once(strip_prefix(id, "vendor/"@)->Some_0, '/') == Some((device, file)),
        attr_for(attr_table(), file) is Some,
    ensures
        ({
            let a = attr_for(attr_table(), file)->Some_0;
            let path = PLATFORM@ + "/"@ + device + "/"@ + file;
            let (verdict, after) = vendor_set_result(r, id, SettingView::Mode { name });
            &&& verdict is Ok ==> exists|k: int|
                0 <= k < a.modes.len() && #[trigger] a.modes[k].1 == name && read_u32(after, path)
                    == Some(a.modes[k].0)
            &&& verdict is Ok ==> (read_u32(after, path) matches Some(v) && mode_name(a.modes, v)
                == Some(name))
            &&& is_writable_file(r, path) && mode_names(a.modes).contains(name) ==> verdict is Ok
        }),
{
    let a = attr_for(attr_table(), file)->Some_0;
    let path = PLATFORM@ + "/"@ + device + "/"@ + file;
    lemma_attr_for_in(attr_table(), file);
    let ai = choose|ai: int| 0 <= ai < attr_table().len() && #[trigger] attr_table()[ai] == a;
    if mode_names(a.modes).contains(name) {
        let k = choose|k: int| 0 <= k < mode_names(a.modes).len() && mode_names(a.modes)[k] == name;
        lemma_table_modes_round_trip(ai, k);
    }
    if mode_raw(a.modes, name) is Some {
        let v = mode_raw(a.modes, name)->Some_0;
        lemma_mode_raw_found(a.modes, name);
        let k = choose|k: int| 0 <= k < a.modes.len() && #[trigger] a.modes[k] == (v, name);
        lemma_table_modes_round_trip(ai, k);
        lemma_trim_decimal(v as nat);
        let d = decimal(v as nat);
        if write_result(r, path, d) is Ok {
            lemma_read_after_write(r, path, d, path);
        }
        if is_writable_file(r, path) {
            lemma_write_verified_takes(r, path, d);
        }
    }
}

fn attr_knob_exec(root: &Root, a: &VendorAttr, device: &str, path: &str) -> (r: Vec<Knob>)
    ensures
        knob_views(r@) == attr_knob(root@, a@, device@, path@),
{
    let mut out: Vec<Knob> = Vec::new();
    if let Some(current) = root.read_u32(path) {
        if let Some(name) = mode_name_exec(&a.modes, current) {
            let id = cat3("vendor/", device, "/").concat(a.file);
            let where_ = root.path(path);
            let origin = cat3(where_.as_str(), " (", a.reference).concat(")");
            out.push(
                Knob {
                    id,
                    label: String::from_str(a.label),
                    role: Role::ThermalProfile,
                    domain: Domain::Modes { options: mode_names_exec(&a.modes) },
                    value: Setting::Mode { name: String::from_str(name) },
                    writable: root.writable(path),
                    provider: String::from_str("vendor"),
                    origin,
                },
            );
        }
    }
    assert(knob_views(out@) =~= attr_knob(root@, a@, device@, path@));
    out
}

fn attr_found_knobs_exec(root: &Root, a: &VendorAttr, found: &Vec<(String, String)>) -> (r: Vec<
    Knob,
>)
    ensures
        knob_views(r@) == attr_found_knobs(root@, a@, pair_views(found@)),
{
    let mut out: Vec<Knob> = Vec::new();
    let mut i: usize = 0;
    while i < found.len()
        invariant
            i <= found@.len(),
            knob_views(out@) == attr_found_knobs(root@, a@, pair_views(found@).take(i as int)),
        decreases found@.len() - i,
    {
        let mut more = attr_knob_exec(root, a, found[i].0.as_str(), found[i].1.as_str());
        let ghost before = out@;
        let ghost added = more@;
        out.append(&mut more);
        proof {
            let t = pair_views(found@).take(i + 1);
            assert(t.drop_last() =~= pair_views(found@).take(i as int));
            assert(t.last() == (found@[i as int].0@, found@[i as int].1@));
            assert(knob_views(out@) =~= knob_views(before) + knob_views(added));
        }
        i = i + 1;
    }
    assert(pair_views(found@).take(found@.len() as int) =~= pair_views(found@));
    out
}

fn thinkpad_knob_exec(root: &Root) -> (r: Vec<Knob>)
    ensures
        knob_views(r@) == thinkpad_knob(root@),
{
    let mut out: Vec<Knob> = Vec::new();
    if let Some(text) = root.read(THINKPAD_FAN) {
        if let Some(level) = thinkpad_level(text.as_str()) {
            let where_ = root.path(THINKPAD_FAN);
            out.push(
                Knob {
                    id: String::from_str("vendor/thinkpad/fan"),
                    label: String::from_str("Fan level"),
                    role: Role::ThermalProfile,
                    domain: Domain::Modes { options: thinkpad_modes() },
                    value: Setting::Mode { name: thinkpad_label(level.as_str()) },
                    writable: root.writable(THINKPAD_FAN),
                    provider: String::from_str("vendor"),
                    origin: cat(where_.as_str(), " (thinkpad-acpi; needs fan_control=1)"),
                },
            );
        }
    }
    assert(knob_views(out@) =~= thinkpad_knob(root@));
    out
}

fn attr_for_exec(table: &Vec<VendorAttr>, file: &[char]) -> (r: Option<usize>)
    ensures
        match r {
            Some(i) => i < table@.len() && attr_for(attr_views(table@), file@) == Some(
                table@[i as int]@,
            ),
            None => attr_for(attr_views(table@), file@).is_none(),
        },
{
    let ghost t = attr_views(table@);
    assert(t.skip(0) =~= t);
    let mut i: usize = 0;
    while i < table.len()
        invariant
            i <= table@.len(),
            t == attr_views(table@),
            attr_for(t, file@) == attr_for(t.skip(i as int), file@),
        decreases table@.len() - i,
    {
        assert(t.skip(i as int).drop_first() =~= t.skip(i + 1));
        assert(t.skip(i as int)[0] == table@[i as int]@);
        if chars_eq(&chars_of(table[i].file), file) {
            return Some(i);
        }
        i = i + 1;
    }
    assert(t.skip(i as int).len() == 0);
    None
}

impl VendorKnobs {
    pub fn id(&self) -> (r: &'static str)
        ensures
            r@ == "vendor"@,
    {
        "vendor"
    }

    /// A knob per documented attribute found, then the ThinkPad fan.
    pub fn knobs(&self, root: &Root) -> (r: Vec<Knob>)
        ensures
            knob_views(r@) == vendor_knobs(root@),
    {
        let table = attrs();
        let mut out: Vec<Knob> = Vec::new();
        let mut t: usize = 0;
        while t < table.len()
            invariant
                t <= table@.len(),
                attr_views(table@) == attr_table(),
                knob_views(out@) == table_knobs(root@, attr_table().take(t as int)),
            decreases table@.len() - t,
        {
            let found = find_attr(root, table[t].file);
            let mut more = attr_found_knobs_exec(root, &table[t], &found);
            let ghost before = out@;
            let ghost added = more@;
            out.append(&mut more);
            proof {
                let s = attr_table().take(t + 1);
                assert(s.drop_last() =~= attr_table().take(t as int));
                assert(s.last() == table@[t as int]@);
                assert(knob_views(out@) =~= knob_views(before) + knob_views(added));
            }
            t = t + 1;
        }
        assert(attr_table().take(table@.len() as int) =~= attr_table());
        let ghost before = out@;
        let mut tp = thinkpad_knob_exec(root);
        let ghost added = tp@;
        out.append(&mut tp);
        assert(knob_views(out@) =~= knob_views(before) + knob_views(added));
        out
    }

    /// The ThinkPad fan's speed, on machines whose driver has no hwmon node.
    pub fn readings(&self, root: &Root) -> (r: Vec<Reading>)
        ensures
            reading_views(r@) == vendor_readings(root@),
    {
        let mut out: Vec<Reading> = Vec::new();
        if let Some(text) = root.read(THINKPAD_FAN) {
            if let Some(v) = key_value_of(&chars_of(text.as_str()), &chars_of("speed")) {
                if let Some(rpm) = parse_i64_of(&v) {
                    out.push(
                        Reading {
                            id: String::from_str("vendor/thinkpad/fan"),
                            label: String::from_str("Fan"),
                            unit: Unit::Rpm,
                            value: rpm,
                            critical: None,
                            origin: root.path(THINKPAD_FAN),
                        },
                    );
                }
            }
        }
        assert(reading_views(out@) =~= vendor_readings(root@));
        out
    }

    /// Choose a mode of a vendor attribute or of the ThinkPad fan.
    pub fn set(&self, root: &mut Root, knob_id: &str, value: &Setting) -> (r: Result<(), String>)
        ensures
            ({
                let (verdict, after) = vendor_set_result(old(root)@, knob_id@, value@);
                &&& final(root)@ == after
                &&& match r {
                    Ok(()) => verdict == Ok::<(), Seq<char>>(()),
                    Err(e) => verdict == Err::<(), Seq<char>>(e@),
                }
            }),
    {
        let name = match value {
            Setting::Mode { name } => name,
            _ => {
                let d = value.describe();
                return Err(cat("this control takes a mode, not ", d.as_str()));
            },
        };
        let id = chars_of(knob_id);
        if chars_eq(&id, &chars_of("vendor/thinkpad/fan")) {
            let command = match thinkpad_command(name.as_str()) {
                Some(c) => c,
                None => {
                    let d = debug_string(name.as_str());
                    return Err(cat(d.as_str(), " is not a ThinkPad fan level"));
                },
            };
            return match root.write(THINKPAD_FAN, command.as_str()) {
                Ok(()) => Ok(()),
                Err(e) => Err(
                    cat3(THINKPAD_FAN, ": ", e.as_str()).concat(
                        ". thinkpad_acpi refuses fan writes unless it was loaded with fan_control=1.",
                    ),
                ),
            };
        }
        let rest = match strip_prefix_exec(&id, &chars_of("vendor/")) {
            Some(r) => r,
            None => return Err(cat(knob_id, " is not a vendor control")),
        };
        let (device, file) = match rsplit_once_exec(&rest, '/') {
            Some(p) => p,
            None => return Err(cat(knob_id, " names no attribute")),
        };
        let table = attrs();
        let k = match attr_for_exec(&table, &file) {
            Some(k) => k,
            None => {
                let f = string_of(&file);
                return Err(cat(f.as_str(), " is not a control RavenControls knows"));
            },
        };
        let raw = match mode_raw_exec(&table[k].modes, name.as_str()) {
            Some(v) => v,
            None => {
                let d = debug_string(name.as_str());
                return Err(cat3(d.as_str(), " is not a ", table[k].label).concat(" mode"));
            },
        };
        let d = string_of(&device);
        let f = string_of(&file);
        let path = cat3(PLATFORM, "/", d.as_str()).concat("/").concat(f.as_str());
        let text = u64_string(raw as u64);
        root.write_verified(path.as_str(), text.as_str())
    }
}

} // verus!
