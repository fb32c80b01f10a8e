//! `/sys/class/hwmon/hwmon*`, the kernel's one real fan interface.
//!
//! The attributes that matter:
//!
//!   pwm<N>          duty, 0-255, on every driver that has one
//!   pwm<N>_enable   0 = no control (full speed), 1 = us, 2+ = firmware
//!   fan<N>_input    speed in RPM, read-only
//!   temp<N>_input   millidegrees, with temp<N>_crit where published
//!
//! Writing `pwm<N>` while enable is 2 does nothing at all, so setting a duty
//! means taking control first -- and having taken it, something must be alive
//! to give it back. See `guard`.

use vstd::prelude::*;

use crate::backlight::leds::knob_views;
use crate::model::{
    Domain, DomainView, Knob, KnobView, Reading, ReadingView, Role, Setting, SettingView, Unit,
    setting_text,
};
use crate::sysfs::{
    is_writable, join_path, link_target, list_dir, node_exists, pair_views, read_i64, read_text,
    read_u32, trim_start_char, write_verified_result, Root, RootView, is_writable_file,
    lemma_read_after_write, lemma_write_keeps_shape, lemma_write_verified_takes, write_result,
};
use crate::text::{
    cat, cat3, chars_eq, chars_of, debug_str, debug_string, decimal, parse_u32, parse_u32_of,
    rsplit_once, rsplit_once_exec, slice_to_vec, string_of, string_views, strip_prefix,
    strip_prefix_exec, strip_suffix, strip_suffix_exec, u64_string, lemma_parse_decimal,
    lemma_trim_decimal,
};

verus! {

pub const CLASS: &'static str = "/sys/class/hwmon";

/// hwmon PWM is a byte, on every driver, by ABI.
pub const PWM_RAW_MAX: u32 = 255;

pub struct Hwmon;

// ---- channel numbers ------------------------------------------------------------

/// Insert `x` after every element not greater than it.
pub open spec fn insert_u32(s: Seq<u32>, x: u32) -> Seq<u32>
    decreases s.len(),
{
    if s.len() == 0 {
        seq![x]
    } else if x < s.last() {
        insert_u32(s.drop_last(), x).push(s.last())
    } else {
        s.push(x)
    }
}

/// `s` in ascending order.
pub open spec fn sort_u32(s: Seq<u32>) -> Seq<u32>
    decreases s.len(),
{
    if s.len() == 0 {
        seq![]
    } else {
        insert_u32(sort_u32(s.drop_last()), s.last())
    }
}

/// `Vec::dedup`: runs of equal neighbours reduced to one.
pub open spec fn dedup_u32(s: Seq<u32>) -> Seq<u32>
    decreases s.len(),
{
    if s.len() <= 1 {
        s
    } else if s[s.len() - 2] == s.last() {
        dedup_u32(s.drop_last())
    } else {
        dedup_u32(s.drop_last()).push(s.last())
    }
}

fn insert_u32_exec(v: &mut Vec<u32>, x: u32)
    ensures
        final(v)@ == insert_u32(old(v)@, x),
{
    let ghost s = v@;
    let mut j = v.len();
    assert(s.take(j as int) =~= s);
    assert(s.skip(j as int) =~= Seq::<u32>::empty());
    loop
        invariant
            j <= v@.len(),
            v@ == s,
            insert_u32(s, x) == insert_u32(s.take(j as int), x) + s.skip(j as int),
        ensures
            j <= v@.len(),
            v@ == s,
            insert_u32(s, x) == insert_u32(s.take(j as int), x) + s.skip(j as int),
            j == 0 || !(x < s[j - 1]),
        decreases j,
    {
        if j == 0 || !(x < v[j - 1]) {
            break;
        }
        proof {
            let t = s.take(j as int);
            assert(t.drop_last() =~= s.take(j - 1));
            assert(insert_u32(s.take(j - 1), x).push(s[j - 1]) + s.skip(j as int) =~= insert_u32(
                s.take(j - 1),
                x,
            ) + s.skip(j - 1));
        }
        j = j - 1;
    }
    v.insert(j, x);
    proof {
        let t = s.take(j as int);
        if j == 0 {
            assert(t =~= Seq::<u32>::empty());
            assert(insert_u32(t, x) =~= t.push(x));
        }
        assert(v@ =~= t.push(x) + s.skip(j as int));
    }
}

/// `s` in ascending order, as `sort_unstable` leaves integers.
pub fn sort_u32_exec(s: &Vec<u32>) -> (r: Vec<u32>)
    ensures
        r@ == sort_u32(s@),
{
    let mut out: Vec<u32> = Vec::new();
    let mut i: usize = 0;
    while i < s.len()
        invariant
            i <= s@.len(),
            out@ == sort_u32(s@.take(i as int)),
        decreases s@.len() - i,
    {
        insert_u32_exec(&mut out, s[i]);
        assert(s@.take(i + 1).drop_last() =~= s@.take(i as int));
        i = i + 1;
    }
    assert(s@.take(s@.len() as int) =~= s@);
    out
}

pub fn dedup_u32_exec(s: &Vec<u32>) -> (r: Vec<u32>)
    ensures
        r@ == dedup_u32(s@),
{
    let mut out: Vec<u32> = Vec::new();
    let mut i: usize = 0;
    while i < s.len()
        invariant
            i <= s@.len(),
            out@ == dedup_u32(s@.take(i as int)),
            i > 0 ==> out@.len() > 0 && out@.last() == s@[i - 1],
        decreases s@.len() - i,
    {
        proof {
            lemma_dedup_last(s@.take(i + 1));
            assert(s@.take(i + 1).drop_last() =~= s@.take(i as int));
        }
        if i == 0 || s[i - 1] != s[i] {
            out.push(s[i]);
        }
        i = i + 1;
    }
    assert(s@.take(s@.len() as int) =~= s@);
    out
}

proof fn lemma_dedup_last(s: Seq<u32>)
    requires
        s.len() > 0,
    ensures
        dedup_u32(s).len() > 0,
        dedup_u32(s).last() == s.last(),
    decreases s.len(),
{
    if s.len() > 1 {
        lemma_dedup_last(s.drop_last());
    }
}

/// The channel numbers spelled by entry names `<prefix><N><suffix>`, in the
/// order the entries come.
pub open spec fn channel_numbers(names: Seq<(Seq<char>, Seq<char>)>, prefix: Seq<char>, suffix: Seq<
    char,
>) -> Seq<u32>
    decreases names.len(),
{
    if names.len() == 0 {
        seq![]
    } else {
        let rest = channel_numbers(names.drop_last(), prefix, suffix);
        match strip_prefix(names.last().0, prefix) {
            Some(a) => match strip_suffix(a, suffix) {
                Some(b) => match parse_u32(b) {
                    Some(n) => rest.push(n),
                    None => rest,
                },
                None => rest,
            },
            None => rest,
        }
    }
}

/// Channel numbers found in `dir` as `<prefix><N><suffix>`, ascending.
pub open spec fn channels_in(r: RootView, dir: Seq<char>, prefix: Seq<char>, suffix: Seq<char>) -> Seq<
    u32,
> {
    sort_u32(channel_numbers(list_dir(r, dir), prefix, suffix))
}

/// Channel numbers in `dir` named `<prefix><N><suffix>`, ascending.
fn channels_exec(root: &Root, dir: &str, prefix: &str, suffix: &str) -> (r: Vec<u32>)
    ensures
        r@ == channels_in(root@, dir@, prefix@, suffix@),
{
    let entries = root.list(dir);
    let p = chars_of(prefix);
    let q = chars_of(suffix);
    let mut found: Vec<u32> = Vec::new();
    let mut i: usize = 0;
    while i < entries.len()
        invariant
            i <= entries@.len(),
            p@ == prefix@,
            q@ == suffix@,
            found@ == channel_numbers(pair_views(entries@).take(i as int), prefix@, suffix@),
        decreases entries@.len() - i,
    {
        proof {
            let t = pair_views(entries@).take(i + 1);
            assert(t.drop_last() =~= pair_views(entries@).take(i as int));
            assert(t.last().0 == entries@[i as int].0@);
        }
        let name = chars_of(entries[i].0.as_str());
        if let Some(a) = strip_prefix_exec(&name, &p) {
            if let Some(b) = strip_suffix_exec(&a, &q) {
                if let Some(n) = parse_u32_of(&b) {
                    found.push(n);
                }
            }
        }
        i = i + 1;
    }
    assert(pair_views(entries@).take(entries@.len() as int) =~= pair_views(entries@));
    sort_u32_exec(&found)
}

/// PWM channel numbers: the bare `pwmN` attributes. `pwm1_enable` and
/// `pwm1_auto_point1_pwm` share the prefix; only the bare one is a duty.
pub fn pwm_channels(root: &Root, dir: &str) -> (r: Vec<u32>)
    ensures
        r@ == channels_in(root@, dir@, "pwm"@, ""@),
{
    channels_exec(root, dir, "pwm", "")
}

/// Channel numbers that have a `pwmN_enable`. Not the same set as the duty
/// channels: `asus_wmi` publishes enables with no duty attribute at all.
pub fn enable_channels(root: &Root, dir: &str) -> (r: Vec<u32>)
    ensures
        r@ == channels_in(root@, dir@, "pwm"@, "_enable"@),
{
    channels_exec(root, dir, "pwm", "_enable")
}

/// Fan and temperature channel numbers, from `fanN_input` and `tempN_input`.
pub fn input_channels(root: &Root, dir: &str, family: &str) -> (r: Vec<u32>)
    ensures
        r@ == channels_in(root@, dir@, family@, "_input"@),
{
    channels_exec(root, dir, family, "_input")
}

// ---- modes --------------------------------------------------------------------

pub open spec fn enable_label_text(value: u32) -> Seq<char> {
    if value == 0 {
        "Full speed"@
    } else if value == 1 {
        "Manual"@
    } else if value == 2 {
        "Automatic"@
    } else {
        "Automatic (driver mode "@ + decimal(value as nat) + ")"@
    }
}

/// hwmon's `pwmN_enable`, in words. Anything above 2 is a driver's own
/// automatic algorithm, so it is reported rather than renamed.
pub fn enable_label(value: u32) -> (r: String)
    ensures
        r@ == enable_label_text(value),
{
    if value == 0 {
        String::from_str("Full speed")
    } else if value == 1 {
        String::from_str("Manual")
    } else if value == 2 {
        String::from_str("Automatic")
    } else {
        let n = u64_string(value as u64);
        cat3("Automatic (driver mode ", n.as_str(), ")")
    }
}

pub open spec fn enable_value_of(label: Seq<char>) -> Option<u32> {
    if label == "Full speed"@ {
        Some(0)
    } else if label == "Manual"@ {
        Some(1)
    } else if label == "Automatic"@ {
        Some(2)
    } else {
        match strip_prefix(label, "Automatic (driver mode "@) {
            Some(a) => match strip_suffix(a, ")"@) {
                Some(b) => parse_u32(b),
                None => None,
            },
            None => None,
        }
    }
}

/// The `pwmN_enable` value a mode label stands for.
pub fn enable_value(label: &str) -> (r: Option<u32>)
    ensures
        r == enable_value_of(label@),
{
    let c = chars_of(label);
    if chars_eq(&c, &chars_of("Full speed")) {
        return Some(0);
    }
    if chars_eq(&c, &chars_of("Manual")) {
        return Some(1);
    }
    if chars_eq(&c, &chars_of("Automatic")) {
        return Some(2);
    }
    let a = match strip_prefix_exec(&c, &chars_of("Automatic (driver mode ")) {
        Some(a) => a,
        None => return None,
    };
    let b = match strip_suffix_exec(&a, &chars_of(")")) {
        Some(b) => b,
        None => return None,
    };
    parse_u32_of(&b)
}

pub open spec fn enable_modes_of(current: u32, has_duty: bool) -> Seq<Seq<char>> {
    let base = if has_duty {
        seq![enable_label_text(2), enable_label_text(1), enable_label_text(0)]
    } else {
        seq![enable_label_text(2), enable_label_text(0)]
    };
    let with_driver = if current > 2 {
        seq![enable_label_text(current)] + base
    } else {
        base
    };
    if current == 1 && !has_duty {
        seq![enable_label_text(1)] + with_driver
    } else {
        with_driver
    }
}

/// The modes to offer for a channel sitting at `current`: the ABI's own,
/// plus whatever the driver is actually using. "Manual" is offered only where
/// there is a duty to set, but still shown where a driver already sits in it.
pub fn enable_modes(current: u32, has_duty: bool) -> (r: Vec<String>)
    ensures
        string_views(r@) == enable_modes_of(current, has_duty),
{
    let mut modes: Vec<String> = Vec::new();
    modes.push(enable_label(2));
    if has_duty {
        modes.push(enable_label(1));
    }
    modes.push(enable_label(0));
    if current > 2 {
        modes.insert(0, enable_label(current));
    }
    if current == 1 && !has_duty {
        modes.insert(0, enable_label(1));
    }
    assert(string_views(modes@) =~= enable_modes_of(current, has_duty));
    modes
}

/// A label above 2 is the driver-mode sentence, long enough to be none of
/// the ABI's three words.
proof fn lemma_driver_mode_label(v: u32)
    requires
        v > 2,
    ensures
        enable_label_text(v).len() >= 25,
        enable_label_text(v) != "Full speed"@,
        enable_label_text(v) != "Manual"@,
        enable_label_text(v) != "Automatic"@,
        strip_prefix(enable_label_text(v), "Automatic (driver mode "@) == Some(
            decimal(v as nat) + ")"@,
        ),
{
    reveal_strlit("Automatic (driver mode ");
    reveal_strlit(")");
    reveal_strlit("Full speed");
    reveal_strlit("Manual");
    reveal_strlit("Automatic");
    lemma_parse_decimal(v as nat);
    let p = "Automatic (driver mode "@;
    let d = decimal(v as nat);
    let l = enable_label_text(v);
    assert(l.take(p.len() as int) =~= p);
    assert(l.skip(p.len() as int) =~= d + ")"@);
}

/// Every mode label reads back as the value it was made from, so whatever a
/// channel is found in can be written back, a driver's own mode included.
pub proof fn lemma_enable_round_trip(v: u32)
    ensures
        enable_value_of(enable_label_text(v)) == Some(v),
{
    reveal_strlit("Full speed");
    reveal_strlit("Manual");
    reveal_strlit("Automatic");
    if v > 2 {
        lemma_driver_mode_label(v);
        reveal_strlit(")");
        let d = decimal(v as nat);
        lemma_parse_decimal(v as nat);
        let a = d + ")"@;
        assert(a.skip(a.len() - 1) =~= ")"@);
        assert(a.take(a.len() - 1) =~= d);
        assert(crate::text::ends_with(a, ")"@));
        assert(strip_suffix(a, ")"@) == Some(d));
        assert(parse_u32(d) == Some(v));
    }
}

/// The mode a channel is in is always on its own menu; "Manual" is offered
/// for a channel without a duty only where it already sits in manual.
pub proof fn lemma_current_mode_is_on_the_menu(current: u32, has_duty: bool)
    ensures
        enable_modes_of(current, has_duty).contains(enable_label_text(current)),
        !has_duty ==> (enable_modes_of(current, has_duty).contains("Manual"@) <==> current == 1),
        has_duty ==> enable_modes_of(current, has_duty).contains("Manual"@),
{
    reveal_strlit("Full speed");
    reveal_strlit("Manual");
    reveal_strlit("Automatic");
    let m = enable_modes_of(current, has_duty);
    if current > 2 {
        lemma_driver_mode_label(current);
        assert(m[0] == enable_label_text(current));
    } else if current == 1 && !has_duty {
        assert(m[0] == enable_label_text(1));
    } else if current == 1 {
        assert(m[1] == enable_label_text(1));
    } else if current == 0 {
        assert(m[m.len() - 1] == enable_label_text(0));
    } else {
        assert(m[0] == enable_label_text(2));
    }
    if has_duty {
        if current > 2 {
            assert(m[2] == "Manual"@);
        } else {
            assert(m[1] == "Manual"@);
        }
    } else if current != 1 {
        assert("Automatic"@.len() == 9 && "Full speed"@.len() == 10 && "Manual"@.len() == 6);
        assert forall|i: int| 0 <= i < m.len() implies m[i] != "Manual"@ by {
            if current > 2 {
                if i == 0 {
                    lemma_driver_mode_label(current);
                } else if i == 1 {
                    assert(m[1] == "Automatic"@);
                } else {
                    assert(m[2] == "Full speed"@);
                }
            } else if i == 0 {
                assert(m[0] == "Automatic"@);
            } else {
                assert(m[1] == "Full speed"@);
            }
        }
    }
}

pub open spec fn split_id_of(id: Seq<char>) -> Result<(Seq<char>, Seq<char>), Seq<char>> {
    match strip_prefix(id, "hwmon/"@) {
        None => Err(id + " is not an hwmon control"@),
        Some(rest) => match rsplit_once(rest, '/') {
            Some((chip, attr)) => Ok((chip, attr)),
            None => Err(id + " names no attribute"@),
        },
    }
}

/// A knob id split back into chip key and attribute. The chip key never holds
/// a `/`, so the split is at the last one.
pub fn split_id(knob_id: &str) -> (r: Result<(String, String), String>)
    ensures
        match r {
            Ok((a, b)) => split_id_of(knob_id@) == Ok::<(Seq<char>, Seq<char>), Seq<char>>(
                (a@, b@),
            ),
            Err(e) => split_id_of(knob_id@) == Err::<(Seq<char>, Seq<char>), Seq<char>>(e@),
        },
{
    let c = chars_of(knob_id);
    let rest = match strip_prefix_exec(&c, &chars_of("hwmon/")) {
        Some(rest) => rest,
        None => return Err(cat(knob_id, " is not an hwmon control")),
    };
    match rsplit_once_exec(&rest, '/') {
        Some((chip, attr)) => Ok((string_of(&chip), string_of(&attr))),
        None => Err(cat(knob_id, " names no attribute")),
    }
}

/// The udev rule that lets the `video` group drive fans without root: shipped,
/// documented, and not recommended, because a session that can write `pwmN`
/// can leave a fan pinned at zero and walk away.
pub const UDEV_RULE: &'static str = "ACTION==\"add\", SUBSYSTEM==\"hwmon\", RUN+=\"/bin/sh -c 'chgrp video /sys%p/pwm* 2>/dev/null; chmod g+w /sys%p/pwm* 2>/dev/null'\"";

} // verus!

verus! {

// ---- chips ------------------------------------------------------------------

/// One hwmon directory, with the name its knobs are keyed on.
pub struct Chip {
    /// The driver's name, `@` and the bus address where two chips share one.
    pub key: String,
    pub name: String,
    pub dir: String,
}

pub struct ChipView {
    pub key: Seq<char>,
    pub name: Seq<char>,
    pub dir: Seq<char>,
}

impl View for Chip {
    type V = ChipView;

    open spec fn view(&self) -> ChipView {
        ChipView { key: self.key@, name: self.name@, dir: self.dir@ }
    }
}

pub open spec fn chip_views(v: Seq<Chip>) -> Seq<ChipView> {
    Seq::new(v.len(), |i: int| v[i]@)
}

/// Every hwmon directory with a `name`, as `(name, dir, bus address)`.
pub open spec fn named_dirs(r: RootView, entries: Seq<(Seq<char>, Seq<char>)>) -> Seq<
    (Seq<char>, Seq<char>, Option<Seq<char>>),
>
    decreases entries.len(),
{
    if entries.len() == 0 {
        seq![]
    } else {
        let rest = named_dirs(r, entries.drop_last());
        let dir = entries.last().1;
        match read_text(r, dir + "/name"@) {
            Some(name) => rest.push((name, dir, link_target(r, dir + "/device"@))),
            None => rest,
        }
    }
}

pub open spec fn count_named(found: Seq<(Seq<char>, Seq<char>, Option<Seq<char>>)>, name: Seq<
    char,
>) -> nat
    decreases found.len(),
{
    if found.len() == 0 {
        0
    } else {
        count_named(found.drop_last(), name) + if found.last().0 == name {
            1nat
        } else {
            0nat
        }
    }
}

/// The key of the `i`th chip: its name, qualified by its bus address when
/// another chip has the same name.
pub open spec fn chip_key(found: Seq<(Seq<char>, Seq<char>, Option<Seq<char>>)>, i: int) -> Seq<
    char,
> {
    let (name, _, address) = found[i];
    match address {
        Some(a) => if count_named(found, name) > 1 {
            name + "@"@ + a
        } else {
            name
        },
        None => name,
    }
}

pub open spec fn chips_of(r: RootView) -> Seq<ChipView> {
    let found = named_dirs(r, list_dir(r, CLASS@));
    Seq::new(
        found.len(),
        |i: int| ChipView { key: chip_key(found, i), name: found[i].0, dir: found[i].1 },
    )
}

fn count_named_exec(found: &Vec<(String, String, Option<String>)>, name: &str) -> (r: usize)
    ensures
        r == count_named(triple_views(found@), name@),
{
    let mut k: usize = 0;
    let mut count: usize = 0;
    while k < found.len()
        invariant
            k <= found@.len(),
            count <= k,
            count == count_named(triple_views(found@).take(k as int), name@),
        decreases found@.len() - k,
    {
        proof {
            let t = triple_views(found@).take(k + 1);
            assert(t.drop_last() =~= triple_views(found@).take(k as int));
        }
        if chars_eq(&chars_of(found[k].0.as_str()), &chars_of(name)) {
            count = count + 1;
        }
        k = k + 1;
    }
    assert(triple_views(found@).take(found@.len() as int) =~= triple_views(found@));
    count
}

pub open spec fn triple_views(v: Seq<(String, String, Option<String>)>) -> Seq<
    (Seq<char>, Seq<char>, Option<Seq<char>>),
> {
    Seq::new(
        v.len(),
        |i: int|
            (
                v[i].0@,
                v[i].1@,
                match v[i].2 {
                    Some(a) => Some(a@),
                    None => None,
                },
            ),
    )
}

/// Every hwmon chip, keyed by driver name rather than enumeration index:
/// `hwmon3` is whatever probed third this boot.
pub fn chips(root: &Root) -> (r: Vec<Chip>)
    ensures
        chip_views(r@) == chips_of(root@),
{
    let entries = root.list(CLASS);
    let mut found: Vec<(String, String, Option<String>)> = Vec::new();
    let mut i: usize = 0;
    while i < entries.len()
        invariant
            i <= entries@.len(),
            found@.len() <= i,
            triple_views(found@) == named_dirs(root@, pair_views(entries@).take(i as int)),
        decreases entries@.len() - i,
    {
        proof {
            let t = pair_views(entries@).take(i + 1);
            assert(t.drop_last() =~= pair_views(entries@).take(i as int));
            assert(t.last().1 == entries@[i as int].1@);
        }
        let dir = entries[i].1.as_str();
        let name_attr = cat(dir, "/name");
        if let Some(name) = root.read(name_attr.as_str()) {
            let device = cat(dir, "/device");
            let address = root.read_link(device.as_str());
            let ghost before = found@;
            found.push((name, entries[i].1.clone(), address));
            assert(triple_views(found@) =~= triple_views(before).push(
                (found@.last().0@, entries@[i as int].1@, link_target(root@, device@)),
            ));
        }
        i = i + 1;
    }
    assert(pair_views(entries@).take(entries@.len() as int) =~= pair_views(entries@));
    let ghost f = triple_views(found@);
    let mut out: Vec<Chip> = Vec::new();
    let mut k: usize = 0;
    while k < found.len()
        invariant
            k <= found@.len(),
            f == triple_views(found@),
            f == named_dirs(root@, list_dir(root@, CLASS@)),
            chip_views(out@) =~= Seq::new(
                k as nat,
                |j: int| ChipView { key: chip_key(f, j), name: f[j].0, dir: f[j].1 },
            ),
        decreases found@.len() - k,
    {
        let name = found[k].0.clone();
        let count = count_named_exec(&found, name.as_str());
        let key = match &found[k].2 {
            Some(address) => {
                if count > 1 {
                    cat3(name.as_str(), "@", address.as_str())
                } else {
                    name.clone()
                }
            },
            None => name.clone(),
        };
        let ghost before = out@;
        out.push(Chip { key, name, dir: found[k].1.clone() });
        proof {
            assert(f[k as int].0 == found@[k as int].0@);
            assert(chip_views(out@) =~= chip_views(before).push(
                ChipView { key: chip_key(f, k as int), name: f[k as int].0, dir: f[k as int].1 },
            ));
        }
        k = k + 1;
    }
    out
}

} // verus!

verus! {

// ---- knobs --------------------------------------------------------------------

pub open spec fn fan_label_text(r: RootView, dir: Seq<char>, n: u32) -> Seq<char> {
    match read_text(r, dir + "/fan"@ + decimal(n as nat) + "_label"@) {
        Some(l) => if l.len() > 0 {
            l
        } else {
            "Fan "@ + decimal(n as nat)
        },
        None => "Fan "@ + decimal(n as nat),
    }
}

/// A fan's own label where the driver publishes one, else `Fan N`.
pub fn fan_label(root: &Root, dir: &str, n: u32) -> (r: String)
    ensures
        r@ == fan_label_text(root@, dir@, n),
{
    let num = u64_string(n as u64);
    let a = cat3(dir, "/fan", num.as_str());
    let attr = cat(a.as_str(), "_label");
    match root.read(attr.as_str()) {
        Some(l) => {
            if l.as_str().unicode_len() > 0 {
                l
            } else {
                cat("Fan ", num.as_str())
            }
        },
        None => cat("Fan ", num.as_str()),
    }
}

pub open spec fn channel_label(r: RootView, c: ChipView, n: u32, labelled: Seq<u32>) -> Seq<char> {
    if labelled.contains(n) {
        fan_label_text(r, c.dir, n) + " ("@ + c.name + ")"@
    } else {
        "Fan "@ + decimal(n as nat) + " ("@ + c.name + ")"@
    }
}

pub open spec fn pwm_path(dir: Seq<char>, n: u32) -> Seq<char> {
    dir + "/pwm"@ + decimal(n as nat)
}

/// The knobs of one channel: its duty, where there is one, and its mode.
pub open spec fn channel_knobs(r: RootView, c: ChipView, n: u32, duties: Seq<u32>, labelled: Seq<u32>) -> Seq<
    KnobView,
> {
    let label = channel_label(r, c, n, labelled);
    let duty_attr = pwm_path(c.dir, n);
    let duty = if duties.contains(n) {
        read_u32(r, duty_attr)
    } else {
        None
    };
    let duty_knobs = match duty {
        Some(raw) => seq![
            KnobView {
                id: "hwmon/"@ + c.key + "/pwm"@ + decimal(n as nat),
                label: label,
                role: Role::FanDuty,
                domain: DomainView::Percent { raw_max: PWM_RAW_MAX },
                value: SettingView::Percent {
                    raw: if raw <= PWM_RAW_MAX {
                        raw
                    } else {
                        PWM_RAW_MAX
                    },
                },
                writable: is_writable(r, duty_attr),
                provider: "hwmon"@,
                origin: join_path(r.base, trim_start_char(duty_attr, '/')),
            },
        ],
        None => seq![],
    };
    let enable_attr = duty_attr + "_enable"@;
    let enable_knobs = match read_u32(r, enable_attr) {
        Some(e) => seq![
            KnobView {
                id: "hwmon/"@ + c.key + "/pwm"@ + decimal(n as nat) + "_enable"@,
                label: if duty.is_some() {
                    label + " control"@
                } else {
                    label
                },
                role: Role::FanControlMode,
                domain: DomainView::Modes { options: enable_modes_of(e, duty.is_some()) },
                value: SettingView::Mode { name: enable_label_text(e) },
                writable: is_writable(r, enable_attr),
                provider: "hwmon"@,
                origin: join_path(r.base, trim_start_char(enable_attr, '/')),
            },
        ],
        None => seq![],
    };
    duty_knobs + enable_knobs
}

pub open spec fn channel_knobs_all(r: RootView, c: ChipView, chans: Seq<u32>, duties: Seq<u32>, labelled: Seq<
    u32,
>) -> Seq<KnobView>
    decreases chans.len(),
{
    if chans.len() == 0 {
        seq![]
    } else {
        channel_knobs_all(r, c, chans.drop_last(), duties, labelled) + channel_knobs(
            r,
            c,
            chans.last(),
            duties,
            labelled,
        )
    }
}

/// Every channel of a chip: the union of those with a duty and those with an
/// enable, since a driver may publish either without the other.
pub open spec fn chip_channels(r: RootView, dir: Seq<char>) -> Seq<u32> {
    dedup_u32(
        sort_u32(
            channels_in(r, dir, "pwm"@, ""@) + channels_in(r, dir, "pwm"@, "_enable"@),
        ),
    )
}

pub open spec fn chip_knobs(r: RootView, c: ChipView) -> Seq<KnobView> {
    channel_knobs_all(
        r,
        c,
        chip_channels(r, c.dir),
        channels_in(r, c.dir, "pwm"@, ""@),
        channels_in(r, c.dir, "fan"@, "_input"@),
    )
}

pub open spec fn chips_knobs(r: RootView, cs: Seq<ChipView>) -> Seq<KnobView>
    decreases cs.len(),
{
    if cs.len() == 0 {
        seq![]
    } else {
        chips_knobs(r, cs.drop_last()) + chip_knobs(r, cs.last())
    }
}

/// Every fan duty and fan mode hwmon offers.
pub open spec fn hwmon_knobs(r: RootView) -> Seq<KnobView> {
    chips_knobs(r, chips_of(r))
}

fn contains_u32(v: &Vec<u32>, x: u32) -> (b: bool)
    ensures
        b == v@.contains(x),
{
    let mut k: usize = 0;
    while k < v.len()
        invariant
            k <= v@.len(),
            forall|j: int| 0 <= j < k ==> v@[j] != x,
        decreases v@.len() - k,
    {
        if v[k] == x {
            assert(v@[k as int] == x);
            return true;
        }
        k = k + 1;
    }
    false
}

fn pwm_path_exec(dir: &str, n: u32) -> (r: String)
    ensures
        r@ == pwm_path(dir@, n),
{
    let num = u64_string(n as u64);
    cat3(dir, "/pwm", num.as_str())
}

fn channel_knobs_exec(
    root: &Root,
    chip: &Chip,
    n: u32,
    duties: &Vec<u32>,
    labelled: &Vec<u32>,
) -> (r: Vec<Knob>)
    ensures
        knob_views(r@) == channel_knobs(root@, chip@, n, duties@, labelled@),
{
    let num = u64_string(n as u64);
    let label = if contains_u32(labelled, n) {
        let f = fan_label(root, chip.dir.as_str(), n);
        let a = cat3(f.as_str(), " (", chip.name.as_str());
        cat(a.as_str(), ")")
    } else {
        let a = cat3("Fan ", num.as_str(), " (");
        let a = cat3(a.as_str(), chip.name.as_str(), ")");
        a
    };
    let duty_attr = pwm_path_exec(chip.dir.as_str(), n);
    let duty = if contains_u32(duties, n) {
        root.read_u32(duty_attr.as_str())
    } else {
        None
    };
    let mut out: Vec<Knob> = Vec::new();
    let id_base = cat3("hwmon/", chip.key.as_str(), "/pwm");
    if let Some(raw) = duty {
        out.push(
            Knob {
                id: cat(id_base.as_str(), num.as_str()),
                label: label.clone(),
                role: Role::FanDuty,
                domain: Domain::Percent { raw_max: PWM_RAW_MAX },
                value: Setting::Percent {
                    raw: if raw <= PWM_RAW_MAX {
                        raw
                    } else {
                        PWM_RAW_MAX
                    },
                },
                writable: root.writable(duty_attr.as_str()),
                provider: String::from_str("hwmon"),
                origin: root.path(duty_attr.as_str()),
            },
        );
    }
    let enable_attr = cat(duty_attr.as_str(), "_enable");
    if let Some(e) = root.read_u32(enable_attr.as_str()) {
        out.push(
            Knob {
                id: cat3(id_base.as_str(), num.as_str(), "_enable"),
                label: if duty.is_some() {
                    cat(label.as_str(), " control")
                } else {
                    label
                },
                role: Role::FanControlMode,
                domain: Domain::Modes { options: enable_modes(e, duty.is_some()) },
                value: Setting::Mode { name: enable_label(e) },
                writable: root.writable(enable_attr.as_str()),
                provider: String::from_str("hwmon"),
                origin: root.path(enable_attr.as_str()),
            },
        );
    }
    assert(knob_views(out@) =~= channel_knobs(root@, chip@, n, duties@, labelled@));
    out
}

fn chip_knobs_exec(root: &Root, chip: &Chip) -> (r: Vec<Knob>)
    ensures
        knob_views(r@) == chip_knobs(root@, chip@),
{
    let duties = pwm_channels(root, chip.dir.as_str());
    let enables = enable_channels(root, chip.dir.as_str());
    let mut both = duties.clone();
    let mut more = enables.clone();
    both.append(&mut more);
    let sorted = sort_u32_exec(&both);
    let channels = dedup_u32_exec(&sorted);
    let labelled = input_channels(root, chip.dir.as_str(), "fan");
    assert(channels@ == chip_channels(root@, chip@.dir));
    let mut out: Vec<Knob> = Vec::new();
    let mut i: usize = 0;
    while i < channels.len()
        invariant
            i <= channels@.len(),
            duties@ == channels_in(root@, chip@.dir, "pwm"@, ""@),
            labelled@ == channels_in(root@, chip@.dir, "fan"@, "_input"@),
            channels@ == chip_channels(root@, chip@.dir),
            knob_views(out@) == channel_knobs_all(
                root@,
                chip@,
                channels@.take(i as int),
                duties@,
                labelled@,
            ),
        decreases channels@.len() - i,
    {
        let mut more = channel_knobs_exec(root, chip, channels[i], &duties, &labelled);
        let ghost before = out@;
        let ghost added = more@;
        out.append(&mut more);
        proof {
            assert(channels@.take(i + 1).drop_last() =~= channels@.take(i as int));
            assert(knob_views(out@) =~= knob_views(before) + knob_views(added));
        }
        i = i + 1;
    }
    assert(channels@.take(channels@.len() as int) =~= channels@);
    out
}

impl Hwmon {
    pub fn id(&self) -> (r: &'static str)
        ensures
            r@ == "hwmon"@,
    {
        "hwmon"
    }

    /// Every fan duty and fan mode, chip by chip, channel by channel.
    pub fn knobs(&self, root: &Root) -> (r: Vec<Knob>)
        ensures
            knob_views(r@) == hwmon_knobs(root@),
    {
        let cs = chips(root);
        let mut out: Vec<Knob> = Vec::new();
        let mut i: usize = 0;
        while i < cs.len()
            invariant
                i <= cs@.len(),
                chip_views(cs@) == chips_of(root@),
                knob_views(out@) == chips_knobs(root@, chip_views(cs@).take(i as int)),
            decreases cs@.len() - i,
        {
            let mut more = chip_knobs_exec(root, &cs[i]);
            let ghost before = out@;
            let ghost added = more@;
            out.append(&mut more);
            proof {
                let t = chip_views(cs@).take(i + 1);
                assert(t.drop_last() =~= chip_views(cs@).take(i as int));
                assert(t.last() == cs@[i as int]@);
                assert(knob_views(out@) =~= knob_views(before) + knob_views(added));
            }
            i = i + 1;
        }
        assert(chip_views(cs@).take(cs@.len() as int) =~= chip_views(cs@));
        out
    }
}

} // verus!

verus! {

// ---- readings -------------------------------------------------------------------

pub open spec fn input_path(dir: Seq<char>, family: Seq<char>, n: u32, what: Seq<char>) -> Seq<char> {
    dir + "/"@ + family + decimal(n as nat) + what
}

pub open spec fn fan_readings(r: RootView, c: ChipView, ns: Seq<u32>) -> Seq<ReadingView>
    decreases ns.len(),
{
    if ns.len() == 0 {
        seq![]
    } else {
        let rest = fan_readings(r, c, ns.drop_last());
        let n = ns.last();
        let attr = input_path(c.dir, "fan"@, n, "_input"@);
        match read_i64(r, attr) {
            Some(rpm) => rest.push(
                ReadingView {
                    id: "hwmon/"@ + c.key + "/fan"@ + decimal(n as nat),
                    label: fan_label_text(r, c.dir, n) + " ("@ + c.name + ")"@,
                    unit: Unit::Rpm,
                    value: if rpm < 0 {
                        0
                    } else {
                        rpm
                    },
                    critical: None,
                    origin: join_path(r.base, trim_start_char(attr, '/')),
                },
            ),
            None => rest,
        }
    }
}

/// `tempN_crit`, or `tempN_max` where there is no `_crit`, if above zero.
pub open spec fn temp_critical(r: RootView, dir: Seq<char>, n: u32) -> Option<i64> {
    let limit = match read_i64(r, input_path(dir, "temp"@, n, "_crit"@)) {
        Some(m) => Some(m),
        None => read_i64(r, input_path(dir, "temp"@, n, "_max"@)),
    };
    match limit {
        Some(m) => if m > 0 {
            Some(m)
        } else {
            None
        },
        None => None,
    }
}

pub open spec fn temp_label(r: RootView, c: ChipView, n: u32) -> Seq<char> {
    match read_text(r, input_path(c.dir, "temp"@, n, "_label"@)) {
        Some(l) => if l.len() > 0 {
            l + " ("@ + c.name + ")"@
        } else {
            "Temperature "@ + decimal(n as nat) + " ("@ + c.name + ")"@
        },
        None => "Temperature "@ + decimal(n as nat) + " ("@ + c.name + ")"@,
    }
}

pub open spec fn temp_readings(r: RootView, c: ChipView, ns: Seq<u32>) -> Seq<ReadingView>
    decreases ns.len(),
{
    if ns.len() == 0 {
        seq![]
    } else {
        let rest = temp_readings(r, c, ns.drop_last());
        let n = ns.last();
        let attr = input_path(c.dir, "temp"@, n, "_input"@);
        match read_i64(r, attr) {
            Some(milli) => rest.push(
                ReadingView {
                    id: "hwmon/"@ + c.key + "/temp"@ + decimal(n as nat),
                    label: temp_label(r, c, n),
                    unit: Unit::Celsius,
                    value: milli,
                    critical: temp_critical(r, c.dir, n),
                    origin: join_path(r.base, trim_start_char(attr, '/')),
                },
            ),
            None => rest,
        }
    }
}

pub open spec fn chip_readings(r: RootView, c: ChipView) -> Seq<ReadingView> {
    fan_readings(r, c, channels_in(r, c.dir, "fan"@, "_input"@)) + temp_readings(
        r,
        c,
        channels_in(r, c.dir, "temp"@, "_input"@),
    )
}

pub open spec fn chips_readings(r: RootView, cs: Seq<ChipView>) -> Seq<ReadingView>
    decreases cs.len(),
{
    if cs.len() == 0 {
        seq![]
    } else {
        chips_readings(r, cs.drop_last()) + chip_readings(r, cs.last())
    }
}

/// Every fan speed and temperature hwmon reports.
pub open spec fn hwmon_readings(r: RootView) -> Seq<ReadingView> {
    chips_readings(r, chips_of(r))
}

pub open spec fn reading_views(v: Seq<Reading>) -> Seq<ReadingView> {
    Seq::new(v.len(), |i: int| v[i]@)
}

fn input_path_exec(dir: &str, family: &str, n: u32, what: &str) -> (r: String)
    ensures
        r@ == input_path(dir@, family@, n, what@),
{
    let num = u64_string(n as u64);
    let a = cat3(dir, "/", family);
    cat3(a.as_str(), num.as_str(), what)
}

fn chip_readings_exec(root: &Root, chip: &Chip) -> (r: Vec<Reading>)
    ensures
        reading_views(r@) == chip_readings(root@, chip@),
{
    let dir = chip.dir.as_str();
    let mut out: Vec<Reading> = Vec::new();
    let fans = input_channels(root, dir, "fan");
    let mut i: usize = 0;
    while i < fans.len()
        invariant
            i <= fans@.len(),
            dir@ == chip@.dir,
            fans@ == channels_in(root@, chip@.dir, "fan"@, "_input"@),
            reading_views(out@) == fan_readings(root@, chip@, fans@.take(i as int)),
        decreases fans@.len() - i,
    {
        let n = fans[i];
        proof {
            assert(fans@.take(i + 1).drop_last() =~= fans@.take(i as int));
        }
        let attr = input_path_exec(dir, "fan", n, "_input");
        if let Some(rpm) = root.read_i64(attr.as_str()) {
            let num = u64_string(n as u64);
            let f = fan_label(root, dir, n);
            let label = cat3(f.as_str(), " (", chip.name.as_str());
            let ghost before = out@;
            out.push(
                Reading {
                    id: cat3("hwmon/", chip.key.as_str(), "/fan").concat(num.as_str()),
                    label: cat(label.as_str(), ")"),
                    unit: Unit::Rpm,
                    value: if rpm < 0 {
                        0
                    } else {
                        rpm
                    },
                    critical: None,
                    origin: root.path(attr.as_str()),
                },
            );
            assert(reading_views(out@) =~= reading_views(before).push(out@.last()@));
        }
        i = i + 1;
    }
    assert(fans@.take(fans@.len() as int) =~= fans@);
    let ghost fan_part = reading_views(out@);
    let temps = input_channels(root, dir, "temp");
    let mut t: Vec<Reading> = Vec::new();
    let mut i: usize = 0;
    while i < temps.len()
        invariant
            i <= temps@.len(),
            dir@ == chip@.dir,
            temps@ == channels_in(root@, chip@.dir, "temp"@, "_input"@),
            reading_views(t@) == temp_readings(root@, chip@, temps@.take(i as int)),
        decreases temps@.len() - i,
    {
        let n = temps[i];
        proof {
            assert(temps@.take(i + 1).drop_last() =~= temps@.take(i as int));
        }
        let attr = input_path_exec(dir, "temp", n, "_input");
        if let Some(milli) = root.read_i64(attr.as_str()) {
            let num = u64_string(n as u64);
            let crit_attr = input_path_exec(dir, "temp", n, "_crit");
            let max_attr = input_path_exec(dir, "temp", n, "_max");
            let limit = match root.read_i64(crit_attr.as_str()) {
                Some(m) => Some(m),
                None => root.read_i64(max_attr.as_str()),
            };
            let critical = match limit {
                Some(m) => if m > 0 {
                    Some(m)
                } else {
                    None
                },
                None => None,
            };
            let label_attr = input_path_exec(dir, "temp", n, "_label");
            let fallback = {
                let a = cat3("Temperature ", num.as_str(), " (");
                cat3(a.as_str(), chip.name.as_str(), ")")
            };
            let label = match root.read(label_attr.as_str()) {
                Some(l) => if l.as_str().unicode_len() > 0 {
                    cat3(l.as_str(), " (", chip.name.as_str()).concat(")")
                } else {
                    fallback
                },
                None => fallback,
            };
            let ghost before = t@;
            t.push(
                Reading {
                    id: cat3("hwmon/", chip.key.as_str(), "/temp").concat(num.as_str()),
                    label,
                    unit: Unit::Celsius,
                    value: milli,
                    critical,
                    origin: root.path(attr.as_str()),
                },
            );
            assert(reading_views(t@) =~= reading_views(before).push(t@.last()@));
        }
        i = i + 1;
    }
    assert(temps@.take(temps@.len() as int) =~= temps@);
    let ghost fan_all = out@;
    let ghost temp_all = t@;
    out.append(&mut t);
    assert(reading_views(out@) =~= reading_views(fan_all) + reading_views(temp_all));
    out
}

impl Hwmon {
    /// Every fan speed and temperature, chip by chip.
    pub fn readings(&self, root: &Root) -> (r: Vec<Reading>)
        ensures
            reading_views(r@) == hwmon_readings(root@),
    {
        let cs = chips(root);
        let mut out: Vec<Reading> = Vec::new();
        let mut i: usize = 0;
        while i < cs.len()
            invariant
                i <= cs@.len(),
                chip_views(cs@) == chips_of(root@),
                reading_views(out@) == chips_readings(root@, chip_views(cs@).take(i as int)),
            decreases cs@.len() - i,
        {
            let mut more = chip_readings_exec(root, &cs[i]);
            let ghost before = out@;
            let ghost added = more@;
            out.append(&mut more);
            proof {
                let t = chip_views(cs@).take(i + 1);
                assert(t.drop_last() =~= chip_views(cs@).take(i as int));
                assert(t.last() == cs@[i as int]@);
                assert(reading_views(out@) =~= reading_views(before) + reading_views(added));
            }
            i = i + 1;
        }
        assert(chip_views(cs@).take(cs@.len() as int) =~= chip_views(cs@));
        out
    }
}

} // verus!

verus! {

// ---- setting ------------------------------------------------------------------

pub open spec fn is_chip_at(cs: Seq<ChipView>, key: Seq<char>, i: int) -> bool {
    0 <= i < cs.len() && cs[i].key == key && forall|j: int| 0 <= j < i ==> cs[j].key != key
}

/// The first chip with this key.
pub open spec fn find_chip(cs: Seq<ChipView>, key: Seq<char>) -> Option<int> {
    if exists|i: int| is_chip_at(cs, key, i) {
        Some(choose|i: int| is_chip_at(cs, key, i))
    } else {
        None
    }
}

/// Writing a duty while firmware still owns the channel is accepted and
/// ignored, so a duty is preceded by taking manual control where needed.
pub open spec fn take_manual(r: RootView, path: Seq<char>, attr: Seq<char>) -> (
    Result<(), Seq<char>>,
    RootView,
) {
    let enable = path + "_enable"@;
    if node_exists(r, enable) && read_u32(r, enable) != Some(1u32) {
        match write_verified_result(r, enable, "1"@) {
            (Err(e), after) => (Err("could not take manual control of "@ + attr + ": "@ + e), after),
            (Ok(()), after) => (Ok(()), after),
        }
    } else {
        (Ok(()), r)
    }
}

/// What setting an hwmon knob does: its verdict, and the root after.
pub open spec fn hwmon_set_result(r: RootView, id: Seq<char>, value: SettingView) -> (
    Result<(), Seq<char>>,
    RootView,
) {
    match split_id_of(id) {
        Err(e) => (Err(e), r),
        Ok((key, attr)) => match find_chip(chips_of(r), key) {
            None => (Err(key + " is no longer present"@), r),
            Some(i) => {
                let path = chips_of(r)[i].dir + "/"@ + attr;
                match value {
                    SettingView::Percent { raw } => {
                        let (taken, r1) = take_manual(r, path, attr);
                        match taken {
                            Err(e) => (Err(e), r1),
                            Ok(()) => write_verified_result(
                                r1,
                                path,
                                decimal(
                                    (if raw <= PWM_RAW_MAX {
                                        raw
                                    } else {
                                        PWM_RAW_MAX
                                    }) as nat,
                                ),
                            ),
                        }
                    },
                    SettingView::Mode { name } => match enable_value_of(name) {
                        None => (Err(debug_str(name) + " is not a fan control mode"@), r),
                        Some(v) => write_verified_result(r, path, decimal(v as nat)),
                    },
                    _ => (Err("hwmon cannot take "@ + setting_text(value)), r),
                }
            },
        },
    }
}

/// `"1"` is how a number is written and read back.
proof fn lemma_one_text()
    ensures
        "1"@ == decimal(1),
        crate::text::trim("1"@) == "1"@,
        parse_u32("1"@) == Some(1u32),
{
    reveal_strlit("1");
    assert("1"@ =~= decimal(1));
    lemma_trim_decimal(1);
}

/// Setting a fan's duty to `raw` puts exactly `raw` in the duty attribute:
/// the channel is first taken into manual where it has an enable attribute,
/// then the duty reads back as the value asked for. On a live machine where
/// the duty is writable, and the enable is writable or already manual, the
/// set succeeds.
pub proof fn lemma_duty_set_reads_back(r: RootView, id: Seq<char>, raw: u32, i: int)
    requires
        raw <= PWM_RAW_MAX,
        split_id_of(id) is Ok,
        find_chip(chips_of(r), split_id_of(id)->Ok_0.0) == Some(i),
    ensures
        ({
            let path = chips_of(r)[i].dir + "/"@ + split_id_of(id)->Ok_0.1;
            let enable = path + "_enable"@;
            let (verdict, after) = hwmon_set_result(r, id, SettingView::Percent { raw });
            &&& verdict is Ok ==> read_u32(after, path) == Some(raw)
            &&& verdict is Ok && node_exists(r, enable) ==> read_u32(after, enable) == Some(1u32)
            &&& is_writable_file(r, path) && (!node_exists(r, enable) || read_u32(r, enable) == Some(
                1u32,
            ) || is_writable_file(r, enable)) ==> verdict is Ok
        }),
{
    let attr = split_id_of(id)->Ok_0.1;
    let path = chips_of(r)[i].dir + "/"@ + attr;
    let enable = path + "_enable"@;
    reveal_strlit("_enable");
    assert(enable.len() != path.len());
    assert(enable != path);
    lemma_trim_decimal(raw as nat);
    lemma_one_text();
    let d = decimal(raw as nat);
    let (taken, r1) = take_manual(r, path, attr);
    if node_exists(r, enable) && read_u32(r, enable) != Some(1u32) {
        if write_result(r, enable, "1"@) is Ok {
            lemma_read_after_write(r, enable, "1"@, path);
            lemma_write_keeps_shape(r, enable, "1"@, path);
            assert(r1 == write_result(r, enable, "1"@)->Ok_0);
            assert(read_text(r1, enable) == Some("1"@));
        }
        if is_writable_file(r, enable) {
            lemma_write_verified_takes(r, enable, "1"@);
        }
    }
    if taken is Ok {
        assert(node_exists(r, enable) ==> read_u32(r1, enable) == Some(1u32));
        if write_result(r1, path, d) is Ok {
            lemma_read_after_write(r1, path, d, enable);
            lemma_read_after_write(r1, path, d, path);
        }
        if is_writable_file(r1, path) {
            lemma_write_verified_takes(r1, path, d);
        }
    }
}

/// Setting a fan-control mode writes the value that mode names: the
/// attribute then reads back as the number whose label was chosen, a
/// driver's own mode included; where the attribute is writable on a live
/// machine, the set succeeds.
pub proof fn lemma_mode_set_reads_back(r: RootView, id: Seq<char>, v: u32, i: int)
    requires
        split_id_of(id) is Ok,
        find_chip(chips_of(r), split_id_of(id)->Ok_0.0) == Some(i),
    ensures
        ({
            let path = chips_of(r)[i].dir + "/"@ + split_id_of(id)->Ok_0.1;
            let (verdict, after) = hwmon_set_result(
                r,
                id,
                SettingView::Mode { name: enable_label_text(v) },
            );
            &&& verdict is Ok ==> read_u32(after, path) == Some(v)
            &&& is_writable_file(r, path) ==> verdict is Ok
        }),
{
    let path = chips_of(r)[i].dir + "/"@ + split_id_of(id)->Ok_0.1;
    lemma_enable_round_trip(v);
    lemma_trim_decimal(v as nat);
    let d = decimal(v as nat);
    if write_result(r, path, d) is Ok {
        lemma_read_after_write(r, path, d, path);
    }
    if is_writable_file(r, path) {
        lemma_write_verified_takes(r, path, d);
    }
}

fn find_chip_exec(cs: &Vec<Chip>, key: &str) -> (r: Option<usize>)
    ensures
        match r {
            Some(i) => i < cs@.len() && find_chip(chip_views(cs@), key@) == Some(i as int),
            None => find_chip(chip_views(cs@), key@).is_none(),
        },
{
    let k = chars_of(key);
    let mut i: usize = 0;
    while i < cs.len()
        invariant
            i <= cs@.len(),
            k@ == key@,
            forall|j: int| 0 <= j < i ==> chip_views(cs@)[j].key != key@,
        decreases cs@.len() - i,
    {
        if chars_eq(&chars_of(cs[i].key.as_str()), &k) {
            proof {
                let v = chip_views(cs@);
                assert(is_chip_at(v, key@, i as int));
                let w = choose|w: int| is_chip_at(v, key@, w);
                assert(w == i) by {
                    if w < i {
                    } else if w > i {
                    }
                }
            }
            return Some(i);
        }
        i = i + 1;
    }
    None
}

impl Hwmon {
    /// Apply a duty or a mode to one hwmon channel.
    pub fn set(&self, root: &mut Root, knob_id: &str, value: &Setting) -> (r: Result<(), String>)
        ensures
            ({
                let (verdict, after) = hwmon_set_result(old(root)@, knob_id@, value@);
                &&& final(root)@ == after
                &&& match r {
                    Ok(()) => verdict == Ok::<(), Seq<char>>(()),
                    Err(e) => verdict == Err::<(), Seq<char>>(e@),
                }
            }),
    {
        let (key, attr) = match split_id(knob_id) {
            Ok(p) => p,
            Err(e) => return Err(e),
        };
        let cs = chips(root);
        let i = match find_chip_exec(&cs, key.as_str()) {
            Some(i) => i,
            None => return Err(cat(key.as_str(), " is no longer present")),
        };
        let path = cat3(cs[i].dir.as_str(), "/", attr.as_str());
        match value {
            Setting::Percent { raw } => {
                let enable = cat(path.as_str(), "_enable");
                if root.path_exists(enable.as_str()) && root.read_u32(enable.as_str()) != Some(1u32) {
                    match root.write_verified(enable.as_str(), "1") {
                        Ok(()) => {},
                        Err(e) => {
                            let m = cat3("could not take manual control of ", attr.as_str(), ": ");
                            return Err(cat(m.as_str(), e.as_str()));
                        },
                    }
                }
                let v = if *raw <= PWM_RAW_MAX {
                    *raw
                } else {
                    PWM_RAW_MAX
                };
                let text = u64_string(v as u64);
                root.write_verified(path.as_str(), text.as_str())
            },
            Setting::Mode { name } => {
                match enable_value(name.as_str()) {
                    None => {
                        let d = debug_string(name.as_str());
                        Err(cat(d.as_str(), " is not a fan control mode"))
                    },
                    Some(v) => {
                        let text = u64_string(v as u64);
                        root.write_verified(path.as_str(), text.as_str())
                    },
                }
            },
            _ => {
                let d = value.describe();
                Err(cat("hwmon cannot take ", d.as_str()))
            },
        }
    }
}

} // verus!
