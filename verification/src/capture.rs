//! What a capture of a machine copies, and where each file lands.
//!
//! Somebody with a laptop this gets wrong runs the capture and sends the
//! directory, and it becomes a fixture. What is copied is deliberately
//! narrow, and listed here to be read before anyone sends anything: LED and
//! hwmon attributes, thermal zones, the platform profile, DMI identification,
//! the module list. No serial numbers, no UUIDs, no user data.

use vstd::prelude::*;

use crate::backlight::leds::knob_views;
use crate::fan::hwmon::reading_views;
use crate::model::{format_text, setting_text, Knob, KnobView, Reading, ReadingView};
use crate::sysfs::{join_path, trim_start_char};
use crate::text::{cat, cat3, chars_eq, chars_of, string_of};

verus! {

/// The trees a capture copies.
pub open spec fn captured_trees() -> Seq<Seq<char>> {
    seq![
        "/sys/class/leds"@,
        "/sys/class/hwmon"@,
        "/sys/class/thermal"@,
        "/sys/class/platform-profile"@,
        "/sys/firmware/acpi"@,
    ]
}

/// Directory trees copied wholesale, one level of symlinks followed.
pub fn trees() -> (r: Vec<&'static str>)
    ensures
        r@.map_values(|p: &str| p@) == captured_trees(),
{
    let r = vec![
        "/sys/class/leds",
        "/sys/class/hwmon",
        "/sys/class/thermal",
        "/sys/class/platform-profile",
        "/sys/firmware/acpi",
    ];
    assert(r@.map_values(|p: &str| p@) =~= captured_trees());
    r
}

/// The single files a capture copies.
pub open spec fn captured_files() -> Seq<Seq<char>> {
    seq![
        "/sys/class/dmi/id/sys_vendor"@,
        "/sys/class/dmi/id/product_name"@,
        "/sys/class/dmi/id/board_name"@,
        "/sys/class/dmi/id/bios_version"@,
        "/proc/modules"@,
        "/proc/sys/kernel/osrelease"@,
        "/proc/acpi/ibm/fan"@,
    ]
}

/// Individual files.
pub fn files() -> (r: Vec<&'static str>)
    ensures
        r@.map_values(|p: &str| p@) == captured_files(),
{
    let r = vec![
        "/sys/class/dmi/id/sys_vendor",
        "/sys/class/dmi/id/product_name",
        "/sys/class/dmi/id/board_name",
        "/sys/class/dmi/id/bios_version",
        "/proc/modules",
        "/proc/sys/kernel/osrelease",
        "/proc/acpi/ibm/fan",
    ];
    assert(r@.map_values(|p: &str| p@) =~= captured_files());
    r
}

/// The platform-device attributes a capture copies, by name.
pub open spec fn captured_platform_attrs() -> Seq<Seq<char>> {
    seq![
        "throttle_thermal_policy"@,
        "fan_boost_mode"@,
        "thermal_profile"@,
        "platform_profile"@,
        "platform_profile_choices"@,
    ]
}

/// Attributes under `/sys/devices/platform/*`, by name: copying that whole
/// tree would pull in half the machine.
pub fn platform_attrs() -> (r: Vec<&'static str>)
    ensures
        r@.map_values(|p: &str| p@) == captured_platform_attrs(),
{
    let r = vec![
        "throttle_thermal_policy",
        "fan_boost_mode",
        "thermal_profile",
        "platform_profile",
        "platform_profile_choices",
    ];
    assert(r@.map_values(|p: &str| p@) =~= captured_platform_attrs());
    r
}

/// The deepest a tree is walked: `/sys/class/hwmon/hwmon0/device/...` walks
/// into the whole PCI tree and out the other side.
pub const MAX_DEPTH: usize = 3;

pub open spec fn skipped(name: Seq<char>) -> bool {
    name == "uevent"@ || name == "power"@ || name == "subsystem"@ || name == "driver"@ || name
        == "of_node"@
}

/// Entries that are write-only, enormous, or would block on read. `power/`
/// is runtime-PM state that can block on a suspended device.
pub fn skip(name: &str) -> (b: bool)
    ensures
        b == skipped(name@),
{
    let n = chars_of(name);
    chars_eq(&n, &chars_of("uevent")) || chars_eq(&n, &chars_of("power")) || chars_eq(
        &n,
        &chars_of("subsystem"),
    ) || chars_eq(&n, &chars_of("driver")) || chars_eq(&n, &chars_of("of_node"))
}

/// Where a file of the machine lands under the capture directory.
pub open spec fn destination_of(source: Seq<char>, dest: Seq<char>) -> Seq<char> {
    join_path(dest, trim_start_char(source, '/'))
}

pub fn destination(source: &str, dest: &str) -> (r: String)
    ensures
        r@ == destination_of(source@, dest@),
{
    let s = chars_of(source);
    let mut k: usize = 0;
    assert(s@.skip(0) =~= s@);
    while k < s.len() && s[k] == '/'
        invariant
            k <= s@.len(),
            trim_start_char(source@, '/') == trim_start_char(s@.skip(k as int), '/'),
            s@ == source@,
        decreases s@.len() - k,
    {
        assert(s@.skip(k as int).drop_first() =~= s@.skip(k + 1));
        k = k + 1;
    }
    assert(trim_start_char(s@.skip(k as int), '/') == s@.skip(k as int));
    let rel = crate::text::slice_to_vec(&s, k, s.len());
    assert(rel@ =~= s@.skip(k as int));
    proof {
        reveal_strlit("/");
    }
    let rel = string_of(&rel);
    let d = chars_of(dest);
    if d.len() == 0 {
        rel
    } else if d[d.len() - 1] == '/' {
        cat(dest, rel.as_str())
    } else {
        cat3(dest, "/", rel.as_str())
    }
}

/// Where a distribution may keep the kernel configuration, tried in turn.
pub fn config_candidates(release: &str) -> (r: Vec<String>)
    ensures
        r@.len() == 2,
        r@[0]@ == "/boot/config-"@ + release@,
        r@[1]@ == "/lib/modules/"@ + release@ + "/config"@,
{
    vec![cat("/boot/config-", release), cat3("/lib/modules/", release, "/config")]
}

pub open spec fn summary_lines(ks: Seq<KnobView>, rs: Seq<ReadingView>) -> Seq<char>
    decreases ks.len() + rs.len(),
{
    if rs.len() > 0 {
        summary_lines(ks, rs.drop_last()) + "  "@ + rs.last().id + " = "@ + format_text(
            rs.last().unit,
            rs.last().value as int,
        ) + "\n"@
    } else if ks.len() > 0 {
        summary_lines(ks.drop_last(), rs) + "  "@ + ks.last().id + " = "@ + setting_text(
            ks.last().value,
        ) + "\n"@
    } else {
        seq![]
    }
}

/// What discovery found, a line per knob and per reading, for the README of
/// a capture.
pub open spec fn summary_text(ks: Seq<KnobView>, rs: Seq<ReadingView>) -> Seq<char> {
    if ks.len() == 0 && rs.len() == 0 {
        "  nothing\n"@
    } else {
        summary_lines(ks, rs)
    }
}

pub fn summary(knobs: &Vec<Knob>, readings: &Vec<Reading>) -> (r: String)
    ensures
        r@ == summary_text(knob_views(knobs@), reading_views(readings@)),
{
    let ghost ks = knob_views(knobs@);
    let ghost rs = reading_views(readings@);
    let mut out = String::new();
    let mut i: usize = 0;
    while i < knobs.len()
        invariant
            i <= knobs@.len(),
            ks == knob_views(knobs@),
            out@ == summary_lines(ks.take(i as int), Seq::<ReadingView>::empty()),
        decreases knobs@.len() - i,
    {
        proof {
            let t = ks.take(i + 1);
            assert(t.drop_last() =~= ks.take(i as int));
        }
        let v = knobs[i].value.describe();
        let line = cat3("  ", knobs[i].id.as_str(), " = ").concat(v.as_str()).concat("\n");
        out = out.concat(line.as_str());
        i = i + 1;
    }
    assert(ks.take(knobs@.len() as int) =~= ks);
    assert(rs.take(0) =~= Seq::<ReadingView>::empty());
    let mut j: usize = 0;
    while j < readings.len()
        invariant
            j <= readings@.len(),
            ks == knob_views(knobs@),
            rs == reading_views(readings@),
            out@ == summary_lines(ks, rs.take(j as int)),
        decreases readings@.len() - j,
    {
        proof {
            let t = rs.take(j + 1);
            assert(t.drop_last() =~= rs.take(j as int));
        }
        let f = readings[j].unit.format(readings[j].value);
        let line = cat3("  ", readings[j].id.as_str(), " = ").concat(f.as_str()).concat("\n");
        out = out.concat(line.as_str());
        j = j + 1;
    }
    assert(rs.take(readings@.len() as int) =~= rs);
    if knobs.len() == 0 && readings.len() == 0 {
        out = String::from_str("  nothing\n");
    }
    out
}

} // verus!
