//! ACPI cooling devices: `/sys/class/thermal/cooling_device*`.
//!
//! Where firmware exposes a fan as an ACPI object rather than through a
//! sensor chip, it appears here with `cur_state` and `max_state`. Most entries
//! in this class are not fans -- processor throttling, backlight dimming --
//! so the `type` string is checked rather than assumed.

use vstd::prelude::*;

use crate::backlight::leds::knob_views;
use crate::fan::hwmon::reading_views;
use crate::model::{
    Domain, DomainView, Knob, KnobView, Reading, ReadingView, Role, Setting, SettingView, Unit,
    setting_text,
};
use crate::sysfs::{
    is_writable, join_path, list_dir, pair_views, read_i64, read_text, read_u32, trim_start_char,
    write_verified_result, Root, RootView, is_writable_file, write_result, lemma_read_after_write,
    lemma_write_verified_takes,
};
use crate::text::{
    cat, cat3, chars_of, contains, contains_exec, decimal, starts_with, starts_with_exec,
    string_views, strip_prefix, strip_prefix_exec, to_lower, to_lower_exec, u64_string,
};

verus! {

pub const CLASS: &'static str = "/sys/class/thermal";

pub struct CoolingDevices;

pub open spec fn fan_kind(kind: Seq<char>) -> bool {
    contains(to_lower(kind), "fan"@)
}

/// ACPI fans call themselves `Fan`; Intel's DPTF driver registers `INT3404
/// Fan` and `TFN1 Fan`. Processor, LCD and the `*_thermal` throttles are not.
pub fn is_fan(kind: &str) -> (b: bool)
    ensures
        b == fan_kind(kind@),
{
    let k = to_lower_exec(&chars_of(kind));
    let fan = chars_of("fan");
    // `k == "fan"` is the common case of the containment test below.
    contains_exec(&k, &fan)
}

/// The cooling devices that are fans, as `(name, dir, type)`.
pub open spec fn fan_devices(r: RootView, entries: Seq<(Seq<char>, Seq<char>)>) -> Seq<
    (Seq<char>, Seq<char>, Seq<char>),
>
    decreases entries.len(),
{
    if entries.len() == 0 {
        seq![]
    } else {
        let rest = fan_devices(r, entries.drop_last());
        let (name, dir) = entries.last();
        if starts_with(name, "cooling_device"@) {
            match read_text(r, dir + "/type"@) {
                Some(kind) => if fan_kind(kind) {
                    rest.push((name, dir, kind))
                } else {
                    rest
                },
                None => rest,
            }
        } else {
            rest
        }
    }
}

pub open spec fn devices_of(r: RootView) -> Seq<(Seq<char>, Seq<char>, Seq<char>)> {
    fan_devices(r, list_dir(r, CLASS@))
}

pub open spec fn dev_views(v: Seq<(String, String, String)>) -> Seq<(Seq<char>, Seq<char>, Seq<char>)> {
    Seq::new(v.len(), |i: int| (v[i].0@, v[i].1@, v[i].2@))
}

/// The cooling devices whose `type` says they are fans.
pub fn devices(root: &Root) -> (r: Vec<(String, String, String)>)
    ensures
        dev_views(r@) == devices_of(root@),
{
    let entries = root.list(CLASS);
    let prefix = chars_of("cooling_device");
    let mut out: Vec<(String, String, String)> = Vec::new();
    let mut i: usize = 0;
    while i < entries.len()
        invariant
            i <= entries@.len(),
            prefix@ == "cooling_device"@,
            dev_views(out@) == fan_devices(root@, pair_views(entries@).take(i as int)),
        decreases entries@.len() - i,
    {
        proof {
            let t = pair_views(entries@).take(i + 1);
            assert(t.drop_last() =~= pair_views(entries@).take(i as int));
            assert(t.last() == (entries@[i as int].0@, entries@[i as int].1@));
        }
        if starts_with_exec(&chars_of(entries[i].0.as_str()), &prefix) {
            let type_attr = cat(entries[i].1.as_str(), "/type");
            if let Some(kind) = root.read(type_attr.as_str()) {
                if is_fan(kind.as_str()) {
                    let ghost before = out@;
                    out.push((entries[i].0.clone(), entries[i].1.clone(), kind));
                    assert(dev_views(out@) =~= dev_views(before).push(
                        (entries@[i as int].0@, entries@[i as int].1@, out@.last().2@),
                    ));
                }
            }
        }
        i = i + 1;
    }
    assert(pair_views(entries@).take(entries@.len() as int) =~= pair_views(entries@));
    out
}

pub open spec fn step_label(s: nat, max: nat) -> Seq<char> {
    if s == 0 {
        "Off"@
    } else if s == max {
        decimal(s) + " (maximum)"@
    } else {
        decimal(s)
    }
}

/// Ordered and small, typically 0..=9: steps, not a percentage pretending to
/// be continuous.
pub open spec fn step_labels(max: nat) -> Seq<Seq<char>> {
    Seq::new(max + 1, |s: int| step_label(s as nat, max))
}

pub open spec fn device_knob(r: RootView, name: Seq<char>, dir: Seq<char>, kind: Seq<char>) -> Seq<
    KnobView,
> {
    let cur = dir + "/cur_state"@;
    match (read_u32(r, dir + "/max_state"@), read_u32(r, cur)) {
        (Some(max), Some(current)) => if max == 0 {
            seq![]
        } else {
            seq![
                KnobView {
                    id: "cooling/"@ + name,
                    label: kind + " ("@ + name + ")"@,
                    role: Role::ThermalProfile,
                    domain: DomainView::Steps { labels: step_labels(max as nat) },
                    value: SettingView::Step {
                        index: (if current <= max {
                            current
                        } else {
                            max
                        }) as usize,
                    },
                    writable: is_writable(r, cur),
                    provider: "cooling-device"@,
                    origin: join_path(r.base, trim_start_char(cur, '/')),
                },
            ]
        },
        _ => seq![],
    }
}

pub open spec fn devices_knobs(r: RootView, ds: Seq<(Seq<char>, Seq<char>, Seq<char>)>) -> Seq<
    KnobView,
>
    decreases ds.len(),
{
    if ds.len() == 0 {
        seq![]
    } else {
        devices_knobs(r, ds.drop_last()) + device_knob(r, ds.last().0, ds.last().1, ds.last().2)
    }
}

pub open spec fn cooling_knobs(r: RootView) -> Seq<KnobView> {
    devices_knobs(r, devices_of(r))
}

pub open spec fn device_readings(r: RootView, ds: Seq<(Seq<char>, Seq<char>, Seq<char>)>) -> Seq<
    ReadingView,
>
    decreases ds.len(),
{
    if ds.len() == 0 {
        seq![]
    } else {
        let rest = device_readings(r, ds.drop_last());
        let (name, dir, _) = ds.last();
        let attr = dir + "/fan_speed_rpm"@;
        match read_i64(r, attr) {
            Some(rpm) => rest.push(
                ReadingView {
                    id: "cooling/"@ + name + "/rpm"@,
                    label: "Fan ("@ + name + ")"@,
                    unit: Unit::Rpm,
                    value: if rpm < 0 {
                        0
                    } else {
                        rpm
                    },
                    critical: None,
                    origin: join_path(r.base, trim_start_char(attr, '/')),
                },
            ),
            None => rest,
        }
    }
}

pub open spec fn cooling_readings(r: RootView) -> Seq<ReadingView> {
    device_readings(r, devices_of(r))
}

pub open spec fn cooling_set_result(r: RootView, id: Seq<char>, value: SettingView) -> (
    Result<(), Seq<char>>,
    RootView,
) {
    match strip_prefix(id, "cooling/"@) {
        None => (Err(id + " is not a cooling device"@), r),
        Some(name) => match value {
            SettingView::Step { index } => write_verified_result(
                r,
                CLASS@ + "/"@ + name + "/cur_state"@,
                decimal(index as nat),
            ),
            _ => (Err("a cooling device takes a step, not "@ + setting_text(value)), r),
        },
    }
}

/// Setting a cooling device to a step leaves `cur_state` reading that
/// step; where it is writable on a live machine, the set succeeds.
pub proof fn lemma_step_set_reads_back(r: RootView, id: Seq<char>, index: usize)
    requires
        strip_prefix(id, "cooling/"@) is Some,
    ensures
        ({
            let path = CLASS@ + "/"@ + strip_prefix(id, "cooling/"@)->Some_0 + "/cur_state"@;
            let (verdict, after) = cooling_set_result(r, id, SettingView::Step { index });
            &&& verdict is Ok ==> (read_text(after, path) matches Some(t) && crate::text::parse_nat(t)
                == Some(index as nat))
            &&& is_writable_file(r, path) ==> verdict is Ok
        }),
{
    let path = CLASS@ + "/"@ + strip_prefix(id, "cooling/"@)->Some_0 + "/cur_state"@;
    crate::text::lemma_trim_decimal(index as nat);
    crate::text::lemma_parse_decimal(index as nat);
    let d = decimal(index as nat);
    if write_result(r, path, d) is Ok {
        lemma_read_after_write(r, path, d, path);
    }
    if is_writable_file(r, path) {
        lemma_write_verified_takes(r, path, d);
    }
}

fn step_labels_exec(max: u32) -> (r: Vec<String>)
    ensures
        string_views(r@) == step_labels(max as nat),
{
    let mut out: Vec<String> = Vec::new();
    let mut s: u64 = 0;
    while s <= max as u64
        invariant
            s <= max as u64 + 1,
            string_views(out@) =~= Seq::new(s as nat, |k: int| step_label(k as nat, max as nat)),
        decreases max as u64 + 1 - s,
    {
        let label = if s == 0 {
            String::from_str("Off")
        } else if s == max as u64 {
            let n = u64_string(s);
            cat(n.as_str(), " (maximum)")
        } else {
            u64_string(s)
        };
        let ghost before = out@;
        out.push(label);
        assert(string_views(out@) =~= string_views(before).push(step_label(s as nat, max as nat)));
        s = s + 1;
    }
    out
}

fn device_knob_exec(root: &Root, name: &str, dir: &str, kind: &str) -> (r: Vec<Knob>)
    ensures
        knob_views(r@) == device_knob(root@, name@, dir@, kind@),
{
    let cur = cat(dir, "/cur_state");
    let max_attr = cat(dir, "/max_state");
    let mut out: Vec<Knob> = Vec::new();
    match (root.read_u32(max_attr.as_str()), root.read_u32(cur.as_str())) {
        (Some(max), Some(current)) => {
            if max != 0 {
                out.push(
                    Knob {
                        id: cat("cooling/", name),
                        label: cat3(kind, " (", name).concat(")"),
                        role: Role::ThermalProfile,
                        domain: Domain::Steps { labels: step_labels_exec(max) },
                        value: Setting::Step {
                            index: (if current <= max {
                                current
                            } else {
                                max
                            }) as usize,
                        },
                        writable: root.writable(cur.as_str()),
                        provider: String::from_str("cooling-device"),
                        origin: root.path(cur.as_str()),
                    },
                );
            }
        },
        _ => {},
    }
    assert(knob_views(out@) =~= device_knob(root@, name@, dir@, kind@));
    out
}

impl CoolingDevices {
    pub fn id(&self) -> (r: &'static str)
        ensures
            r@ == "cooling-device"@,
    {
        "cooling-device"
    }

    /// One knob of steps per ACPI fan.
    pub fn knobs(&self, root: &Root) -> (r: Vec<Knob>)
        ensures
            knob_views(r@) == cooling_knobs(root@),
    {
        let ds = devices(root);
        let mut out: Vec<Knob> = Vec::new();
        let mut i: usize = 0;
        while i < ds.len()
            invariant
                i <= ds@.len(),
                dev_views(ds@) == devices_of(root@),
                knob_views(out@) == devices_knobs(root@, dev_views(ds@).take(i as int)),
            decreases ds@.len() - i,
        {
            let mut more = device_knob_exec(
                root,
                ds[i].0.as_str(),
                ds[i].1.as_str(),
                ds[i].2.as_str(),
            );
            let ghost before = out@;
            let ghost added = more@;
            out.append(&mut more);
            proof {
                let t = dev_views(ds@).take(i + 1);
                assert(t.drop_last() =~= dev_views(ds@).take(i as int));
                assert(knob_views(out@) =~= knob_views(before) + knob_views(added));
            }
            i = i + 1;
        }
        assert(dev_views(ds@).take(ds@.len() as int) =~= dev_views(ds@));
        out
    }

    /// Some ACPI fans report their speed here although they are not hwmon
    /// devices.
    pub fn readings(&self, root: &Root) -> (r: Vec<Reading>)
        ensures
            reading_views(r@) == cooling_readings(root@),
    {
        let ds = devices(root);
        let mut out: Vec<Reading> = Vec::new();
        let mut i: usize = 0;
        while i < ds.len()
            invariant
                i <= ds@.len(),
                dev_views(ds@) == devices_of(root@),
                reading_views(out@) == device_readings(root@, dev_views(ds@).take(i as int)),
            decreases ds@.len() - i,
        {
            proof {
                let t = dev_views(ds@).take(i + 1);
                assert(t.drop_last() =~= dev_views(ds@).take(i as int));
            }
            let attr = cat(ds[i].1.as_str(), "/fan_speed_rpm");
            if let Some(rpm) = root.read_i64(attr.as_str()) {
                let ghost before = out@;
                out.push(
                    Reading {
                        id: cat3("cooling/", ds[i].0.as_str(), "/rpm"),
                        label: cat3("Fan (", ds[i].0.as_str(), ")"),
                        unit: Unit::Rpm,
                        value: if rpm < 0 {
                            0
                        } else {
                            rpm
                        },
                        critical: None,
                        origin: root.path(attr.as_str()),
                    },
                );
                assert(reading_views(out@) =~= reading_views(before).push(out@.last()@));
            }
            i = i + 1;
        }
        assert(dev_views(ds@).take(ds@.len() as int) =~= dev_views(ds@));
        out
    }

    /// Move an ACPI fan to a step.
    pub fn set(&self, root: &mut Root, knob_id: &str, value: &Setting) -> (r: Result<(), String>)
        ensures
            ({
                let (verdict, after) = cooling_set_result(old(root)@, knob_id@, value@);
                &&& final(root)@ == after
                &&& match r {
                    Ok(()) => verdict == Ok::<(), Seq<char>>(()),
                    Err(e) => verdict == Err::<(), Seq<char>>(e@),
                }
            }),
    {
        let id = chars_of(knob_id);
        let name = match strip_prefix_exec(&id, &chars_of("cooling/")) {
            Some(n) => crate::text::string_of(&n),
            None => return Err(cat(knob_id, " is not a cooling device")),
        };
        match value {
            Setting::Step { index } => {
                let path = cat3(CLASS, "/", name.as_str()).concat("/cur_state");
                let text = u64_string(*index as u64);
                root.write_verified(path.as_str(), text.as_str())
            },
            _ => {
                let d = value.describe();
                Err(cat("a cooling device takes a step, not ", d.as_str()))
            },
        }
    }
}

} // verus!
