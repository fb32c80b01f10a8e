//! The decisions of the half of the program that is allowed to write: which
//! channel a curve drives, what one control step writes, when the watchdog
//! hands the fans back, and what is read from the few system files the
//! daemon consults.
//!
//! The socket, the threads, the clock and the signals belong to the program
//! that runs the daemon; each of them hands this module plain values.

use vstd::prelude::*;

use crate::fan::hwmon::{chip_views, chips, chips_of, ChipView};
use crate::model::Role;
use crate::fan::hwmon::reading_views;
use crate::model::{Reading, ReadingView};
use crate::provider::{find_knob, hardware_knobs, hardware_readings, Hardware, HardwareView};
use crate::sysfs::{
    is_writable_file, lemma_read_after_write, lemma_write_keeps_shape, lemma_writable_file_takes,
    list_dir, node_exists, pair_views, read_text, read_u32, trim_end_char, write_result,
    write_verified_result, Root, RootView,
};
use crate::text::{
    cat, cat3, chars_eq, chars_of, debug_str, debug_string, decimal, ends_with, ends_with_exec,
    lines, lines_of, parse_u32, parse_u32_of, split_once, split_once_exec, starts_with,
    starts_with_exec, string_of, strip_prefix, strip_prefix_exec, string_views, u64_string, views,
    words, words_of,
};

verus! {

/// How often the curve loop runs, in milliseconds.
pub const TICK_MS: u64 = 2000;

/// A curve loop that has not run for this many seconds is presumed wedged,
/// and the fans are handed back.
pub const WATCHDOG_SECS: u64 = 20;

// ---- the clock -------------------------------------------------------------------

pub open spec fn deadline_after(last: int, now: int) -> int {
    if last + TICK_MS < now {
        now
    } else {
        last + TICK_MS
    }
}

/// A deadline for the next tick that does not drift: one tick after the
/// last deadline, or now where that has already passed. Times are in
/// milliseconds of a monotonic clock.
pub fn next_deadline(last: u64, now: u64) -> (r: u64)
    requires
        last + TICK_MS <= u64::MAX,
    ensures
        r == deadline_after(last as int, now as int),
{
    let next = last + TICK_MS;
    if next < now {
        now
    } else {
        next
    }
}

/// One look by the watchdog: whether it is now tripped, and whether to hand
/// every fan back this time. It acts once per stall, and rearms as soon as
/// the loop runs again or nothing is being driven.
pub open spec fn watchdog_step(tripped: bool, driving: bool, age: nat) -> (bool, bool) {
    if !driving {
        (false, false)
    } else if age > WATCHDOG_SECS {
        (true, !tripped)
    } else {
        (false, false)
    }
}

pub open spec fn age_of(now: u64, heartbeat: u64) -> nat {
    if now >= heartbeat {
        (now - heartbeat) as nat
    } else {
        0
    }
}

/// The watchdog's decision, given whether anything is being driven (or the
/// loop's lock could not be taken, which counts as driving), the time now and
/// the last heartbeat, both in seconds.
pub fn watchdog(tripped: bool, driving: bool, now: u64, heartbeat: u64) -> (r: (bool, bool))
    ensures
        r == watchdog_step(tripped, driving, age_of(now, heartbeat)),
{
    if !driving {
        return (false, false);
    }
    let age = now.saturating_sub(heartbeat);
    if age > WATCHDOG_SECS {
        (true, !tripped)
    } else {
        (false, false)
    }
}

/// The watchdog hands the fans back exactly once per stall: a release leaves
/// it tripped, and a tripped watchdog does not release again until it has
/// rearmed.
pub proof fn lemma_watchdog_acts_once(driving: bool, age: nat)
    ensures
        watchdog_step(false, driving, age).1 ==> watchdog_step(false, driving, age).0
            && !watchdog_step(watchdog_step(false, driving, age).0, driving, age).1,
        watchdog_step(false, driving, age).1 <==> (driving && age > WATCHDOG_SECS),
        !driving ==> !watchdog_step(true, driving, age).0,
{
}

// ---- the command line and the system files ---------------------------------------

pub open spec fn is_flag_at(args: Seq<Seq<char>>, name: Seq<char>, i: int) -> bool {
    0 <= i < args.len() && args[i] == name && forall|j: int| 0 <= j < i ==> args[j] != name
}

/// The argument after the first `name`, where there is one.
pub open spec fn flag_of(args: Seq<Seq<char>>, name: Seq<char>) -> Option<Seq<char>> {
    if exists|i: int| is_flag_at(args, name, i) {
        let i = choose|i: int| is_flag_at(args, name, i);
        if i + 1 < args.len() {
            Some(args[i + 1])
        } else {
            None
        }
    } else {
        None
    }
}

pub fn flag(args: &Vec<String>, name: &str) -> (r: Option<String>)
    ensures
        match r {
            Some(v) => flag_of(string_views(args@), name@) == Some(v@),
            None => flag_of(string_views(args@), name@).is_none(),
        },
{
    let want = chars_of(name);
    let ghost a = string_views(args@);
    let mut i: usize = 0;
    while i < args.len()
        invariant
            i <= args@.len(),
            a == string_views(args@),
            want@ == name@,
            forall|j: int| 0 <= j < i ==> a[j] != name@,
        decreases args@.len() - i,
    {
        if chars_eq(&chars_of(args[i].as_str()), &want) {
            proof {
                assert(is_flag_at(a, name@, i as int));
                let k = choose|k: int| is_flag_at(a, name@, k);
                assert(k == i) by {
                    if k < i {
                    } else if k > i {
                    }
                }
            }
            if i + 1 < args.len() {
                return Some(args[i + 1].clone());
            }
            return None;
        }
        i = i + 1;
    }
    None
}

/// The first field after `Uid:` on the first line that starts with it, in
/// `/proc/self/status`: the real user id.
pub open spec fn uid_in(ls: Seq<Seq<char>>) -> Option<u32>
    decreases ls.len(),
{
    if ls.len() == 0 {
        None
    } else {
        match strip_prefix(ls[0], "Uid:"@) {
            Some(rest) => {
                let ws = words(rest);
                if ws.len() > 0 {
                    parse_u32(ws[0])
                } else {
                    None
                }
            },
            None => uid_in(ls.drop_first()),
        }
    }
}

pub open spec fn uid_of(status: Seq<char>) -> Option<u32> {
    uid_in(lines(status))
}

/// The real user id, from the text of `/proc/self/status`.
pub fn uid_from_status(status: &str) -> (r: Option<u32>)
    ensures
        r == uid_of(status@),
{
    let ls = lines_of(&chars_of(status));
    let ghost l = views(ls@);
    assert(l.skip(0) =~= l);
    let prefix = chars_of("Uid:");
    let mut i: usize = 0;
    while i < ls.len()
        invariant
            i <= ls@.len(),
            l == views(ls@),
            l == lines(status@),
            prefix@ == "Uid:"@,
            uid_of(status@) == uid_in(l.skip(i as int)),
        decreases ls@.len() - i,
    {
        assert(l.skip(i as int).drop_first() =~= l.skip(i + 1));
        assert(l.skip(i as int)[0] == ls@[i as int]@);
        if let Some(rest) = strip_prefix_exec(&ls[i], &prefix) {
            let ws = words_of(&rest);
            if ws.len() > 0 {
                return parse_u32_of(&ws[0]);
            }
            return None;
        }
        i = i + 1;
    }
    assert(l.skip(i as int).len() == 0);
    None
}

/// The third `:`-separated field of a line of `/etc/group`, as a number,
/// where the line's first field is `group`.
pub open spec fn gid_on_line(line: Seq<char>, group: Seq<char>) -> Option<u32> {
    let (first, rest) = match split_once(line, ':') {
        Some((a, b)) => (a, Some(b)),
        None => (line, None),
    };
    if first != group {
        None
    } else {
        match rest {
            None => None,
            Some(r1) => match split_once(r1, ':') {
                None => None,
                Some((_, r2)) => parse_u32(
                    match split_once(r2, ':') {
                        Some((f, _)) => f,
                        None => r2,
                    },
                ),
            },
        }
    }
}

pub open spec fn gid_in(ls: Seq<Seq<char>>, group: Seq<char>) -> Option<u32>
    decreases ls.len(),
{
    if ls.len() == 0 {
        None
    } else {
        match gid_on_line(ls[0], group) {
            Some(g) => Some(g),
            None => gid_in(ls.drop_first(), group),
        }
    }
}

fn gid_on_line_exec(line: &[char], group: &[char]) -> (r: Option<u32>)
    ensures
        r == gid_on_line(line@, group@),
{
    let (first, rest) = match split_once_exec(line, ':') {
        Some((a, b)) => (a, Some(b)),
        None => (crate::text::slice_to_vec(line, 0, line.len()), None),
    };
    assert(line@.subrange(0, line@.len() as int) =~= line@);
    if !chars_eq(&first, group) {
        return None;
    }
    match rest {
        None => None,
        Some(r1) => match split_once_exec(&r1, ':') {
            None => None,
            Some((_, r2)) => match split_once_exec(&r2, ':') {
                Some((f, _)) => parse_u32_of(&f),
                None => parse_u32_of(&r2),
            },
        },
    }
}

/// The numeric id of a group, from the text of `/etc/group`: local groups
/// are the ones that matter, so no resolver is consulted.
pub fn gid_from_group_file(text: &str, group: &str) -> (r: Option<u32>)
    ensures
        r == gid_in(lines(text@), group@),
{
    let ls = lines_of(&chars_of(text));
    let g = chars_of(group);
    let ghost l = views(ls@);
    assert(l.skip(0) =~= l);
    let mut i: usize = 0;
    while i < ls.len()
        invariant
            i <= ls@.len(),
            l == views(ls@),
            l == lines(text@),
            g@ == group@,
            gid_in(l, group@) == gid_in(l.skip(i as int), group@),
        decreases ls@.len() - i,
    {
        assert(l.skip(i as int).drop_first() =~= l.skip(i + 1));
        assert(l.skip(i as int)[0] == ls@[i as int]@);
        if let Some(gid) = gid_on_line_exec(&ls[i], &g) {
            return Some(gid);
        }
        i = i + 1;
    }
    assert(l.skip(i as int).len() == 0);
    None
}

// ---- the channel a curve drives ----------------------------------------------------

/// The `pwmN` path behind a knob, relative to the root, for a knob that is an
/// hwmon fan duty; the error otherwise.
pub open spec fn duty_attr_result(h: crate::provider::HardwareView, id: Seq<char>) -> Result<
    Seq<char>,
    Seq<char>,
> {
    match find_knob(hardware_knobs(h), id) {
        None => Err("no control called "@ + debug_str(id) + " on this machine"@),
        Some(k) => if k.role != Role::FanDuty {
            Err(k.label + " is not a fan duty cycle"@)
        } else if k.provider != "hwmon"@ {
            Err(
                k.label
                    + " cannot be driven from a curve: only hwmon PWM channels take a continuous duty. Use its modes instead."@,
            )
        } else {
            // `origin` is the path on the machine; the guard and the tick
            // want it relative to the root.
            match strip_prefix(k.origin, trim_end_char(h.root.base, '/')) {
                Some(rel) => Ok(rel),
                None => Ok(k.origin),
            }
        },
    }
}

pub fn duty_attr(hw: &Hardware, knob_id: &str) -> (r: Result<String, String>)
    ensures
        match r {
            Ok(p) => duty_attr_result(hw@, knob_id@) == Ok::<Seq<char>, Seq<char>>(p@),
            Err(e) => duty_attr_result(hw@, knob_id@) == Err::<Seq<char>, Seq<char>>(e@),
        },
{
    let knob = match hw.knob(knob_id) {
        Some(k) => k,
        None => {
            let d = debug_string(knob_id);
            return Err(cat3("no control called ", d.as_str(), " on this machine"));
        },
    };
    if knob.role != Role::FanDuty {
        return Err(cat(knob.label.as_str(), " is not a fan duty cycle"));
    }
    if !chars_eq(&chars_of(knob.provider.as_str()), &chars_of("hwmon")) {
        return Err(
            cat(
                knob.label.as_str(),
                " cannot be driven from a curve: only hwmon PWM channels take a continuous duty. Use its modes instead.",
            ),
        );
    }
    let base = chars_of(hw.root().base());
    let mut n = base.len();
    assert(base@.take(n as int) =~= base@);
    while n > 0 && base[n - 1] == '/'
        invariant
            n <= base@.len(),
            base@ == hw@.root.base,
            trim_end_char(hw@.root.base, '/') == trim_end_char(base@.take(n as int), '/'),
        decreases n,
    {
        assert(base@.take(n as int).drop_last() =~= base@.take(n - 1));
        n = n - 1;
    }
    let prefix = crate::text::slice_to_vec(&base, 0, n);
    assert(prefix@ =~= trim_end_char(hw@.root.base, '/'));
    match strip_prefix_exec(&chars_of(knob.origin.as_str()), &prefix) {
        Some(rel) => Ok(string_of(&rel)),
        None => Ok(knob.origin),
    }
}

// ---- requests ----------------------------------------------------------------------

/// The first reading called `id`.
pub open spec fn reading_index(rs: Seq<ReadingView>, id: Seq<char>) -> Option<int>
    decreases rs.len(),
{
    if rs.len() == 0 {
        None
    } else {
        match reading_index(rs.drop_last(), id) {
            Some(i) => Some(i),
            None => if rs.last().id == id {
                Some(rs.len() - 1)
            } else {
                None
            },
        }
    }
}

/// Where the sensor a curve follows is in this tick's readings, if it is
/// there at all.
pub fn find_reading(readings: &Vec<Reading>, id: &str) -> (r: Option<usize>)
    ensures
        match r {
            Some(i) => reading_index(reading_views(readings@), id@) == Some(i as int),
            None => reading_index(reading_views(readings@), id@) is None,
        },
{
    let ghost rs = reading_views(readings@);
    let want = chars_of(id);
    let mut i: usize = 0;
    while i < readings.len()
        invariant
            i <= readings@.len(),
            rs == reading_views(readings@),
            want@ == id@,
            reading_index(rs.take(i as int), id@) is None,
        decreases readings@.len() - i,
    {
        assert(rs.take(i + 1).drop_last() =~= rs.take(i as int));
        if chars_eq(&chars_of(readings[i].id.as_str()), &want) {
            assert(rs.take(i + 1).last() == readings@[i as int]@);
            proof {
                lemma_reading_index_prefix(rs, id@, i + 1);
            }
            return Some(i);
        }
        i = i + 1;
    }
    assert(rs.take(readings@.len() as int) =~= rs);
    None
}

/// A first match within a prefix is the first match of the whole.
proof fn lemma_reading_index_prefix(rs: Seq<ReadingView>, id: Seq<char>, n: int)
    requires
        0 <= n <= rs.len(),
        reading_index(rs.take(n), id) is Some,
    ensures
        reading_index(rs, id) == reading_index(rs.take(n), id),
    decreases rs.len() - n,
{
    if n < rs.len() {
        assert(rs.take(n + 1).drop_last() =~= rs.take(n));
        lemma_reading_index_prefix(rs, id, n + 1);
    } else {
        assert(rs.take(n) =~= rs);
    }
}

/// Putting a curve on `knob`, following `sensor`: the channel to drive and
/// whether it must first be taken -- a knob already on a curve keeps its
/// channel and only changes curve, so the fan never blips back to firmware.
pub open spec fn drive_plan_result(
    h: HardwareView,
    driven: Seq<Seq<char>>,
    knob: Seq<char>,
    sensor: Seq<char>,
) -> Result<(Seq<char>, bool), Seq<char>> {
    match duty_attr_result(h, knob) {
        Err(e) => Err(e),
        Ok(attr) => if reading_index(hardware_readings(h), sensor) is None {
            Err("no sensor called "@ + debug_str(sensor) + " on this machine"@)
        } else {
            Ok((attr, !driven.contains(knob)))
        },
    }
}

fn contains_str(v: &Vec<String>, s: &str) -> (b: bool)
    ensures
        b == string_views(v@).contains(s@),
{
    let want = chars_of(s);
    let mut i: usize = 0;
    while i < v.len()
        invariant
            i <= v@.len(),
            want@ == s@,
            forall|j: int| 0 <= j < i ==> string_views(v@)[j] != s@,
        decreases v@.len() - i,
    {
        if chars_eq(&chars_of(v[i].as_str()), &want) {
            assert(string_views(v@)[i as int] == s@);
            return true;
        }
        i = i + 1;
    }
    false
}

/// Decide a request to put a curve on a fan. `driven` holds the knobs
/// already on a curve.
pub fn plan_drive(hw: &Hardware, driven: &Vec<String>, knob_id: &str, sensor_id: &str) -> (r: Result<
    (String, bool),
    String,
>)
    ensures
        match r {
            Ok((attr, take)) => drive_plan_result(hw@, string_views(driven@), knob_id@, sensor_id@)
                == Ok::<(Seq<char>, bool), Seq<char>>((attr@, take)),
            Err(e) => drive_plan_result(hw@, string_views(driven@), knob_id@, sensor_id@) == Err::<
                (Seq<char>, bool),
                Seq<char>,
            >(e@),
        },
{
    let attr = duty_attr(hw, knob_id)?;
    let readings = hw.readings();
    if find_reading(&readings, sensor_id).is_none() {
        let d = debug_string(sensor_id);
        return Err(cat3("no sensor called ", d.as_str(), " on this machine"));
    }
    let take = !contains_str(driven, knob_id);
    Ok((attr, take))
}

/// Decide a request to let a fan off its curve: where it is among the
/// driven knobs, or that it is not on one.
pub fn plan_release(driven: &Vec<String>, knob_id: &str) -> (r: Result<usize, String>)
    ensures
        match r {
            Ok(i) => i < driven@.len() && driven@[i as int]@ == knob_id@ && forall|j: int|
                0 <= j < i ==> string_views(driven@)[j] != knob_id@,
            Err(e) => !string_views(driven@).contains(knob_id@) && e@ == knob_id@
                + " is not being driven"@,
        },
{
    let want = chars_of(knob_id);
    let mut i: usize = 0;
    while i < driven.len()
        invariant
            i <= driven@.len(),
            want@ == knob_id@,
            forall|j: int| 0 <= j < i ==> string_views(driven@)[j] != knob_id@,
        decreases driven@.len() - i,
    {
        if chars_eq(&chars_of(driven[i].as_str()), &want) {
            return Ok(i);
        }
        i = i + 1;
    }
    Err(cat(knob_id, " is not being driven"))
}

/// A one-off set of `knob`: where it is a fan duty, the channel to take
/// before the write, and whether that ends a curve on it; a manual value
/// replaces a curve rather than fight it.
pub open spec fn set_plan_result(h: HardwareView, driven: Seq<Seq<char>>, knob: Seq<char>) -> (
    Option<Seq<char>>,
    bool,
) {
    match duty_attr_result(h, knob) {
        Ok(attr) => (Some(attr), driven.contains(knob)),
        Err(_) => (None, false),
    }
}

pub fn plan_set(hw: &Hardware, driven: &Vec<String>, knob_id: &str) -> (r: (Option<String>, bool))
    ensures
        ({
            let (take, ends) = set_plan_result(hw@, string_views(driven@), knob_id@);
            &&& ends == r.1
            &&& match r.0 {
                Some(a) => take == Some(a@),
                None => take is None,
            }
        }),
{
    match duty_attr(hw, knob_id) {
        Ok(attr) => (Some(attr), contains_str(driven, knob_id)),
        Err(_) => (None, false),
    }
}

// ---- one control step --------------------------------------------------------------

/// A driven channel whose sensor has gone away goes back to firmware until
/// it returns: without a temperature the curve has nothing to say.
pub fn hand_back(root: &mut Root, duty_attr: &str) -> (r: Result<(), String>)
    ensures
        match r {
            Ok(()) => write_result(old(root)@, duty_attr@ + "_enable"@, "2"@) == Ok::<
                RootView,
                Seq<char>,
            >(final(root)@),
            Err(e) => write_result(old(root)@, duty_attr@ + "_enable"@, "2"@) == Err::<
                RootView,
                Seq<char>,
            >(e@) && final(root)@ == old(root)@,
        },
{
    let enable = cat(duty_attr, "_enable");
    root.write(enable.as_str(), "2")
}

/// What writing a duty of `raw` to a driven channel does: reclaim the
/// channel where firmware took it back, then write the duty where it would
/// change. The verdict is `Ok(true)` where the duty was written.
pub open spec fn duty_step(r: RootView, duty: Seq<char>, raw: u32) -> (Result<bool, Seq<char>>, RootView) {
    let enable = duty + "_enable"@;
    let (reclaimed, r1) = if node_exists(r, enable) && read_text(r, enable) != Some("1"@) {
        match write_verified_result(r, enable, "1"@) {
            (Err(e), after) => (Err("could not reclaim "@ + enable + ": "@ + e), after),
            (Ok(()), after) => (Ok(()), after),
        }
    } else {
        (Ok(()), r)
    };
    match reclaimed {
        Err(e) => (Err(e), r1),
        Ok(()) => if read_u32(r1, duty) != Some(raw) {
            match write_verified_result(r1, duty, decimal(raw as nat)) {
                (Err(e), after) => (Err(duty + ": "@ + e), after),
                (Ok(()), after) => (Ok(true), after),
            }
        } else {
            (Ok(false), r1)
        },
    }
}

/// One control step on a driven channel, once the curve has chosen `raw`.
///
/// Firmware takes a channel back across suspend and after some driver
/// resets, silently, so it is reclaimed on every step. The duty is written
/// only where the byte would change: some embedded controllers click on
/// every write.
pub fn drive_duty(root: &mut Root, duty_attr: &str, raw: u32) -> (r: Result<bool, String>)
    ensures
        ({
            let (verdict, after) = duty_step(old(root)@, duty_attr@, raw);
            &&& final(root)@ == after
            &&& match r {
                Ok(w) => verdict == Ok::<bool, Seq<char>>(w),
                Err(e) => verdict == Err::<bool, Seq<char>>(e@),
            }
        }),
{
    let enable = cat(duty_attr, "_enable");
    if root.path_exists(enable.as_str()) {
        let is_manual = match root.read(enable.as_str()) {
            Some(t) => chars_eq(&chars_of(t.as_str()), &chars_of("1")),
            None => false,
        };
        if !is_manual {
            match root.write_verified(enable.as_str(), "1") {
                Ok(()) => {},
                Err(e) => return Err(cat3("could not reclaim ", enable.as_str(), ": ").concat(e.as_str())),
            }
        }
    }
    let current = root.read_u32(duty_attr);
    if current != Some(raw) {
        let text = u64_string(raw as u64);
        match root.write_verified(duty_attr, text.as_str()) {
            Ok(()) => Ok(true),
            Err(e) => Err(cat3(duty_attr, ": ", e.as_str())),
        }
    } else {
        Ok(false)
    }
}

// ---- handing everything back without the bookkeeping ------------------------------

pub open spec fn is_enable_name(name: Seq<char>) -> bool {
    starts_with(name, "pwm"@) && ends_with(name, "_enable"@)
}

/// Every `pwm*_enable` of `entries` that reads `1` gets `2`, in order, with
/// what each write said.
pub open spec fn release_entries(r: RootView, es: Seq<(Seq<char>, Seq<char>)>) -> (
    Seq<(Seq<char>, Result<(), Seq<char>>)>,
    RootView,
)
    decreases es.len(),
{
    if es.len() == 0 {
        (seq![], r)
    } else {
        let (done, r1) = release_entries(r, es.drop_last());
        let (name, path) = es.last();
        if is_enable_name(name) && read_text(r1, path) == Some("1"@) {
            match write_result(r1, path, "2"@) {
                Ok(after) => (done.push((path, Ok(()))), after),
                Err(e) => (done.push((path, Err(e))), r1),
            }
        } else {
            (done, r1)
        }
    }
}

pub open spec fn release_chips(r: RootView, cs: Seq<ChipView>) -> (
    Seq<(Seq<char>, Result<(), Seq<char>>)>,
    RootView,
)
    decreases cs.len(),
{
    if cs.len() == 0 {
        (seq![], r)
    } else {
        let (done, r1) = release_chips(r, cs.drop_last());
        let (more, r2) = release_entries(r1, list_dir(r1, cs.last().dir));
        (done + more, r2)
    }
}

proof fn lemma_two_text()
    ensures
        crate::text::trim("2"@) == "2"@,
{
    reveal_strlit("2");
    assert("2"@ =~= decimal(2));
    crate::text::lemma_trim_decimal(2);
}

/// Handing back the manual channels of one directory: it changes no
/// listing and no writability, a file it changes reads `2` after, one that
/// read `2` still does, and every writable `pwm*_enable` among the entries
/// that read `1` reads `2`.
proof fn lemma_release_entries(
    r: RootView,
    es: Seq<(Seq<char>, Seq<char>)>,
    q: Seq<char>,
    d: Seq<char>,
    k: int,
)
    ensures
        ({
            let a = release_entries(r, es).1;
            &&& list_dir(a, d) == list_dir(r, d)
            &&& is_writable_file(a, q) == is_writable_file(r, q)
            &&& read_text(a, q) == read_text(r, q) || read_text(a, q) == Some("2"@)
            &&& read_text(r, q) == Some("2"@) ==> read_text(a, q) == Some("2"@)
            &&& 0 <= k < es.len() && es[k].1 == q && is_enable_name(es[k].0) && read_text(r, q)
                == Some("1"@) && is_writable_file(r, q) ==> read_text(a, q) == Some("2"@)
        }),
    decreases es.len(),
{
    if es.len() > 0 {
        let init = es.drop_last();
        let r1 = release_entries(r, init).1;
        lemma_release_entries(r, init, q, d, k);
        lemma_release_entries(r, init, q, d, -1);
        let (name, path) = es.last();
        lemma_two_text();
        if is_enable_name(name) && read_text(r1, path) == Some("1"@) {
            if write_result(r1, path, "2"@) is Ok {
                lemma_read_after_write(r1, path, "2"@, q);
                lemma_write_keeps_shape(r1, path, "2"@, q);
                lemma_write_keeps_shape(r1, path, "2"@, d);
            }
        }
        if k == es.len() - 1 && es[k].1 == q && is_enable_name(es[k].0) && read_text(r, q) == Some(
            "1"@,
        ) && is_writable_file(r, q) {
            assert(path == q);
            if read_text(r1, q) == Some("1"@) {
                lemma_writable_file_takes(r1, q, "2"@);
            } else {
                reveal_strlit("1");
                assert("1"@ != "2"@);
            }
        }
    }
}

/// The same, over every chip in turn, each listed as it then is.
proof fn lemma_release_chips(r: RootView, cs: Seq<ChipView>, q: Seq<char>, d: Seq<char>, ci: int, ei: int)
    ensures
        ({
            let a = release_chips(r, cs).1;
            &&& list_dir(a, d) == list_dir(r, d)
            &&& is_writable_file(a, q) == is_writable_file(r, q)
            &&& read_text(a, q) == read_text(r, q) || read_text(a, q) == Some("2"@)
            &&& read_text(r, q) == Some("2"@) ==> read_text(a, q) == Some("2"@)
            &&& 0 <= ci < cs.len() && 0 <= ei < list_dir(r, cs[ci].dir).len() && list_dir(
                r,
                cs[ci].dir,
            )[ei].1 == q && is_enable_name(list_dir(r, cs[ci].dir)[ei].0) && read_text(r, q)
                == Some("1"@) && is_writable_file(r, q) ==> read_text(a, q) == Some("2"@)
        }),
    decreases cs.len(),
{
    if cs.len() > 0 {
        let init = cs.drop_last();
        let r1 = release_chips(r, init).1;
        let dir = cs.last().dir;
        let es = list_dir(r1, dir);
        lemma_release_chips(r, init, q, d, ci, ei);
        lemma_release_chips(r, init, q, dir, ci, ei);
        lemma_release_entries(r1, es, q, d, ei);
        if 0 <= ci < cs.len() - 1 {
            assert(init[ci] == cs[ci]);
        } else if ci == cs.len() - 1 {
            assert(es == list_dir(r, cs[ci].dir));
        }
    }
}

/// An emergency release leaves no channel in manual that it could hand
/// back: every writable `pwm*_enable` of every chip that read `1` before
/// reads `2` after, whichever chip it is on.
pub proof fn lemma_emergency_release_frees_every_channel(r: RootView, ci: int, ei: int)
    requires
        0 <= ci < chips_of(r).len(),
        0 <= ei < list_dir(r, chips_of(r)[ci].dir).len(),
        is_enable_name(list_dir(r, chips_of(r)[ci].dir)[ei].0),
        read_text(r, list_dir(r, chips_of(r)[ci].dir)[ei].1) == Some("1"@),
        is_writable_file(r, list_dir(r, chips_of(r)[ci].dir)[ei].1),
    ensures
        read_text(release_chips(r, chips_of(r)).1, list_dir(r, chips_of(r)[ci].dir)[ei].1) == Some(
            "2"@,
        ),
{
    let q = list_dir(r, chips_of(r)[ci].dir)[ei].1;
    lemma_release_chips(r, chips_of(r), q, q, ci, ei);
}

pub open spec fn outcome_views(v: Seq<(String, Result<(), String>)>) -> Seq<
    (Seq<char>, Result<(), Seq<char>>),
> {
    Seq::new(
        v.len(),
        |i: int|
            (
                v[i].0@,
                match v[i].1 {
                    Ok(()) => Ok(()),
                    Err(e) => Err(e@),
                },
            ),
    )
}

fn release_dir(root: &mut Root, dir: &str, out: &mut Vec<(String, Result<(), String>)>)
    ensures
        ({
            let (more, after) = release_entries(old(root)@, list_dir(old(root)@, dir@));
            &&& final(root)@ == after
            &&& outcome_views(final(out)@) == outcome_views(old(out)@) + more
        }),
{
    let entries = root.list(dir);
    let ghost es = pair_views(entries@);
    let ghost r0 = root@;
    let ghost out0 = outcome_views(out@);
    let prefix = chars_of("pwm");
    let suffix = chars_of("_enable");
    let mut i: usize = 0;
    while i < entries.len()
        invariant
            i <= entries@.len(),
            es == pair_views(entries@),
            es == list_dir(r0, dir@),
            prefix@ == "pwm"@,
            suffix@ == "_enable"@,
            ({
                let (more, after) = release_entries(r0, es.take(i as int));
                &&& root@ == after
                &&& outcome_views(out@) == out0 + more
            }),
        decreases entries@.len() - i,
    {
        proof {
            let t = es.take(i + 1);
            assert(t.drop_last() =~= es.take(i as int));
            assert(t.last() == (entries@[i as int].0@, entries@[i as int].1@));
        }
        let name = chars_of(entries[i].0.as_str());
        if starts_with_exec(&name, &prefix) && ends_with_exec(&name, &suffix) {
            let path = entries[i].1.as_str();
            let on = match root.read(path) {
                Some(t) => chars_eq(&chars_of(t.as_str()), &chars_of("1")),
                None => false,
            };
            if on {
                let ghost before = out@;
                let w = root.write(path, "2");
                out.push((entries[i].1.clone(), w));
                proof {
                    let v = match out@.last().1 {
                        Ok(()) => Ok::<(), Seq<char>>(()),
                        Err(e) => Err(e@),
                    };
                    assert(outcome_views(out@) =~= outcome_views(before).push((entries@[i as int].1@, v)));
                }
            }
        }
        i = i + 1;
    }
    assert(es.take(entries@.len() as int) =~= es);
}

/// Put every hwmon PWM channel that is in manual back on firmware control,
/// without consulting any bookkeeping: this is the path for when the
/// bookkeeping is what might be broken. Says, per channel, how the write
/// went.
pub fn emergency_release(root: &mut Root) -> (r: Vec<(String, Result<(), String>)>)
    ensures
        ({
            let (done, after) = release_chips(old(root)@, chips_of(old(root)@));
            &&& final(root)@ == after
            &&& outcome_views(r@) == done
        }),
{
    let cs = chips(root);
    let ghost c = chip_views(cs@);
    let ghost r0 = root@;
    let mut out: Vec<(String, Result<(), String>)> = Vec::new();
    let mut i: usize = 0;
    assert(outcome_views(out@) =~= Seq::<(Seq<char>, Result<(), Seq<char>>)>::empty());
    while i < cs.len()
        invariant
            i <= cs@.len(),
            c == chip_views(cs@),
            c == chips_of(r0),
            ({
                let (done, after) = release_chips(r0, c.take(i as int));
                &&& root@ == after
                &&& outcome_views(out@) == done
            }),
        decreases cs@.len() - i,
    {
        proof {
            let t = c.take(i + 1);
            assert(t.drop_last() =~= c.take(i as int));
            assert(t.last() == cs@[i as int]@);
        }
        release_dir(root, cs[i].dir.as_str(), &mut out);
        i = i + 1;
    }
    assert(c.take(cs@.len() as int) =~= c);
    out
}

} // verus!
