//! Where the window's writes go, and what it will not do alone.
//!
//! Two backends. The daemon, when its socket is there: everything works,
//! curves included, because something is alive to hand the fans back.
//! Straight to sysfs when it is not: the keyboard light and firmware-managed
//! modes work where they are writable, and manual fan duty does not -- a
//! window that takes a fan and is then closed leaves it pinned, with nothing
//! left running to notice.

use vstd::prelude::*;

use crate::backlight::leds::knob_views;
use crate::fan::hwmon::{enable_label_text, enable_value, enable_value_of, lemma_enable_round_trip};
use crate::diagnose::{line_text, report, report_of, Suggestion, SuggestionView};
use crate::fan::hwmon::reading_views;
use crate::model::{Knob, KnobView, Reading, ReadingView, Role, Setting, SettingView, Unit};
use crate::sysfs::{Root, RootView};
use crate::text::{cat3, string_views};

verus! {

/// Which backend a snapshot came through.
#[derive(Clone, Copy, Debug, PartialEq, Eq, Structural)]
pub enum Via {
    Daemon,
    Sysfs,
}

/// A fan mode that leaves the fan with firmware: automatic, or a driver's
/// own automatic algorithm (`pwmN_enable` of 2 or more).
pub open spec fn firmware_mode(name: Seq<char>) -> bool {
    enable_value_of(name) matches Some(v) && v >= 2
}

/// A set that takes a fan off firmware control: any duty, or any fan mode
/// but a firmware-managed one.
pub open spec fn takes_control(knob: KnobView, value: SettingView) -> bool {
    match (knob.role, value) {
        (Role::FanDuty, _) => true,
        (Role::FanControlMode, SettingView::Mode { name }) => !firmware_mode(name),
        _ => false,
    }
}

pub open spec fn refusal_text(label: Seq<char>) -> Seq<char> {
    "Taking manual control of "@ + label
        + " needs raven-controlsd, which is what hands the fan back to firmware when this window closes or crashes. Start it with:\n\n    sudo raven-controlsd\n\nFirmware-managed modes still work without it."@
}

/// The one thing the window will not do without a daemon behind it, and
/// why: the message to show, or `None` where the write is safe to make
/// directly.
pub fn unsafe_without_daemon(knob: &Knob, value: &Setting) -> (r: Option<String>)
    ensures
        match r {
            Some(m) => takes_control(knob@, value@) && m@ == refusal_text(knob@.label),
            None => !takes_control(knob@, value@),
        },
{
    let taking_control = match (knob.role, value) {
        (Role::FanDuty, _) => true,
        (Role::FanControlMode, Setting::Mode { name }) => match enable_value(name.as_str()) {
            Some(v) => v < 2,
            None => true,
        },
        _ => false,
    };
    if taking_control {
        Some(
            cat3(
                "Taking manual control of ",
                knob.label.as_str(),
                " needs raven-controlsd, which is what hands the fan back to firmware when this window closes or crashes. Start it with:\n\n    sudo raven-controlsd\n\nFirmware-managed modes still work without it.",
            ),
        )
    } else {
        None
    }
}

/// Without a daemon, every duty, "Manual" and "Full speed" are refused;
/// handing a fan back to firmware -- automatic or any driver's own mode --
/// the keyboard light and thermal profiles never are, whatever the value.
pub proof fn lemma_only_taking_a_fan_needs_the_daemon(knob: KnobView, value: SettingView, v: u32)
    ensures
        knob.role == Role::FanDuty ==> takes_control(knob, value),
        knob.role == Role::FanControlMode && v >= 2 && value == (SettingView::Mode {
            name: enable_label_text(v),
        }) ==> !takes_control(knob, value),
        knob.role == Role::FanControlMode && v < 2 && value == (SettingView::Mode {
            name: enable_label_text(v),
        }) ==> takes_control(knob, value),
        knob.role == Role::KeyboardBacklight ==> !takes_control(knob, value),
        knob.role == Role::ThermalProfile ==> !takes_control(knob, value),
{
    lemma_enable_round_trip(v);
}

pub open spec fn has_fan_control(ks: Seq<KnobView>) -> bool {
    exists|i: int|
        0 <= i < ks.len() && (#[trigger] ks[i].role == Role::FanDuty || ks[i].role
            == Role::ThermalProfile)
}

pub open spec fn lines_of_suggestions(s: Seq<SuggestionView>) -> Seq<Seq<char>> {
    Seq::new(s.len(), |i: int| line_text(s[i]))
}

/// What the window explains: nothing on a machine with fan control, else
/// what would give it some.
pub open spec fn diagnosis_of(ks: Seq<KnobView>, r: RootView) -> Seq<Seq<char>> {
    if has_fan_control(ks) {
        seq![]
    } else {
        lines_of_suggestions(report_of(r).suggestions)
    }
}

/// Only diagnose when there is something to explain: on a machine with
/// working fan control the list is empty and the window shows no banner.
pub fn diagnosis(knobs: &Vec<Knob>, root: &Root) -> (r: Vec<String>)
    ensures
        string_views(r@) == diagnosis_of(knob_views(knobs@), root@),
{
    let mut i: usize = 0;
    while i < knobs.len()
        invariant
            i <= knobs@.len(),
            forall|j: int|
                0 <= j < i ==> !(#[trigger] knob_views(knobs@)[j].role == Role::FanDuty
                    || knob_views(knobs@)[j].role == Role::ThermalProfile),
        decreases knobs@.len() - i,
    {
        if knobs[i].role == Role::FanDuty || knobs[i].role == Role::ThermalProfile {
            assert(knob_views(knobs@)[i as int].role == knobs@[i as int].role);
            let v: Vec<String> = Vec::new();
            assert(string_views(v@) =~= diagnosis_of(knob_views(knobs@), root@));
            return v;
        }
        i = i + 1;
    }
    let rep = report(root);
    let mut out: Vec<String> = Vec::new();
    let mut k: usize = 0;
    while k < rep.suggestions.len()
        invariant
            k <= rep.suggestions@.len(),
            string_views(out@) =~= lines_of_suggestions(rep@.suggestions).take(k as int),
        decreases rep.suggestions@.len() - k,
    {
        let ghost before = out@;
        out.push(rep.suggestions[k].line());
        assert(string_views(out@) =~= string_views(before).push(line_text(rep@.suggestions[k as int])));
        assert(lines_of_suggestions(rep@.suggestions).take(k + 1) =~= lines_of_suggestions(
            rep@.suggestions,
        ).take(k as int).push(line_text(rep@.suggestions[k as int])));
        k = k + 1;
    }
    assert(lines_of_suggestions(rep@.suggestions).take(rep@.suggestions.len() as int)
        =~= lines_of_suggestions(rep@.suggestions));
    out
}

pub open spec fn celsius_only(rs: Seq<ReadingView>) -> Seq<ReadingView>
    decreases rs.len(),
{
    if rs.len() == 0 {
        seq![]
    } else if rs.last().unit == Unit::Celsius {
        celsius_only(rs.drop_last()).push(rs.last())
    } else {
        celsius_only(rs.drop_last())
    }
}

/// Temperature sensors, which is what a curve can be driven from.
pub fn temperatures(readings: &Vec<Reading>) -> (r: Vec<Reading>)
    ensures
        reading_views(r@) == celsius_only(reading_views(readings@)),
{
    let ghost whole = reading_views(readings@);
    let mut out: Vec<Reading> = Vec::new();
    let mut k: usize = 0;
    while k < readings.len()
        invariant
            k <= readings@.len(),
            whole == reading_views(readings@),
            reading_views(out@) == celsius_only(whole.take(k as int)),
        decreases readings@.len() - k,
    {
        proof {
            let t = whole.take(k + 1);
            assert(t.drop_last() =~= whole.take(k as int));
        }
        if readings[k].unit == Unit::Celsius {
            let ghost before = out@;
            out.push(readings[k].duplicate());
            assert(reading_views(out@) =~= reading_views(before).push(whole[k as int]));
        }
        k = k + 1;
    }
    assert(whole.take(readings@.len() as int) =~= whole);
    out
}

} // verus!
