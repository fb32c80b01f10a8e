//! `--probe`: every provider, what it found, and -- when that is nothing --
//! the reason, as one report to paste into a bug. It needs no display, no
//! daemon and no root; the program only prints what this builds.

use vstd::prelude::*;

use crate::backlight::leds::knob_views;
use crate::client::has_fan_control;
use crate::diagnose::{line_text, report, report_of, Suggestion, SuggestionView};
use crate::fan::hwmon::reading_views;
use crate::model::{domain_text, format_text, setting_text, Knob, KnobView, Reading, ReadingView, Role, Unit};
use crate::provider::{
    hardware_knobs, hardware_readings, provider_knobs, provider_name, provider_order,
    provider_readings, Hardware, HardwareView, Provider,
};
use crate::text::{chars_of, decimal, string_of, u128_string};
use crate::{machine, machine_text};

verus! {

/// What `{:?}` writes for a role.
pub open spec fn role_name(role: Role) -> Seq<char> {
    match role {
        Role::KeyboardBacklight => "KeyboardBacklight"@,
        Role::FanDuty => "FanDuty"@,
        Role::FanControlMode => "FanControlMode"@,
        Role::ThermalProfile => "ThermalProfile"@,
    }
}

pub open spec fn bool_text(b: bool) -> Seq<char> {
    if b {
        "true"@
    } else {
        "false"@
    }
}

/// `{:<w}`: `s`, with spaces after it up to `w` characters.
pub open spec fn pad_to(s: Seq<char>, w: nat) -> Seq<char> {
    if s.len() < w {
        s + Seq::new((w - s.len()) as nat, |i: int| ' ')
    } else {
        s
    }
}

/// Every line break followed by two spaces, so a many-line text stays
/// indented under its bullet.
pub open spec fn indented(s: Seq<char>) -> Seq<char>
    decreases s.len(),
{
    if s.len() == 0 {
        seq![]
    } else {
        indented(s.drop_last()) + if s.last() == '\n' {
            "\n  "@
        } else {
            seq![s.last()]
        }
    }
}

pub open spec fn knob_block(k: KnobView) -> Seq<char> {
    "  ["@ + role_name(k.role) + "] "@ + k.label + "\n      id       "@ + k.id
        + "\n      domain   "@ + domain_text(k.domain) + "\n      value    "@ + setting_text(
        k.value,
    ) + "\n      writable "@ + bool_text(k.writable) + "\n      from     "@ + k.origin + " via "@
        + k.provider + "\n"@
}

pub open spec fn knob_blocks(ks: Seq<KnobView>) -> Seq<char>
    decreases ks.len(),
{
    if ks.len() == 0 {
        seq![]
    } else {
        knob_blocks(ks.drop_last()) + knob_block(ks.last())
    }
}

/// The critical temperature, in whole degrees, where the driver gives one.
pub open spec fn critical_text(c: Option<i64>) -> Seq<char> {
    match c {
        Some(c) => " (critical "@ + format_text(Unit::Celsius, c as int) + ")"@,
        None => seq![],
    }
}

pub open spec fn reading_block(r: ReadingView) -> Seq<char> {
    "  "@ + pad_to(r.id, 28) + " "@ + format_text(r.unit, r.value as int) + critical_text(r.critical)
        + "\n      "@ + r.origin + "\n"@
}

pub open spec fn reading_blocks(rs: Seq<ReadingView>) -> Seq<char>
    decreases rs.len(),
{
    if rs.len() == 0 {
        seq![]
    } else {
        reading_blocks(rs.drop_last()) + reading_block(rs.last())
    }
}

/// How many knobs and readings a provider found.
pub open spec fn found_by(h: HardwareView, p: Provider) -> nat {
    provider_knobs(h, p).len() + provider_readings(h, p).len()
}

pub open spec fn provider_line(h: HardwareView, p: Provider) -> Seq<char> {
    "  "@ + pad_to(provider_name(p), 18) + " "@ + decimal(found_by(h, p)) + " found\n"@
}

pub open spec fn provider_lines(h: HardwareView, ps: Seq<Provider>) -> Seq<char>
    decreases ps.len(),
{
    if ps.len() == 0 {
        seq![]
    } else {
        provider_lines(h, ps.drop_last()) + provider_line(h, ps.last())
    }
}

pub open spec fn suggestion_lines(ss: Seq<SuggestionView>) -> Seq<char>
    decreases ss.len(),
{
    if ss.len() == 0 {
        seq![]
    } else {
        suggestion_lines(ss.drop_last()) + "  "@ + indented(line_text(ss.last())) + "\n"@
    }
}

/// The diagnosis, on a machine with no fan control: what would give it
/// some, or, where nothing known would, how to capture it.
pub open spec fn why_text(ks: Seq<KnobView>, r: crate::sysfs::RootView) -> Seq<char> {
    if has_fan_control(ks) {
        seq![]
    } else {
        let ss = report_of(r).suggestions;
        "\n== why there is no fan control here\n"@ + (if ss.len() == 0 {
            "  Nothing known would help. Capture this machine with:\n      raven-controls --capture ~/machine\n"@
        } else {
            seq![]
        }) + suggestion_lines(ss)
    }
}

pub open spec fn none_if_empty(n: nat) -> Seq<char> {
    if n == 0 {
        "  none\n"@
    } else {
        seq![]
    }
}

pub open spec fn daemon_text(running: bool) -> Seq<char> {
    if running {
        "running"@
    } else {
        "not running (fan curves and manual duty unavailable)"@
    }
}

pub open spec fn controls_section(ks: Seq<KnobView>) -> Seq<char> {
    "\n== controls\n"@ + none_if_empty(ks.len()) + knob_blocks(ks)
}

pub open spec fn sensors_section(rs: Seq<ReadingView>) -> Seq<char> {
    "\n== sensors\n"@ + none_if_empty(rs.len()) + reading_blocks(rs)
}

pub open spec fn providers_section(h: HardwareView) -> Seq<char> {
    "\n== providers\n"@ + provider_lines(h, provider_order())
}

/// The whole report for a machine, given whether the daemon answered.
pub open spec fn probe_text(h: HardwareView, daemon_running: bool) -> Seq<char> {
    let ks = hardware_knobs(h);
    machine_text(h.root) + "\n"@ + "raven-controlsd: "@ + daemon_text(daemon_running) + "\n"@
        + controls_section(ks) + sensors_section(hardware_readings(h)) + providers_section(h)
        + why_text(ks, h.root)
}

// ---- the code ------------------------------------------------------------------

fn role_str(role: Role) -> (r: &'static str)
    ensures
        r@ == role_name(role),
{
    match role {
        Role::KeyboardBacklight => "KeyboardBacklight",
        Role::FanDuty => "FanDuty",
        Role::FanControlMode => "FanControlMode",
        Role::ThermalProfile => "ThermalProfile",
    }
}

fn bool_str(b: bool) -> (r: &'static str)
    ensures
        r@ == bool_text(b),
{
    if b {
        "true"
    } else {
        "false"
    }
}

fn pad(s: &str, w: usize) -> (r: String)
    ensures
        r@ == pad_to(s@, w as nat),
{
    let mut v = chars_of(s);
    let n = v.len();
    if n < w {
        let mut k: usize = n;
        while k < w
            invariant
                n <= k <= w,
                n == s@.len(),
                v@ == s@ + Seq::new((k - n) as nat, |i: int| ' '),
            decreases w - k,
        {
            v.push(' ');
            assert(v@ =~= s@ + Seq::new((k + 1 - n) as nat, |i: int| ' '));
            k = k + 1;
        }
    }
    string_of(&v)
}

fn indent(s: &str) -> (r: String)
    ensures
        r@ == indented(s@),
{
    let cs = chars_of(s);
    let mut out: Vec<char> = Vec::new();
    let mut i: usize = 0;
    while i < cs.len()
        invariant
            i <= cs@.len(),
            cs@ == s@,
            out@ == indented(s@.take(i as int)),
        decreases cs@.len() - i,
    {
        let c = cs[i];
        assert(s@.take(i + 1).drop_last() =~= s@.take(i as int));
        if c == '\n' {
            out.push('\n');
            out.push(' ');
            out.push(' ');
            assert(out@ =~= indented(s@.take(i as int)) + "\n  "@) by {
                reveal_strlit("\n  ");
            }
        } else {
            out.push(c);
            assert(out@ =~= indented(s@.take(i as int)) + seq![c]);
        }
        i = i + 1;
    }
    assert(s@.take(cs@.len() as int) =~= s@);
    string_of(&out)
}

fn knob_text(k: &Knob) -> (r: String)
    ensures
        r@ == knob_block(k@),
{
    let mut s = String::from_str("  [");
    s.append(role_str(k.role));
    s.append("] ");
    s.append(k.label.as_str());
    s.append("\n      id       ");
    s.append(k.id.as_str());
    s.append("\n      domain   ");
    s.append(k.domain.describe().as_str());
    s.append("\n      value    ");
    s.append(k.value.describe().as_str());
    s.append("\n      writable ");
    s.append(bool_str(k.writable));
    s.append("\n      from     ");
    s.append(k.origin.as_str());
    s.append(" via ");
    s.append(k.provider.as_str());
    s.append("\n");
    s
}

fn reading_text(r: &Reading) -> (t: String)
    ensures
        t@ == reading_block(r@),
{
    let mut s = String::from_str("  ");
    s.append(pad(r.id.as_str(), 28).as_str());
    s.append(" ");
    s.append(r.unit.format(r.value).as_str());
    match r.critical {
        Some(c) => {
            s.append(" (critical ");
            s.append(Unit::Celsius.format(c).as_str());
            s.append(")");
        },
        None => {},
    }
    s.append("\n      ");
    s.append(r.origin.as_str());
    s.append("\n");
    s
}

fn suggestion_text(g: &Suggestion) -> (r: String)
    ensures
        r@ == "  "@ + indented(line_text(g@)) + "\n"@,
{
    let mut s = String::from_str("  ");
    s.append(indent(g.line().as_str()).as_str());
    s.append("\n");
    s
}

fn fan_control_exec(knobs: &Vec<Knob>) -> (b: bool)
    ensures
        b == has_fan_control(knob_views(knobs@)),
{
    let mut i: usize = 0;
    while i < knobs.len()
        invariant
            i <= knobs@.len(),
            forall|j: int|
                0 <= j < i ==> !(#[trigger] knob_views(knobs@)[j].role == Role::FanDuty
                    || knob_views(knobs@)[j].role == Role::ThermalProfile),
        decreases knobs@.len() - i,
    {
        if knobs[i].role == Role::FanDuty || knobs[i].role == Role::ThermalProfile {
            assert(knob_views(knobs@)[i as int].role == knobs@[i as int].role);
            return true;
        }
        i = i + 1;
    }
    false
}

fn controls(knobs: &Vec<Knob>) -> (r: String)
    ensures
        r@ == controls_section(knob_views(knobs@)),
{
    let ghost ks = knob_views(knobs@);
    let mut s = String::from_str("\n== controls\n");
    if knobs.len() == 0 {
        s.append("  none\n");
    }
    let ghost s0 = s@;
    let mut i: usize = 0;
    while i < knobs.len()
        invariant
            i <= knobs@.len(),
            ks == knob_views(knobs@),
            s@ == s0 + knob_blocks(ks.take(i as int)),
        decreases knobs@.len() - i,
    {
        assert(ks.take(i + 1).drop_last() =~= ks.take(i as int));
        assert(ks.take(i + 1).last() == knobs@[i as int]@);
        s.append(knob_text(&knobs[i]).as_str());
        i = i + 1;
    }
    assert(ks.take(knobs@.len() as int) =~= ks);
    s
}

fn sensors(readings: &Vec<Reading>) -> (r: String)
    ensures
        r@ == sensors_section(reading_views(readings@)),
{
    let ghost rs = reading_views(readings@);
    let mut s = String::from_str("\n== sensors\n");
    if readings.len() == 0 {
        s.append("  none\n");
    }
    let ghost s1 = s@;
    let mut i: usize = 0;
    while i < readings.len()
        invariant
            i <= readings@.len(),
            rs == reading_views(readings@),
            s@ == s1 + reading_blocks(rs.take(i as int)),
        decreases readings@.len() - i,
    {
        assert(rs.take(i + 1).drop_last() =~= rs.take(i as int));
        assert(rs.take(i + 1).last() == readings@[i as int]@);
        s.append(reading_text(&readings[i]).as_str());
        i = i + 1;
    }
    assert(rs.take(readings@.len() as int) =~= rs);
    s
}

fn provider_text(hw: &Hardware, p: Provider) -> (r: String)
    ensures
        r@ == provider_line(hw@, p),
{
    let n = (hw.knobs_from(p).len() as u128) + (hw.readings_from(p).len() as u128);
    let mut s = String::from_str("  ");
    s.append(pad(Hardware::provider_id(p), 18).as_str());
    s.append(" ");
    s.append(u128_string(n).as_str());
    s.append(" found\n");
    s
}

fn providers(hw: &Hardware) -> (r: String)
    ensures
        r@ == providers_section(hw@),
{
    let ps = hw.providers();
    let mut s = String::from_str("\n== providers\n");
    let ghost s2 = s@;
    let mut i: usize = 0;
    while i < ps.len()
        invariant
            i <= ps@.len(),
            ps@ == provider_order(),
            s@ == s2 + provider_lines(hw@, provider_order().take(i as int)),
        decreases ps@.len() - i,
    {
        let p = ps[i];
        proof {
            let t = provider_order().take(i + 1);
            assert(t.drop_last() =~= provider_order().take(i as int));
            assert(t.last() == p);
        }
        s.append(provider_text(hw, p).as_str());
        i = i + 1;
    }
    assert(provider_order().take(ps@.len() as int) =~= provider_order());
    s
}

fn why(knobs: &Vec<Knob>, root: &crate::sysfs::Root) -> (r: String)
    ensures
        r@ == why_text(knob_views(knobs@), root@),
{
    if fan_control_exec(knobs) {
        return String::new();
    }
    let mut s = String::from_str("\n== why there is no fan control here\n");
    let rep = report(root);
    let ghost ss = rep@.suggestions;
    if rep.suggestions.len() == 0 {
        s.append(
            "  Nothing known would help. Capture this machine with:\n      raven-controls --capture ~/machine\n",
        );
    }
    let ghost s3 = s@;
    let mut k: usize = 0;
    while k < rep.suggestions.len()
        invariant
            k <= rep.suggestions@.len(),
            ss == rep@.suggestions,
            ss.len() == rep.suggestions@.len(),
            s@ == s3 + suggestion_lines(ss.take(k as int)),
        decreases rep.suggestions@.len() - k,
    {
        assert(ss.take(k + 1).drop_last() =~= ss.take(k as int));
        assert(ss.take(k + 1).last() == rep.suggestions@[k as int]@);
        s.append(suggestion_text(&rep.suggestions[k]).as_str());
        k = k + 1;
    }
    assert(ss.take(rep.suggestions@.len() as int) =~= ss);
    s
}

/// The report `--probe` prints for this machine. `daemon_running` is
/// whether `raven-controlsd` answered on its socket.
pub fn probe_report(hw: &Hardware, daemon_running: bool) -> (r: String)
    ensures
        r@ == probe_text(hw@, daemon_running),
{
    let knobs = hw.knobs();
    let readings = hw.readings();
    let mut s = machine(hw.root());
    s.append("\n");
    s.append("raven-controlsd: ");
    s.append(
        if daemon_running {
            "running"
        } else {
            "not running (fan curves and manual duty unavailable)"
        },
    );
    s.append("\n");
    s.append(controls(&knobs).as_str());
    s.append(sensors(&readings).as_str());
    s.append(providers(hw).as_str());
    s.append(why(&knobs, hw.root()).as_str());
    s
}

} // verus!
