//! The vocabulary the rest of the crate speaks.
//!
//! Knobs are described, not enumerated. A provider says "I am a control with
//! this domain and this current value"; the window renders a domain, never a
//! vendor.
//!
//! A percentage is carried in the hardware's own units: a `Percent` setting
//! holds the raw value, out of the `raw_max` its domain states. The window
//! turns that into the percentage it shows.

use vstd::prelude::*;

use crate::text::{
    cat, cat3, copy_strings, copy_u32s, debug_list, debug_list_of, debug_str, debug_string,
    debug_u32_list, debug_u32_list_of, decimal, join, join_strings, string_views, u64_string,
};

verus! {

/// Where a knob belongs in the window, and what a curve engine may drive.
#[derive(Clone, Copy, Debug, PartialEq, Eq, Hash, Structural)]
pub enum Role {
    /// The light under the keys.
    KeyboardBacklight,
    /// A fan's duty cycle; the only role a curve can drive.
    FanDuty,
    /// Who is in charge of a fan: firmware, or us.
    FanControlMode,
    /// A coarse machine-wide mode: platform profile, fan level, throttle policy.
    ThermalProfile,
}

pub open spec fn heading_of(role: Role) -> Seq<char> {
    match role {
        Role::KeyboardBacklight => "Keyboard backlight"@,
        Role::FanDuty => "Fans"@,
        Role::FanControlMode => "Fans"@,
        Role::ThermalProfile => "Thermal profile"@,
    }
}

impl Role {
    /// The section of the window a knob of this role goes in.
    pub fn heading(self) -> (r: &'static str)
        ensures
            r@ == heading_of(self),
    {
        match self {
            Role::KeyboardBacklight => "Keyboard backlight",
            Role::FanDuty => "Fans",
            Role::FanControlMode => "Fans",
            Role::ThermalProfile => "Thermal profile",
        }
    }
}

/// What a knob will accept.
#[derive(Clone, Debug, PartialEq, Eq)]
pub enum Domain {
    /// Continuous, from 0 to `raw_max` in the attribute's own units.
    Percent { raw_max: u32 },
    /// Ordered discrete steps, lowest first, addressed by index.
    Steps { labels: Vec<String> },
    /// Named modes with no useful ordering, addressed by name.
    Modes { options: Vec<String> },
    /// On or off.
    Switch,
    /// Per-channel intensity, from the multicolour LED class.
    Color { channels: Vec<String>, raw_max: u32 },
}

pub enum DomainView {
    Percent { raw_max: u32 },
    Steps { labels: Seq<Seq<char>> },
    Modes { options: Seq<Seq<char>> },
    Switch,
    Color { channels: Seq<Seq<char>>, raw_max: u32 },
}

impl View for Domain {
    type V = DomainView;

    open spec fn view(&self) -> DomainView {
        match self {
            Domain::Percent { raw_max } => DomainView::Percent { raw_max: *raw_max },
            Domain::Steps { labels } => DomainView::Steps { labels: string_views(labels@) },
            Domain::Modes { options } => DomainView::Modes { options: string_views(options@) },
            Domain::Switch => DomainView::Switch,
            Domain::Color { channels, raw_max } => DomainView::Color {
                channels: string_views(channels@),
                raw_max: *raw_max,
            },
        }
    }
}

/// A knob's current position, in the same terms as its domain.
#[derive(Clone, Debug, PartialEq, Eq)]
pub enum Setting {
    /// The raw value, out of the domain's `raw_max`.
    Percent { raw: u32 },
    Step { index: usize },
    Mode { name: String },
    Switch { on: bool },
    Color { intensities: Vec<u32> },
}

pub enum SettingView {
    Percent { raw: u32 },
    Step { index: usize },
    Mode { name: Seq<char> },
    Switch { on: bool },
    Color { intensities: Seq<u32> },
}

impl View for Setting {
    type V = SettingView;

    open spec fn view(&self) -> SettingView {
        match self {
            Setting::Percent { raw } => SettingView::Percent { raw: *raw },
            Setting::Step { index } => SettingView::Step { index: *index },
            Setting::Mode { name } => SettingView::Mode { name: name@ },
            Setting::Switch { on } => SettingView::Switch { on: *on },
            Setting::Color { intensities } => SettingView::Color { intensities: intensities@ },
        }
    }
}

/// How `{:?}` shows a domain.
pub open spec fn domain_text(d: DomainView) -> Seq<char> {
    match d {
        DomainView::Percent { raw_max } => "Percent { raw_max: "@ + decimal(raw_max as nat)
            + " }"@,
        DomainView::Steps { labels } => "Steps { labels: "@ + debug_list(labels) + " }"@,
        DomainView::Modes { options } => "Modes { options: "@ + debug_list(options) + " }"@,
        DomainView::Switch => "Switch"@,
        DomainView::Color { channels, raw_max } => "Color { channels: "@ + debug_list(channels)
            + ", raw_max: "@ + decimal(raw_max as nat) + " }"@,
    }
}

pub open spec fn bool_text(b: bool) -> Seq<char> {
    if b {
        "true"@
    } else {
        "false"@
    }
}

/// How `{:?}` shows a setting.
pub open spec fn setting_text(s: SettingView) -> Seq<char> {
    match s {
        SettingView::Percent { raw } => "Percent { raw: "@ + decimal(raw as nat) + " }"@,
        SettingView::Step { index } => "Step { index: "@ + decimal(index as nat) + " }"@,
        SettingView::Mode { name } => "Mode { name: "@ + debug_str(name) + " }"@,
        SettingView::Switch { on } => "Switch { on: "@ + bool_text(on) + " }"@,
        SettingView::Color { intensities } => "Color { intensities: "@ + debug_u32_list(
            intensities,
        ) + " }"@,
    }
}

pub open spec fn is_first_above(v: Seq<u32>, max: u32, i: int) -> bool {
    0 <= i < v.len() && v[i] > max && forall|j: int| 0 <= j < i ==> v[j] <= max
}

/// The index of the first intensity above `max`.
pub open spec fn first_above(v: Seq<u32>, max: u32) -> Option<int> {
    if exists|i: int| is_first_above(v, max, i) {
        Some(choose|i: int| is_first_above(v, max, i))
    } else {
        None
    }
}

/// What `Setting::check` answers: `Ok`, or the message saying what is wrong.
pub open spec fn check_result(s: SettingView, d: DomainView) -> Result<(), Seq<char>> {
    match (s, d) {
        (SettingView::Percent { raw }, DomainView::Percent { raw_max }) => if raw > raw_max {
            Err(
                decimal(raw as nat) + " is above the hardware maximum of "@ + decimal(
                    raw_max as nat,
                ),
            )
        } else {
            Ok(())
        },
        (SettingView::Step { index }, DomainView::Steps { labels }) => if index >= labels.len() {
            Err("step "@ + decimal(index as nat) + " of "@ + decimal(labels.len()) + " steps"@)
        } else {
            Ok(())
        },
        (SettingView::Mode { name }, DomainView::Modes { options }) => if !options.contains(
            name,
        ) {
            Err(debug_str(name) + " is not one of: "@ + join(options, ", "@))
        } else {
            Ok(())
        },
        (SettingView::Switch { .. }, DomainView::Switch) => Ok(()),
        (SettingView::Color { intensities }, DomainView::Color { channels, raw_max }) => {
            if intensities.len() != channels.len() {
                Err(
                    decimal(intensities.len()) + " intensities for "@ + decimal(channels.len())
                        + " channels ("@ + join(channels, ", "@) + ")"@,
                )
            } else {
                match first_above(intensities, raw_max) {
                    Some(i) => Err(
                        "intensity "@ + decimal(intensities[i] as nat)
                            + " is above the hardware maximum of "@ + decimal(raw_max as nat),
                    ),
                    None => Ok(()),
                }
            }
        },
        _ => Err(setting_text(s) + " does not fit a "@ + domain_text(d) + " control"@),
    }
}

impl Domain {
    /// A copy with the same view.
    pub fn duplicate(&self) -> (r: Domain)
        ensures
            r@ == self@,
    {
        match self {
            Domain::Percent { raw_max } => Domain::Percent { raw_max: *raw_max },
            Domain::Steps { labels } => Domain::Steps { labels: copy_strings(labels) },
            Domain::Modes { options } => Domain::Modes { options: copy_strings(options) },
            Domain::Switch => Domain::Switch,
            Domain::Color { channels, raw_max } => Domain::Color {
                channels: copy_strings(channels),
                raw_max: *raw_max,
            },
        }
    }

    /// What `{:?}` writes for this domain.
    pub fn describe(&self) -> (r: String)
        ensures
            r@ == domain_text(self@),
    {
        match self {
            Domain::Percent { raw_max } => {
                let n = u64_string(*raw_max as u64);
                cat3("Percent { raw_max: ", n.as_str(), " }")
            },
            Domain::Steps { labels } => {
                let l = debug_list_of(labels);
                cat3("Steps { labels: ", l.as_str(), " }")
            },
            Domain::Modes { options } => {
                let l = debug_list_of(options);
                cat3("Modes { options: ", l.as_str(), " }")
            },
            Domain::Switch => String::from_str("Switch"),
            Domain::Color { channels, raw_max } => {
                let l = debug_list_of(channels);
                let n = u64_string(*raw_max as u64);
                let a = cat3("Color { channels: ", l.as_str(), ", raw_max: ");
                cat3(a.as_str(), n.as_str(), " }")
            },
        }
    }
}

impl Setting {
    /// A copy with the same view.
    pub fn duplicate(&self) -> (r: Setting)
        ensures
            r@ == self@,
    {
        match self {
            Setting::Percent { raw } => Setting::Percent { raw: *raw },
            Setting::Step { index } => Setting::Step { index: *index },
            Setting::Mode { name } => Setting::Mode { name: name.clone() },
            Setting::Switch { on } => Setting::Switch { on: *on },
            Setting::Color { intensities } => Setting::Color { intensities: copy_u32s(intensities) },
        }
    }

    /// What `{:?}` writes for this setting.
    pub fn describe(&self) -> (r: String)
        ensures
            r@ == setting_text(self@),
    {
        match self {
            Setting::Percent { raw } => {
                let n = u64_string(*raw as u64);
                cat3("Percent { raw: ", n.as_str(), " }")
            },
            Setting::Step { index } => {
                let n = u64_string(*index as u64);
                cat3("Step { index: ", n.as_str(), " }")
            },
            Setting::Mode { name } => {
                let d = debug_string(name.as_str());
                cat3("Mode { name: ", d.as_str(), " }")
            },
            Setting::Switch { on } => {
                if *on {
                    cat3("Switch { on: ", "true", " }")
                } else {
                    cat3("Switch { on: ", "false", " }")
                }
            },
            Setting::Color { intensities } => {
                let l = debug_u32_list_of(intensities);
                cat3("Color { intensities: ", l.as_str(), " }")
            },
        }
    }

    /// Reject a value the hardware cannot take, before it reaches a write, so
    /// the window can say what was actually wrong.
    pub fn check(&self, domain: &Domain) -> (r: Result<(), String>)
        ensures
            match r {
                Ok(()) => check_result(self@, domain@) == Ok::<(), Seq<char>>(()),
                Err(e) => check_result(self@, domain@) == Err::<(), Seq<char>>(e@),
            },
    {
        match (self, domain) {
            (Setting::Percent { raw }, Domain::Percent { raw_max }) => {
                if *raw > *raw_max {
                    let a = u64_string(*raw as u64);
                    let b = u64_string(*raw_max as u64);
                    Err(cat3(a.as_str(), " is above the hardware maximum of ", b.as_str()))
                } else {
                    Ok(())
                }
            },
            (Setting::Step { index }, Domain::Steps { labels }) => {
                if *index >= labels.len() {
                    let a = u64_string(*index as u64);
                    let b = u64_string(labels.len() as u64);
                    let m = cat3("step ", a.as_str(), " of ");
                    Err(cat3(m.as_str(), b.as_str(), " steps"))
                } else {
                    Ok(())
                }
            },
            (Setting::Mode { name }, Domain::Modes { options }) => {
                assert(self@ == SettingView::Mode { name: name@ });
                assert(domain@ == DomainView::Modes { options: string_views(options@) });
                let mut k: usize = 0;
                while k < options.len()
                    invariant
                        k <= options@.len(),
                        self@ == (SettingView::Mode { name: name@ }),
                        domain@ == (DomainView::Modes { options: string_views(options@) }),
                        forall|j: int| 0 <= j < k ==> options@[j]@ != name@,
                    decreases options@.len() - k,
                {
                    if options[k] == *name {
                        proof {
                            assert(string_views(options@)[k as int] == name@);
                            assert(string_views(options@).contains(name@));
                        }
                        return Ok(());
                    }
                    k = k + 1;
                }
                proof {
                    assert(!string_views(options@).contains(name@)) by {
                        if string_views(options@).contains(name@) {
                            let j = choose|j: int|
                                0 <= j < string_views(options@).len() && string_views(
                                    options@,
                                )[j] == name@;
                            assert(options@[j]@ == name@);
                        }
                    }
                }
                let d = debug_string(name.as_str());
                let j = join_strings(options, ", ");
                Err(cat3(d.as_str(), " is not one of: ", j.as_str()))
            },
            (Setting::Switch { .. }, Domain::Switch) => Ok(()),
            (Setting::Color { intensities }, Domain::Color { channels, raw_max }) => {
                if intensities.len() != channels.len() {
                    let a = u64_string(intensities.len() as u64);
                    let b = u64_string(channels.len() as u64);
                    let j = join_strings(channels, ", ");
                    let m = cat3(a.as_str(), " intensities for ", b.as_str());
                    let m = cat3(m.as_str(), " channels (", j.as_str());
                    return Err(cat(m.as_str(), ")"));
                }
                assert(self@ == SettingView::Color { intensities: intensities@ });
                assert(domain@ == DomainView::Color {
                    channels: string_views(channels@),
                    raw_max: *raw_max,
                });
                let mut k: usize = 0;
                while k < intensities.len()
                    invariant
                        k <= intensities@.len(),
                        intensities@.len() == channels@.len(),
                        self@ == (SettingView::Color { intensities: intensities@ }),
                        domain@ == (DomainView::Color {
                            channels: string_views(channels@),
                            raw_max: *raw_max,
                        }),
                        forall|j: int| 0 <= j < k ==> intensities@[j] <= *raw_max,
                    decreases intensities@.len() - k,
                {
                    if intensities[k] > *raw_max {
                        proof {
                            let v = intensities@;
                            assert(is_first_above(v, *raw_max, k as int));
                            let w = choose|i: int| is_first_above(v, *raw_max, i);
                            assert(w == k) by {
                                if w < k {
                                } else if w > k {
                                }
                            }
                        }
                        let a = u64_string(intensities[k] as u64);
                        let b = u64_string(*raw_max as u64);
                        let m = cat3("intensity ", a.as_str(), " is above the hardware maximum of ");
                        return Err(cat(m.as_str(), b.as_str()));
                    }
                    k = k + 1;
                }
                Ok(())
            },
            _ => {
                let s = self.describe();
                let d = domain.describe();
                let m = cat3(s.as_str(), " does not fit a ", d.as_str());
                Err(cat(m.as_str(), " control"))
            },
        }
    }
}

/// One control, as discovered.
#[derive(Clone, Debug)]
pub struct Knob {
    /// Stable across reboots: saved settings and fan curves are keyed on it.
    pub id: String,
    pub label: String,
    pub role: Role,
    pub domain: Domain,
    pub value: Setting,
    /// False when the attribute exists but this account cannot write it.
    pub writable: bool,
    /// Which provider found it.
    pub provider: String,
    /// The kernel path or bus address behind it.
    pub origin: String,
}

pub struct KnobView {
    pub id: Seq<char>,
    pub label: Seq<char>,
    pub role: Role,
    pub domain: DomainView,
    pub value: SettingView,
    pub writable: bool,
    pub provider: Seq<char>,
    pub origin: Seq<char>,
}

impl View for Knob {
    type V = KnobView;

    open spec fn view(&self) -> KnobView {
        KnobView {
            id: self.id@,
            label: self.label@,
            role: self.role,
            domain: self.domain@,
            value: self.value@,
            writable: self.writable,
            provider: self.provider@,
            origin: self.origin@,
        }
    }
}

impl Knob {
    /// A copy with the same view.
    pub fn duplicate(&self) -> (r: Knob)
        ensures
            r@ == self@,
    {
        Knob {
            id: self.id.clone(),
            label: self.label.clone(),
            role: self.role,
            domain: self.domain.duplicate(),
            value: self.value.duplicate(),
            writable: self.writable,
            provider: self.provider.clone(),
            origin: self.origin.clone(),
        }
    }
}

#[derive(Clone, Copy, Debug, PartialEq, Eq, Structural)]
pub enum Unit {
    Rpm,
    Celsius,
}

/// Something to read: a fan's speed, a temperature.
///
/// `value` is in RPM for a fan and in thousandths of a degree Celsius for a
/// temperature, which is how hwmon itself reports them.
#[derive(Clone, Debug)]
pub struct Reading {
    pub id: String,
    pub label: String,
    pub unit: Unit,
    pub value: i64,
    /// The temperature the driver calls critical, in the same units.
    pub critical: Option<i64>,
    pub origin: String,
}

pub struct ReadingView {
    pub id: Seq<char>,
    pub label: Seq<char>,
    pub unit: Unit,
    pub value: i64,
    pub critical: Option<i64>,
    pub origin: Seq<char>,
}

impl View for Reading {
    type V = ReadingView;

    open spec fn view(&self) -> ReadingView {
        ReadingView {
            id: self.id@,
            label: self.label@,
            unit: self.unit,
            value: self.value,
            critical: self.critical,
            origin: self.origin@,
        }
    }
}

impl Reading {
    /// A copy with the same view.
    pub fn duplicate(&self) -> (r: Reading)
        ensures
            r@ == self@,
    {
        Reading {
            id: self.id.clone(),
            label: self.label.clone(),
            unit: self.unit,
            value: self.value,
            critical: self.critical,
            origin: self.origin.clone(),
        }
    }
}

} // verus!

verus! {

/// `{:.0}` of a non-negative number of thousandths: to the nearest whole,
/// a tie going to the even neighbour.
pub open spec fn round_thousandths(m: nat) -> nat {
    let q = m / 1000;
    let r = m % 1000;
    if r > 500 || (r == 500 && q % 2 == 1) {
        q + 1
    } else {
        q
    }
}

/// What `Unit::format` writes for a value in this unit's integer steps.
pub open spec fn format_text(unit: Unit, value: int) -> Seq<char> {
    match unit {
        Unit::Rpm => crate::text::signed_decimal(value) + " RPM"@,
        Unit::Celsius => if value < 0 {
            seq!['-'] + decimal(round_thousandths((0 - value) as nat)) + " °C"@
        } else {
            decimal(round_thousandths(value as nat)) + " °C"@
        },
    }
}

impl Unit {
    /// A reading as it is shown: `2500 RPM`, `45 °C`. `value` is in RPM, or
    /// in thousandths of a degree, as `Reading` carries it.
    pub fn format(self, value: i64) -> (r: String)
        ensures
            r@ == format_text(self, value as int),
    {
        match self {
            Unit::Rpm => {
                let n = crate::text::i64_string(value);
                cat(n.as_str(), " RPM")
            },
            Unit::Celsius => {
                let neg = value < 0;
                let m: u64 = if value == i64::MIN {
                    0x8000_0000_0000_0000
                } else if neg {
                    (-value) as u64
                } else {
                    value as u64
                };
                let q = m / 1000;
                let r = m % 1000;
                let whole = if r > 500 || (r == 500 && q % 2 == 1) {
                    q + 1
                } else {
                    q
                };
                let n = u64_string(whole);
                if neg {
                    proof {
                        reveal_strlit("-");
                    }
                    cat3("-", n.as_str(), " °C")
                } else {
                    cat(n.as_str(), " °C")
                }
            },
        }
    }
}

} // verus!
