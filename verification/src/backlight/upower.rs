//! `org.freedesktop.UPower.KbdBacklight` on the system bus.
//!
//! The LED class finds the same hardware, but on a stock distribution its
//! `brightness` attribute is root-owned, and UPower is the one interface that
//! sets the keyboard light for an ordinary session without a udev rule. So
//! this provider defers: it publishes nothing when the sysfs node is already
//! writable, and steps in when it is not.
//!
//! The bus itself is spoken to by the program around this library. What is
//! decided here is whether to ask the bus at all, what a reply becomes, and
//! what is sent back.

use vstd::prelude::*;

use crate::backlight::leds::{knob_views, CLASS};
use crate::model::{Domain, DomainView, Knob, KnobView, Role, Setting, SettingView, setting_text};
use crate::sysfs::{is_writable, list_dir, Root, RootView};
use crate::text::{cat, chars_eq, chars_of, ends_with, ends_with_exec};

verus! {

pub const KNOB_ID: &'static str = "upower/kbd_backlight";

/// The UPower provider, holding whether the bus answered one real call when
/// it was connected: a proxy for a name nobody owns proves nothing.
pub struct UPower {
    pub answered: bool,
}

/// Some LED-class keyboard light in `entries` has a `brightness` this account
/// can write.
pub open spec fn covered_in(r: RootView, entries: Seq<(Seq<char>, Seq<char>)>) -> bool {
    exists|i: int|
        0 <= i < entries.len() && ends_with(#[trigger] entries[i].0, "kbd_backlight"@) && is_writable(
            r,
            entries[i].1 + "/brightness"@,
        )
}

/// The kernel already offers the keyboard light on terms preferred to the
/// bus.
pub open spec fn sysfs_covers(r: RootView) -> bool {
    covered_in(r, list_dir(r, CLASS@))
}

/// Whether discovery asks the bus: never for a captured tree, whose live
/// session's light must not be driven from a fixture.
pub open spec fn asks_bus_of(r: RootView, answered: bool) -> bool {
    !r.read_only && answered && !sysfs_covers(r)
}

/// The knob for a bus reply of `(maximum, current)` brightness.
pub open spec fn bus_knob(max: i32, current: i32) -> Seq<KnobView> {
    if max <= 0 {
        seq![]
    } else {
        let m = max as u32;
        let c: u32 = if current < 0 {
            0
        } else {
            current as u32
        };
        seq![
            KnobView {
                id: KNOB_ID@,
                label: "Keyboard backlight"@,
                role: Role::KeyboardBacklight,
                domain: if m <= 1 {
                    DomainView::Switch
                } else {
                    DomainView::Percent { raw_max: m }
                },
                value: if m <= 1 {
                    SettingView::Switch { on: c >= 1 }
                } else {
                    SettingView::Percent {
                        raw: if c <= m {
                            c
                        } else {
                            m
                        },
                    }
                },
                // UPower does its own authorisation.
                writable: true,
                provider: "upower"@,
                origin: "org.freedesktop.UPower.KbdBacklight"@,
            },
        ]
    }
}

/// The knobs published, given the bus's reply where it was asked and both
/// calls succeeded.
pub open spec fn upower_knobs(r: RootView, answered: bool, bus: Option<(i32, i32)>) -> Seq<
    KnobView,
> {
    if !asks_bus_of(r, answered) {
        seq![]
    } else {
        match bus {
            None => seq![],
            Some((max, current)) => bus_knob(max, current),
        }
    }
}

pub open spec fn route_result(answered: bool, id: Seq<char>) -> Result<(), Seq<char>> {
    if !answered {
        Err("UPower is not running"@)
    } else if id != KNOB_ID@ {
        Err(id + " is not a UPower control"@)
    } else {
        Ok(())
    }
}

/// The brightness sent to the bus for a setting, given the maximum it
/// reports.
pub open spec fn raw_result(value: SettingView, max: i32) -> Result<i32, Seq<char>> {
    let m: u32 = if max < 0 {
        0
    } else {
        max as u32
    };
    match value {
        SettingView::Percent { raw } => Ok(
            (if raw <= m {
                raw
            } else {
                m
            }) as i32,
        ),
        SettingView::Switch { on } => Ok(
            if on {
                1
            } else {
                0
            },
        ),
        _ => Err("UPower cannot take "@ + setting_text(value)),
    }
}

/// UPower defers: it publishes nothing for a captured tree, nothing when the
/// kernel's own light is writable, and nothing for a bus that never answered.
pub proof fn lemma_upower_defers(r: RootView, answered: bool, bus: Option<(i32, i32)>)
    ensures
        (r.read_only || sysfs_covers(r) || !answered) ==> upower_knobs(r, answered, bus)
            == Seq::<KnobView>::empty(),
{
}

impl UPower {
    /// The provider, given whether the bus answered a call on connecting.
    pub fn new(answered: bool) -> (r: UPower)
        ensures
            r.answered == answered,
    {
        UPower { answered }
    }

    pub fn id(&self) -> (r: &'static str)
        ensures
            r@ == "upower"@,
    {
        "upower"
    }

    /// True when the kernel already offers this light on terms preferred to
    /// the bus.
    pub fn sysfs_has_it_covered(root: &Root) -> (b: bool)
        ensures
            b == sysfs_covers(root@),
    {
        let entries = root.list(CLASS);
        let suffix = chars_of("kbd_backlight");
        let mut i: usize = 0;
        while i < entries.len()
            invariant
                i <= entries@.len(),
                suffix@ == "kbd_backlight"@,
                crate::sysfs::pair_views(entries@) == list_dir(root@, CLASS@),
                forall|j: int|
                    0 <= j < i ==> !(ends_with(#[trigger] entries@[j].0@, "kbd_backlight"@)
                        && is_writable(root@, entries@[j].1@ + "/brightness"@)),
            decreases entries@.len() - i,
        {
            if ends_with_exec(&chars_of(entries[i].0.as_str()), &suffix) {
                let attr = cat(entries[i].1.as_str(), "/brightness");
                if root.writable(attr.as_str()) {
                    proof {
                        let es = list_dir(root@, CLASS@);
                        assert(es[i as int] == (entries@[i as int].0@, entries@[i as int].1@));
                        assert(ends_with(es[i as int].0, "kbd_backlight"@));
                        assert(is_writable(root@, es[i as int].1 + "/brightness"@));
                        assert(covered_in(root@, es));
                    }
                    return true;
                }
            }
            i = i + 1;
        }
        proof {
            let es = list_dir(root@, CLASS@);
            assert forall|j: int|
                0 <= j < es.len() implies !(ends_with(#[trigger] es[j].0, "kbd_backlight"@)
                && is_writable(root@, es[j].1 + "/brightness"@)) by {
                assert(es[j] == (entries@[j].0@, entries@[j].1@));
            }
        }
        false
    }

    /// Whether discovery should ask the bus for the light's brightness.
    pub fn asks_bus(&self, root: &Root) -> (b: bool)
        ensures
            b == asks_bus_of(root@, self.answered),
    {
        root.is_live() && self.answered && !Self::sysfs_has_it_covered(root)
    }

    /// The keyboard light as UPower reports it; `bus` is the reply to the
    /// maximum and current brightness calls, where both succeeded.
    pub fn knobs(&self, root: &Root, bus: Option<(i32, i32)>) -> (r: Vec<Knob>)
        ensures
            knob_views(r@) == upower_knobs(root@, self.answered, bus),
    {
        let mut out: Vec<Knob> = Vec::new();
        if !self.asks_bus(root) {
            assert(knob_views(out@) =~= upower_knobs(root@, self.answered, bus));
            return out;
        }
        if let Some((max, current)) = bus {
            if max > 0 {
                let m = max as u32;
                let c: u32 = if current < 0 {
                    0
                } else {
                    current as u32
                };
                let (domain, value) = if m <= 1 {
                    (Domain::Switch, Setting::Switch { on: c >= 1 })
                } else {
                    (
                        Domain::Percent { raw_max: m },
                        Setting::Percent {
                            raw: if c <= m {
                                c
                            } else {
                                m
                            },
                        },
                    )
                };
                out.push(
                    Knob {
                        id: String::from_str(KNOB_ID),
                        label: String::from_str("Keyboard backlight"),
                        role: Role::KeyboardBacklight,
                        domain,
                        value,
                        writable: true,
                        provider: String::from_str("upower"),
                        origin: String::from_str("org.freedesktop.UPower.KbdBacklight"),
                    },
                );
            }
        }
        assert(knob_views(out@) =~= upower_knobs(root@, self.answered, bus));
        out
    }

    /// Whether a set of `knob_id` goes to the bus at all.
    pub fn route(&self, knob_id: &str) -> (r: Result<(), String>)
        ensures
            match r {
                Ok(()) => route_result(self.answered, knob_id@) == Ok::<(), Seq<char>>(()),
                Err(e) => route_result(self.answered, knob_id@) == Err::<(), Seq<char>>(e@),
            },
    {
        if !self.answered {
            return Err(String::from_str("UPower is not running"));
        }
        if !chars_eq(&chars_of(knob_id), &chars_of(KNOB_ID)) {
            return Err(cat(knob_id, " is not a UPower control"));
        }
        Ok(())
    }

    /// The brightness to send for `value`, given the maximum the bus reports.
    pub fn raw_for(value: &Setting, max: i32) -> (r: Result<i32, String>)
        ensures
            match r {
                Ok(v) => raw_result(value@, max) == Ok::<i32, Seq<char>>(v),
                Err(e) => raw_result(value@, max) == Err::<i32, Seq<char>>(e@),
            },
    {
        let m: u32 = if max < 0 {
            0
        } else {
            max as u32
        };
        match value {
            Setting::Percent { raw } => {
                let v = if *raw <= m {
                    *raw
                } else {
                    m
                };
                Ok(v as i32)
            },
            Setting::Switch { on } => Ok(
                if *on {
                    1
                } else {
                    0
                },
            ),
            _ => {
                let d = value.describe();
                Err(cat("UPower cannot take ", d.as_str()))
            },
        }
    }
}

} // verus!
