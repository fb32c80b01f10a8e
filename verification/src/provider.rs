//! The registry that asks each provider what it can see.
//!
//! Providers are ordered generic-first: the LED class before UPower, `hwmon`
//! before anything vendor-shaped, because the generic interface is the one
//! that keeps working when a vendor driver is renamed or rewritten.

use vstd::prelude::*;

use crate::backlight::leds::{knob_views, leds_knobs, leds_set_result, Leds};
use crate::backlight::upower::{route_result, upower_knobs, UPower};
use crate::fan::cooling::{cooling_knobs, cooling_readings, cooling_set_result, CoolingDevices};
use crate::fan::hwmon::{hwmon_knobs, hwmon_readings, hwmon_set_result, reading_views, Hwmon};
use crate::fan::profile::{profile_knobs, profile_set_result, PlatformProfile};
use crate::fan::vendor::{vendor_knobs, vendor_readings, vendor_set_result, VendorKnobs};
use crate::model::{check_result, Knob, KnobView, Reading, ReadingView, Role, Setting, SettingView};
use crate::sysfs::{lemma_read_only_writes, Root, RootView};
use crate::text::{cat, cat3, chars_eq, chars_of, debug_str, debug_string};

verus! {

/// The providers, by name.
#[derive(Clone, Copy, Debug, PartialEq, Eq, Structural)]
pub enum Provider {
    Leds,
    UPower,
    Hwmon,
    PlatformProfile,
    CoolingDevices,
    Vendor,
}

/// Discovery order: keyboard light generic first, then fans generic first.
pub open spec fn provider_order() -> Seq<Provider> {
    seq![
        Provider::Leds,
        Provider::UPower,
        Provider::Hwmon,
        Provider::PlatformProfile,
        Provider::CoolingDevices,
        Provider::Vendor,
    ]
}

/// The short, stable name each provider's knobs carry.
pub open spec fn provider_name(p: Provider) -> Seq<char> {
    match p {
        Provider::Leds => "leds"@,
        Provider::UPower => "upower"@,
        Provider::Hwmon => "hwmon"@,
        Provider::PlatformProfile => "platform-profile"@,
        Provider::CoolingDevices => "cooling-device"@,
        Provider::Vendor => "vendor"@,
    }
}

/// Everything this machine turned out to have.
pub struct Hardware {
    root: Root,
    upower: UPower,
    /// UPower's last reply of `(maximum, current)` keyboard brightness, where
    /// it was asked and answered.
    bus: Option<(i32, i32)>,
}

pub struct HardwareView {
    pub root: RootView,
    pub answered: bool,
    pub bus: Option<(i32, i32)>,
}

impl View for Hardware {
    type V = HardwareView;

    closed spec fn view(&self) -> HardwareView {
        HardwareView { root: self.root@, answered: self.upower.answered, bus: self.bus }
    }
}

pub open spec fn provider_knobs(h: HardwareView, p: Provider) -> Seq<KnobView> {
    match p {
        Provider::Leds => leds_knobs(h.root),
        Provider::UPower => upower_knobs(h.root, h.answered, h.bus),
        Provider::Hwmon => hwmon_knobs(h.root),
        Provider::PlatformProfile => profile_knobs(h.root),
        Provider::CoolingDevices => cooling_knobs(h.root),
        Provider::Vendor => vendor_knobs(h.root),
    }
}

pub open spec fn provider_readings(h: HardwareView, p: Provider) -> Seq<ReadingView> {
    match p {
        Provider::Hwmon => hwmon_readings(h.root),
        Provider::CoolingDevices => cooling_readings(h.root),
        Provider::Vendor => vendor_readings(h.root),
        _ => seq![],
    }
}

/// Every provider's knobs, in discovery order.
pub open spec fn knobs_of(h: HardwareView, ps: Seq<Provider>) -> Seq<KnobView>
    decreases ps.len(),
{
    if ps.len() == 0 {
        seq![]
    } else {
        knobs_of(h, ps.drop_last()) + provider_knobs(h, ps.last())
    }
}

pub open spec fn readings_of(h: HardwareView, ps: Seq<Provider>) -> Seq<ReadingView>
    decreases ps.len(),
{
    if ps.len() == 0 {
        seq![]
    } else {
        readings_of(h, ps.drop_last()) + provider_readings(h, ps.last())
    }
}

/// Some knob of `ks` has id `id`.
pub open spec fn has_id(ks: Seq<KnobView>, id: Seq<char>) -> bool {
    exists|j: int| 0 <= j < ks.len() && #[trigger] ks[j].id == id
}

/// The knobs of `ks` whose id no earlier knob has: the first of each id.
pub open spec fn first_by_id(ks: Seq<KnobView>) -> Seq<KnobView>
    decreases ks.len(),
{
    if ks.len() == 0 {
        seq![]
    } else {
        let rest = first_by_id(ks.drop_last());
        if has_id(ks.drop_last(), ks.last().id) {
            rest
        } else {
            rest.push(ks.last())
        }
    }
}

/// Two providers can reach the same hardware -- UPower and the LED class
/// are the same keyboard light seen twice. The first wins, and the order
/// makes that the generic one.
pub open spec fn hardware_knobs(h: HardwareView) -> Seq<KnobView> {
    first_by_id(knobs_of(h, provider_order()))
}

pub open spec fn hardware_readings(h: HardwareView) -> Seq<ReadingView> {
    readings_of(h, provider_order())
}

pub open spec fn with_role(ks: Seq<KnobView>, role: Role) -> Seq<KnobView>
    decreases ks.len(),
{
    if ks.len() == 0 {
        seq![]
    } else if ks.last().role == role {
        with_role(ks.drop_last(), role).push(ks.last())
    } else {
        with_role(ks.drop_last(), role)
    }
}

/// The first knob with id `id`.
pub open spec fn find_knob(ks: Seq<KnobView>, id: Seq<char>) -> Option<KnobView>
    decreases ks.len(),
{
    if ks.len() == 0 {
        None
    } else if ks[0].id == id {
        Some(ks[0])
    } else {
        find_knob(ks.drop_first(), id)
    }
}

/// How a set was carried out: written through the root, or to be sent to
/// UPower by the program that holds the bus.
#[derive(Clone, Copy, Debug, PartialEq, Eq, Structural)]
pub enum Applied {
    Written,
    ToUPower,
}

pub open spec fn written(v: (Result<(), Seq<char>>, RootView)) -> (Result<Applied, Seq<char>>, RootView) {
    match v.0 {
        Ok(()) => (Ok(Applied::Written), v.1),
        Err(e) => (Err(e), v.1),
    }
}

pub open spec fn provider_set(h: HardwareView, p: Provider, id: Seq<char>, value: SettingView) -> (
    Result<Applied, Seq<char>>,
    RootView,
) {
    match p {
        Provider::Leds => written(leds_set_result(h.root, id, value)),
        Provider::UPower => match route_result(h.answered, id) {
            Ok(()) => (Ok(Applied::ToUPower), h.root),
            Err(e) => (Err(e), h.root),
        },
        Provider::Hwmon => written(hwmon_set_result(h.root, id, value)),
        Provider::PlatformProfile => written(profile_set_result(h.root, id, value)),
        Provider::CoolingDevices => written(cooling_set_result(h.root, id, value)),
        Provider::Vendor => written(vendor_set_result(h.root, id, value)),
    }
}

/// The provider a knob names, the first in discovery order with that name.
pub open spec fn provider_named(name: Seq<char>) -> Option<Provider> {
    find_provider(provider_order(), name)
}

pub open spec fn find_provider(ps: Seq<Provider>, name: Seq<char>) -> Option<Provider>
    decreases ps.len(),
{
    if ps.len() == 0 {
        None
    } else if provider_name(ps[0]) == name {
        Some(ps[0])
    } else {
        find_provider(ps.drop_first(), name)
    }
}

/// What a set does: the value is checked against the domain the knob
/// published, and the knob's writability, before any provider is asked.
pub open spec fn hardware_set_result(h: HardwareView, id: Seq<char>, value: SettingView) -> (
    Result<Applied, Seq<char>>,
    RootView,
) {
    match find_knob(hardware_knobs(h), id) {
        None => (Err("no control called "@ + debug_str(id) + " on this machine"@), h.root),
        Some(k) => match check_result(value, k.domain) {
            Err(e) => (Err(e), h.root),
            Ok(()) => if !k.writable {
                (Err(k.label + " is not writable by this account ("@ + k.origin + ")"@), h.root)
            } else {
                match provider_named(k.provider) {
                    None => (Err("provider "@ + k.provider + " vanished"@), h.root),
                    Some(p) => provider_set(h, p, id, value),
                }
            },
        },
    }
}

fn has_id_exec(ks: &Vec<Knob>, id: &str) -> (b: bool)
    ensures
        b == has_id(knob_views(ks@), id@),
{
    let want = chars_of(id);
    let mut i: usize = 0;
    while i < ks.len()
        invariant
            i <= ks@.len(),
            want@ == id@,
            forall|j: int| 0 <= j < i ==> knob_views(ks@)[j].id != id@,
        decreases ks@.len() - i,
    {
        if chars_eq(&chars_of(ks[i].id.as_str()), &want) {
            assert(knob_views(ks@)[i as int].id == id@);
            return true;
        }
        i = i + 1;
    }
    false
}

proof fn lemma_has_id_push(s: Seq<KnobView>, k: KnobView, id: Seq<char>)
    ensures
        has_id(s.push(k), id) == (has_id(s, id) || k.id == id),
{
    let t = s.push(k);
    if has_id(t, id) {
        let j = choose|j: int| 0 <= j < t.len() && #[trigger] t[j].id == id;
        if j < s.len() {
            assert(s[j].id == id);
        }
    }
    if has_id(s, id) {
        let j = choose|j: int| 0 <= j < s.len() && #[trigger] s[j].id == id;
        assert(t[j].id == id);
    }
    if k.id == id {
        assert(t[s.len() as int].id == id);
    }
}

/// The ids a first-of-each-id selection holds are those of the whole.
proof fn lemma_first_by_id_ids(ks: Seq<KnobView>, id: Seq<char>)
    ensures
        has_id(first_by_id(ks), id) == has_id(ks, id),
    decreases ks.len(),
{
    if ks.len() > 0 {
        let init = ks.drop_last();
        let last = ks.last();
        lemma_first_by_id_ids(init, id);
        assert(ks =~= init.push(last));
        lemma_has_id_push(init, last, id);
        let fi = first_by_id(init);
        if has_id(init, last.id) {
            if last.id == id {
                assert(has_id(init, id));
            }
        } else {
            lemma_has_id_push(fi, last, id);
        }
    }
}

/// Knob `i` of `ks` is the first with its id.
pub open spec fn is_first_at(ks: Seq<KnobView>, i: int) -> bool {
    0 <= i < ks.len() && forall|j: int| 0 <= j < i ==> #[trigger] ks[j].id != ks[i].id
}

pub open spec fn ids_distinct(ks: Seq<KnobView>) -> bool {
    forall|a: int, b: int| 0 <= a < b < ks.len() ==> #[trigger] ks[a].id != #[trigger] ks[b].id
}

/// No two knobs of the selection share an id.
pub proof fn lemma_first_by_id_distinct(ks: Seq<KnobView>)
    ensures
        ids_distinct(first_by_id(ks)),
    decreases ks.len(),
{
    if ks.len() > 0 {
        let init = ks.drop_last();
        let last = ks.last();
        let fi = first_by_id(init);
        lemma_first_by_id_distinct(init);
        if !has_id(init, last.id) {
            lemma_first_by_id_ids(init, last.id);
            let f = fi.push(last);
            assert forall|a: int, b: int| 0 <= a < b < f.len() implies #[trigger] f[a].id
                != #[trigger] f[b].id by {
                assert(f[a] == fi[a]);
                if b == f.len() - 1 {
                    if fi[a].id == last.id {
                        assert(has_id(fi, last.id));
                    }
                } else {
                    assert(f[b] == fi[b]);
                }
            }
        }
    }
}

/// Each knob of the selection is the first of the whole with its id.
pub proof fn lemma_first_by_id_firsts(ks: Seq<KnobView>)
    ensures
        forall|m: int, j: int|
            0 <= m < first_by_id(ks).len() && #[trigger] is_first_at(ks, j) && ks[j].id
                == #[trigger] first_by_id(ks)[m].id ==> ks[j] == first_by_id(ks)[m],
    decreases ks.len(),
{
    if ks.len() > 0 {
        let init = ks.drop_last();
        let last = ks.last();
        let n = ks.len() - 1;
        let fi = first_by_id(init);
        let f = first_by_id(ks);
        lemma_first_by_id_firsts(init);
        lemma_first_by_id_ids(init, last.id);
        assert forall|m: int, j: int|
            0 <= m < f.len() && #[trigger] is_first_at(ks, j) && ks[j].id
                == #[trigger] f[m].id implies ks[j] == f[m] by {
            if j < n {
                assert(init[j] == ks[j]);
                assert forall|k: int| 0 <= k < j implies #[trigger] init[k].id != init[j].id by {
                    assert(init[k] == ks[k]);
                }
                assert(is_first_at(init, j));
                if m < fi.len() {
                    assert(f[m] == fi[m]);
                } else {
                    assert(f[m] == last);
                    assert(has_id(init, last.id));
                }
            } else {
                assert(j == n);
                if has_id(init, last.id) {
                    let k = choose|k: int| 0 <= k < init.len() && #[trigger] init[k].id == last.id;
                    assert(ks[k].id == ks[j].id);
                } else if m < fi.len() {
                    assert(f[m] == fi[m]);
                    assert(has_id(fi, fi[m].id));
                    lemma_first_by_id_ids(init, fi[m].id);
                }
            }
        }
    }
}

/// Two providers can reach the same hardware, but the machine has one
/// control per id: no two knobs share one, each is the first any provider
/// published under its id, and no id any provider published is lost.
pub proof fn lemma_one_knob_per_id(h: HardwareView, id: Seq<char>)
    ensures
        ids_distinct(hardware_knobs(h)),
        forall|m: int, j: int|
            0 <= m < hardware_knobs(h).len() && #[trigger] is_first_at(
                knobs_of(h, provider_order()),
                j,
            ) && knobs_of(h, provider_order())[j].id == #[trigger] hardware_knobs(h)[m].id
                ==> knobs_of(h, provider_order())[j] == hardware_knobs(h)[m],
        has_id(hardware_knobs(h), id) == has_id(knobs_of(h, provider_order()), id),
{
    let ks = knobs_of(h, provider_order());
    lemma_first_by_id_distinct(ks);
    lemma_first_by_id_firsts(ks);
    assert(hardware_knobs(h) == first_by_id(ks));
    lemma_first_by_id_ids(knobs_of(h, provider_order()), id);
}

/// A captured tree is never written to: whatever is set, the root after is
/// the root before.
pub proof fn lemma_captured_tree_is_never_written(h: HardwareView, id: Seq<char>, value: SettingView)
    requires
        h.root.read_only,
    ensures
        hardware_set_result(h, id, value).1 == h.root,
{
    broadcast use lemma_read_only_writes;
}

/// A value that does not fit the knob's domain is refused, with the
/// domain's own complaint, before any write.
pub proof fn lemma_refused_value_is_never_written(h: HardwareView, id: Seq<char>, value: SettingView)
    requires
        find_knob(hardware_knobs(h), id) matches Some(k) && check_result(value, k.domain) is Err,
    ensures
        hardware_set_result(h, id, value).1 == h.root,
        hardware_set_result(h, id, value).0 == Err::<Applied, Seq<char>>(
            check_result(value, find_knob(hardware_knobs(h), id).unwrap().domain)->Err_0,
        ),
{
}

impl Hardware {
    /// Ask every provider what it sees. `upower` says whether the bus
    /// answered on connecting.
    pub fn discover(root: Root, upower: UPower) -> (r: Hardware)
        ensures
            r@ == (HardwareView { root: root@, answered: upower.answered, bus: None }),
    {
        Hardware { root, upower, bus: None }
    }

    pub fn root(&self) -> (r: &Root)
        ensures
            r@ == self@.root,
    {
        &self.root
    }

    /// The root, to carry out or forget the writes it has journalled.
    pub fn root_mut(&mut self) -> (r: &mut Root)
        ensures
            (*r)@ == old(self)@.root,
            final(self)@ == (HardwareView { root: final(r)@, ..old(self)@ }),
    {
        &mut self.root
    }

    pub fn upower(&self) -> (r: &UPower)
        ensures
            r.answered == self@.answered,
    {
        &self.upower
    }

    /// Record UPower's reply, or that there was none.
    pub fn observe_bus(&mut self, reply: Option<(i32, i32)>)
        ensures
            final(self)@ == (HardwareView { bus: reply, ..old(self)@ }),
    {
        self.bus = reply;
    }

    /// The providers, in discovery order.
    pub fn providers(&self) -> (r: Vec<Provider>)
        ensures
            r@ == provider_order(),
    {
        let r = vec![
            Provider::Leds,
            Provider::UPower,
            Provider::Hwmon,
            Provider::PlatformProfile,
            Provider::CoolingDevices,
            Provider::Vendor,
        ];
        assert(r@ =~= provider_order());
        r
    }

    /// A provider's short, stable name.
    pub fn provider_id(p: Provider) -> (r: &'static str)
        ensures
            r@ == provider_name(p),
    {
        match p {
            Provider::Leds => Leds.id(),
            Provider::UPower => self::UPower::new(false).id(),
            Provider::Hwmon => Hwmon.id(),
            Provider::PlatformProfile => PlatformProfile.id(),
            Provider::CoolingDevices => CoolingDevices.id(),
            Provider::Vendor => VendorKnobs.id(),
        }
    }

    /// What one provider sees.
    pub fn knobs_from(&self, p: Provider) -> (r: Vec<Knob>)
        ensures
            knob_views(r@) == provider_knobs(self@, p),
    {
        match p {
            Provider::Leds => Leds.knobs(&self.root),
            Provider::UPower => self.upower.knobs(&self.root, self.bus),
            Provider::Hwmon => Hwmon.knobs(&self.root),
            Provider::PlatformProfile => PlatformProfile.knobs(&self.root),
            Provider::CoolingDevices => CoolingDevices.knobs(&self.root),
            Provider::Vendor => VendorKnobs.knobs(&self.root),
        }
    }

    /// What one provider reads.
    pub fn readings_from(&self, p: Provider) -> (r: Vec<Reading>)
        ensures
            reading_views(r@) == provider_readings(self@, p),
    {
        match p {
            Provider::Hwmon => Hwmon.readings(&self.root),
            Provider::CoolingDevices => CoolingDevices.readings(&self.root),
            Provider::Vendor => VendorKnobs.readings(&self.root),
            _ => {
                let v: Vec<Reading> = Vec::new();
                assert(reading_views(v@) =~= provider_readings(self@, p));
                v
            },
        }
    }

    /// Every knob, the first of each id.
    pub fn knobs(&self) -> (r: Vec<Knob>)
        ensures
            knob_views(r@) == hardware_knobs(self@),
    {
        let ps = self.providers();
        let mut all: Vec<Knob> = Vec::new();
        let mut i: usize = 0;
        while i < ps.len()
            invariant
                i <= ps@.len(),
                ps@ == provider_order(),
                knob_views(all@) == knobs_of(self@, provider_order().take(i as int)),
            decreases ps@.len() - i,
        {
            let mut more = self.knobs_from(ps[i]);
            let ghost before = all@;
            let ghost added = more@;
            all.append(&mut more);
            proof {
                let t = provider_order().take(i + 1);
                assert(t.drop_last() =~= provider_order().take(i as int));
                assert(knob_views(all@) =~= knob_views(before) + knob_views(added));
            }
            i = i + 1;
        }
        assert(provider_order().take(ps@.len() as int) =~= provider_order());
        let ghost whole = knob_views(all@);
        let mut out: Vec<Knob> = Vec::new();
        let mut k: usize = 0;
        while k < all.len()
            invariant
                k <= all@.len(),
                whole == knob_views(all@),
                knob_views(out@) == first_by_id(whole.take(k as int)),
            decreases all@.len() - k,
        {
            proof {
                let t = whole.take(k + 1);
                assert(t.drop_last() =~= whole.take(k as int));
                lemma_first_by_id_ids(whole.take(k as int), whole[k as int].id);
            }
            if !has_id_exec(&out, all[k].id.as_str()) {
                let ghost before = out@;
                out.push(all[k].duplicate());
                assert(knob_views(out@) =~= knob_views(before).push(whole[k as int]));
            }
            k = k + 1;
        }
        assert(whole.take(all@.len() as int) =~= whole);
        out
    }

    /// Every reading, in discovery order.
    pub fn readings(&self) -> (r: Vec<Reading>)
        ensures
            reading_views(r@) == hardware_readings(self@),
    {
        let ps = self.providers();
        let mut all: Vec<Reading> = Vec::new();
        let mut i: usize = 0;
        while i < ps.len()
            invariant
                i <= ps@.len(),
                ps@ == provider_order(),
                reading_views(all@) == readings_of(self@, provider_order().take(i as int)),
            decreases ps@.len() - i,
        {
            let mut more = self.readings_from(ps[i]);
            let ghost before = all@;
            let ghost added = more@;
            all.append(&mut more);
            proof {
                let t = provider_order().take(i + 1);
                assert(t.drop_last() =~= provider_order().take(i as int));
                assert(reading_views(all@) =~= reading_views(before) + reading_views(added));
            }
            i = i + 1;
        }
        assert(provider_order().take(ps@.len() as int) =~= provider_order());
        all
    }

    /// The knobs of one role.
    pub fn knobs_for(&self, role: Role) -> (r: Vec<Knob>)
        ensures
            knob_views(r@) == with_role(hardware_knobs(self@), role),
    {
        let all = self.knobs();
        let ghost whole = knob_views(all@);
        let mut out: Vec<Knob> = Vec::new();
        let mut k: usize = 0;
        while k < all.len()
            invariant
                k <= all@.len(),
                whole == knob_views(all@),
                knob_views(out@) == with_role(whole.take(k as int), role),
            decreases all@.len() - k,
        {
            proof {
                let t = whole.take(k + 1);
                assert(t.drop_last() =~= whole.take(k as int));
            }
            if all[k].role == role {
                let ghost before = out@;
                out.push(all[k].duplicate());
                assert(knob_views(out@) =~= knob_views(before).push(whole[k as int]));
            }
            k = k + 1;
        }
        assert(whole.take(all@.len() as int) =~= whole);
        out
    }

    /// The knob with this id.
    pub fn knob(&self, id: &str) -> (r: Option<Knob>)
        ensures
            match r {
                Some(k) => find_knob(hardware_knobs(self@), id@) == Some(k@),
                None => find_knob(hardware_knobs(self@), id@).is_none(),
            },
    {
        let all = self.knobs();
        let ghost whole = knob_views(all@);
        let want = chars_of(id);
        assert(whole.skip(0) =~= whole);
        let mut k: usize = 0;
        while k < all.len()
            invariant
                k <= all@.len(),
                whole == knob_views(all@),
                whole == hardware_knobs(self@),
                want@ == id@,
                find_knob(whole, id@) == find_knob(whole.skip(k as int), id@),
            decreases all@.len() - k,
        {
            assert(whole.skip(k as int).drop_first() =~= whole.skip(k + 1));
            assert(whole.skip(k as int)[0] == whole[k as int]);
            if chars_eq(&chars_of(all[k].id.as_str()), &want) {
                return Some(all[k].duplicate());
            }
            k = k + 1;
        }
        assert(whole.skip(k as int).len() == 0);
        None
    }

    fn provider_for(name: &str) -> (r: Option<Provider>)
        ensures
            r == provider_named(name@),
    {
        let ps: Vec<Provider> = vec![
            Provider::Leds,
            Provider::UPower,
            Provider::Hwmon,
            Provider::PlatformProfile,
            Provider::CoolingDevices,
            Provider::Vendor,
        ];
        assert(ps@ =~= provider_order());
        let want = chars_of(name);
        let ghost o = provider_order();
        assert(o.skip(0) =~= o);
        let mut i: usize = 0;
        while i < ps.len()
            invariant
                i <= ps@.len(),
                ps@ == o,
                o == provider_order(),
                want@ == name@,
                find_provider(o, name@) == find_provider(o.skip(i as int), name@),
            decreases ps@.len() - i,
        {
            assert(o.skip(i as int).drop_first() =~= o.skip(i + 1));
            assert(o.skip(i as int)[0] == o[i as int]);
            let pid = Self::provider_id(ps[i]);
            if chars_eq(&chars_of(pid), &want) {
                return Some(ps[i]);
            }
            i = i + 1;
        }
        assert(o.skip(i as int).len() == 0);
        None
    }

    /// Route a set to whichever provider owns the knob, after checking the
    /// value against the domain that provider published. A knob of UPower's
    /// comes back as `ToUPower`: the brightness is then sent over the bus.
    pub fn set(&mut self, knob_id: &str, value: &Setting) -> (r: Result<Applied, String>)
        ensures
            ({
                let (verdict, after) = hardware_set_result(old(self)@, knob_id@, value@);
                &&& final(self)@ == (HardwareView { root: after, ..old(self)@ })
                &&& match r {
                    Ok(a) => verdict == Ok::<Applied, Seq<char>>(a),
                    Err(e) => verdict == Err::<Applied, Seq<char>>(e@),
                }
            }),
    {
        let knob = match self.knob(knob_id) {
            Some(k) => k,
            None => {
                let d = debug_string(knob_id);
                return Err(cat3("no control called ", d.as_str(), " on this machine"));
            },
        };
        match value.check(&knob.domain) {
            Ok(()) => {},
            Err(e) => return Err(e),
        }
        if !knob.writable {
            let m = cat3(knob.label.as_str(), " is not writable by this account (", knob.origin.as_str());
            return Err(m.concat(")"));
        }
        let p = match Self::provider_for(knob.provider.as_str()) {
            Some(p) => p,
            None => return Err(cat3("provider ", knob.provider.as_str(), " vanished")),
        };
        let done = match p {
            Provider::Leds => Leds.set(&mut self.root, knob_id, value),
            Provider::UPower => {
                return match self.upower.route(knob_id) {
                    Ok(()) => Ok(Applied::ToUPower),
                    Err(e) => Err(e),
                };
            },
            Provider::Hwmon => Hwmon.set(&mut self.root, knob_id, value),
            Provider::PlatformProfile => PlatformProfile.set(&mut self.root, knob_id, value),
            Provider::CoolingDevices => CoolingDevices.set(&mut self.root, knob_id, value),
            Provider::Vendor => VendorKnobs.set(&mut self.root, knob_id, value),
        };
        match done {
            Ok(()) => Ok(Applied::Written),
            Err(e) => Err(e),
        }
    }
}

} // verus!
