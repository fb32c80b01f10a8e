//! Giving the fans back.
//!
//! Taking manual control of a fan means writing `pwmN_enable=1`, and from that
//! moment the firmware's thermal management is off. If whatever did that stops
//! running, the fan stays exactly where it was left.
//!
//! So nothing takes control without a `Guard`. It records what each channel
//! was set to before it was touched, and puts it back on `release` and
//! `release_all`. The program that owns a guard calls `release_all` on every
//! way out, from a signal handler and from a watchdog as well.

use vstd::prelude::*;

use crate::sysfs::{
    find_node, lemma_read_after_write, node_exists, pair_views, read_text, text_of, write_result,
    write_verified_result, KindView, Root, RootView, is_writable_file, lemma_write_keeps_shape,
    lemma_writable_file_takes,
};
use crate::text::{cat, cat3, chars_eq, chars_of, lemma_trim_idempotent, trim};

verus! {

/// How a channel was handed back.
#[derive(Clone, Copy, Debug, PartialEq, Eq, Structural)]
pub enum Restored {
    /// To the mode it was found in.
    Original,
    /// The original mode was refused, so to firmware automatic: worse than
    /// the original, far better than manual at whatever was left.
    Automatic,
    /// Both writes failed: the fan is still under manual control, and its
    /// owner needs to be told so.
    Stuck,
}

/// The channels taken over, and what they were.
pub struct Guard {
    root: Root,
    /// `(pwmN_enable path, the value found there before it was written)`,
    /// one entry per path.
    original: Vec<(String, String)>,
}

pub struct GuardView {
    pub root: RootView,
    pub original: Seq<(Seq<char>, Seq<char>)>,
}

impl View for Guard {
    type V = GuardView;

    closed spec fn view(&self) -> GuardView {
        GuardView { root: self.root@, original: pair_views(self.original@) }
    }
}

pub open spec fn keys_distinct(o: Seq<(Seq<char>, Seq<char>)>) -> bool {
    forall|a: int, b: int| 0 <= a < b < o.len() ==> #[trigger] o[a].0 != #[trigger] o[b].0
}

pub open spec fn enable_of(duty: Seq<char>) -> Seq<char> {
    duty + "_enable"@
}

pub open spec fn holds_key(o: Seq<(Seq<char>, Seq<char>)>, k: Seq<char>) -> bool {
    exists|i: int| 0 <= i < o.len() && #[trigger] o[i].0 == k
}

pub open spec fn index_of_key(o: Seq<(Seq<char>, Seq<char>)>, k: Seq<char>) -> Option<int> {
    if holds_key(o, k) {
        Some(choose|i: int| 0 <= i < o.len() && #[trigger] o[i].0 == k)
    } else {
        None
    }
}

/// Put a channel back, and if that fails, fall back to firmware control.
pub open spec fn restore_root(r: RootView, attr: Seq<char>, original: Seq<char>) -> (
    Restored,
    RootView,
) {
    match write_result(r, attr, original) {
        Ok(after) => (Restored::Original, after),
        Err(_) => match write_result(r, attr, "2"@) {
            Ok(after) => (Restored::Automatic, after),
            Err(_) => (Restored::Stuck, r),
        },
    }
}

/// Taking manual control of the channel whose duty attribute is `duty`.
pub open spec fn take_result(g: GuardView, duty: Seq<char>) -> (Result<(), Seq<char>>, GuardView) {
    let e = enable_of(duty);
    if !node_exists(g.root, e) {
        // A driver with a PWM and no enable attribute is always manual.
        (Ok(()), g)
    } else {
        match read_text(g.root, e) {
            None => (Err(e + " is unreadable"@), g),
            Some(current) => if current == "1"@ {
                // Already manual: hand it back to automatic, never to "1",
                // which would leave the fan pinned.
                (
                    Ok(()),
                    if holds_key(g.original, e) {
                        g
                    } else {
                        GuardView { original: g.original.push((e, "2"@)), ..g }
                    },
                )
            } else {
                match write_verified_result(g.root, e, "1"@) {
                    (Err(x), after) => (
                        Err("could not take control of "@ + duty + ": "@ + x),
                        GuardView { root: after, ..g },
                    ),
                    // A channel already held keeps what it was before it
                    // was first touched, whatever firmware has set since.
                    (Ok(()), after) => (
                        Ok(()),
                        if holds_key(g.original, e) {
                            GuardView { root: after, ..g }
                        } else {
                            GuardView { root: after, original: g.original.push((e, current)) }
                        },
                    ),
                }
            },
        }
    }
}

/// A take once its write has been carried out on the machine: where the
/// machine refused the write, the take did not happen -- a channel it had
/// just started to hold is let go, one held from before keeps what it will
/// be handed back to -- and the refusal is the take's error.
pub open spec fn confirm_take_result(
    g: GuardView,
    duty: Seq<char>,
    was_held: bool,
    carried: Result<(), Seq<char>>,
) -> (Result<(), Seq<char>>, GuardView) {
    match carried {
        Ok(()) => (Ok(()), g),
        Err(e) => (
            Err("could not take control of "@ + duty + ": "@ + e),
            if was_held {
                g
            } else {
                match index_of_key(g.original, enable_of(duty)) {
                    Some(i) => GuardView { original: g.original.remove(i), ..g },
                    None => g,
                }
            },
        ),
    }
}

/// Handing a channel back on the machine, one write at a time. `tried` is
/// the write just made (`Original`: the mode it was found in; `Automatic`:
/// firmware automatic; `Stuck`: none), `outcome` how the machine took it.
/// The verdict, or the next write to make: a refused original mode falls
/// back to automatic, and a refused automatic leaves the fan stuck.
pub open spec fn hand_back_step_result(attr: Seq<char>, tried: Restored, outcome: Result<(), Seq<char>>) -> Result<
    Restored,
    (Seq<char>, Seq<char>),
> {
    match (tried, outcome) {
        (Restored::Original, Ok(())) => Ok(Restored::Original),
        (Restored::Original, Err(_)) => Err((attr, "2"@)),
        (Restored::Automatic, Ok(())) => Ok(Restored::Automatic),
        (Restored::Automatic, Err(_)) => Ok(Restored::Stuck),
        (Restored::Stuck, _) => Ok(Restored::Stuck),
    }
}

pub fn hand_back_step(attr: &str, tried: Restored, outcome: Result<(), String>) -> (r: Result<
    Restored,
    (String, String),
>)
    ensures
        match r {
            Ok(how) => hand_back_step_result(
                attr@,
                tried,
                match outcome {
                    Ok(()) => Ok(()),
                    Err(e) => Err(e@),
                },
            ) == Ok::<Restored, (Seq<char>, Seq<char>)>(how),
            Err((p, v)) => hand_back_step_result(
                attr@,
                tried,
                match outcome {
                    Ok(()) => Ok(()),
                    Err(e) => Err(e@),
                },
            ) == Err::<Restored, (Seq<char>, Seq<char>)>((p@, v@)),
        },
{
    match (tried, outcome) {
        (Restored::Original, Ok(())) => Ok(Restored::Original),
        (Restored::Original, Err(_)) => Err((String::from_str(attr), String::from_str("2"))),
        (Restored::Automatic, Ok(())) => Ok(Restored::Automatic),
        (Restored::Automatic, Err(_)) => Ok(Restored::Stuck),
        (Restored::Stuck, _) => Ok(Restored::Stuck),
    }
}

/// Handing one channel back: how, where it was held, and the guard after.
pub open spec fn release_result(g: GuardView, duty: Seq<char>) -> (Option<Restored>, GuardView) {
    let e = enable_of(duty);
    match index_of_key(g.original, e) {
        None => (None, g),
        Some(i) => {
            let (how, after) = restore_root(g.root, e, g.original[i].1);
            (Some(how), GuardView { root: after, original: g.original.remove(i) })
        },
    }
}

/// Handing every channel back, in the order they were taken.
pub open spec fn restore_all(r: RootView, o: Seq<(Seq<char>, Seq<char>)>) -> (
    Seq<(Seq<char>, Restored)>,
    RootView,
)
    decreases o.len(),
{
    if o.len() == 0 {
        (seq![], r)
    } else {
        let (how, r1) = restore_root(r, o[0].0, o[0].1);
        let (rest, r2) = restore_all(r1, o.drop_first());
        (seq![(o[0].0, how)] + rest, r2)
    }
}

proof fn lemma_push_new_key(o: Seq<(Seq<char>, Seq<char>)>, k: Seq<char>, v: Seq<char>)
    requires
        keys_distinct(o),
        !holds_key(o, k),
    ensures
        keys_distinct(o.push((k, v))),
{
    let t = o.push((k, v));
    assert forall|a: int, b: int| 0 <= a < b < t.len() implies #[trigger] t[a].0 != #[trigger] t[b].0 by {
        if b == o.len() {
            if t[a].0 == k {
                assert(o[a].0 == k);
            }
        } else {
            assert(o[a].0 != o[b].0);
        }
    }
}

proof fn lemma_remove_keeps_distinct(o: Seq<(Seq<char>, Seq<char>)>, i: int)
    requires
        keys_distinct(o),
        0 <= i < o.len(),
    ensures
        keys_distinct(o.remove(i)),
{
    let t = o.remove(i);
    assert forall|a: int, b: int| 0 <= a < b < t.len() implies #[trigger] t[a].0 != #[trigger] t[b].0 by {
        if a < i {
            if b < i {
                assert(o[a].0 != o[b].0);
            } else {
                assert(o[a].0 != o[b + 1].0);
            }
        } else {
            assert(o[a + 1].0 != o[b + 1].0);
        }
    }
}

fn restore(root: &mut Root, attr: &str, original: &str) -> (how: Restored)
    ensures
        (how, final(root)@) == restore_root(old(root)@, attr@, original@),
{
    if root.write(attr, original).is_ok() {
        return Restored::Original;
    }
    if root.write(attr, "2").is_ok() {
        return Restored::Automatic;
    }
    Restored::Stuck
}

impl Guard {
    #[verifier::type_invariant]
    spec fn inv(self) -> bool {
        keys_distinct(pair_views(self.original@))
    }

    pub fn new(root: Root) -> (g: Guard)
        ensures
            g@ == (GuardView { root: root@, original: seq![] }),
    {
        let g = Guard { root, original: Vec::new() };
        assert(pair_views(g.original@) =~= Seq::<(Seq<char>, Seq<char>)>::empty());
        g
    }

    /// The guard's root, with the writes it has journalled.
    pub fn root(&self) -> (r: &Root)
        ensures
            r@ == self@.root,
    {
        &self.root
    }

    /// Forget the journal, once the writes in it have been carried out.
    pub fn clear_journal(&mut self)
        ensures
            final(self)@ == (GuardView {
                root: RootView { journal: seq![], ..old(self)@.root },
                ..old(self)@
            }),
    {
        proof {
            use_type_invariant(&*self);
        }
        let mut r = Root::system();
        std::mem::swap(&mut r, &mut self.root);
        r.clear_journal();
        self.root = r;
    }

    /// See the machine as it now is, after the writes journalled so far were
    /// carried out, keeping what is held.
    pub fn observe(&mut self, root: Root)
        ensures
            final(self)@ == (GuardView { root: root@, original: old(self)@.original }),
    {
        proof {
            use_type_invariant(&*self);
        }
        self.root = root;
    }

    fn position(&self, key: &str) -> (r: Option<usize>)
        ensures
            match r {
                Some(i) => i < self@.original.len() && index_of_key(self@.original, key@) == Some(
                    i as int,
                ),
                None => index_of_key(self@.original, key@).is_none(),
            },
    {
        proof {
            use_type_invariant(self);
        }
        let want = chars_of(key);
        let mut i: usize = 0;
        while i < self.original.len()
            invariant
                i <= self.original@.len(),
                want@ == key@,
                keys_distinct(pair_views(self.original@)),
                forall|j: int| 0 <= j < i ==> pair_views(self.original@)[j].0 != key@,
            decreases self.original@.len() - i,
        {
            if chars_eq(&chars_of(self.original[i].0.as_str()), &want) {
                proof {
                    let o = pair_views(self.original@);
                    assert(o[i as int].0 == key@);
                    let k = choose|k: int| 0 <= k < o.len() && #[trigger] o[k].0 == key@;
                    if k != i {
                        if k < i {
                            assert(o[k].0 != o[i as int].0);
                        } else {
                            assert(o[i as int].0 != o[k].0);
                        }
                    }
                }
                return Some(i);
            }
            i = i + 1;
        }
        None
    }

    /// Take manual control of a PWM channel, remembering how to undo it.
    ///
    /// `duty_attr` is the `pwmN` path; the enable attribute is derived,
    /// because hwmon guarantees the naming.
    pub fn take(&mut self, duty_attr: &str) -> (r: Result<(), String>)
        ensures
            ({
                let (verdict, after) = take_result(old(self)@, duty_attr@);
                &&& final(self)@ == after
                &&& keys_distinct(after.original)
                &&& match r {
                    Ok(()) => verdict == Ok::<(), Seq<char>>(()),
                    Err(e) => verdict == Err::<(), Seq<char>>(e@),
                }
            }),
    {
        proof {
            use_type_invariant(&*self);
        }
        let enable = cat(duty_attr, "_enable");
        if !self.root.path_exists(enable.as_str()) {
            return Ok(());
        }
        let current = match self.root.read(enable.as_str()) {
            Some(c) => c,
            None => return Err(cat(enable.as_str(), " is unreadable")),
        };
        let at = self.position(enable.as_str());
        if chars_eq(&chars_of(current.as_str()), &chars_of("1")) {
            if at.is_none() {
                let ghost before = pair_views(self.original@);
                let mut o: Vec<(String, String)> = Vec::new();
                std::mem::swap(&mut o, &mut self.original);
                o.push((enable, String::from_str("2")));
                assert(pair_views(o@) =~= before.push((enable_of(duty_attr@), "2"@)));
                proof {
                    lemma_push_new_key(before, enable_of(duty_attr@), "2"@);
                }
                self.original = o;
            }
            return Ok(());
        }
        let mut r = Root::system();
        std::mem::swap(&mut r, &mut self.root);
        let written = r.write_verified(enable.as_str(), "1");
        self.root = r;
        match written {
            Ok(()) => {},
            Err(e) => return Err(cat3("could not take control of ", duty_attr, ": ").concat(e.as_str())),
        }
        if at.is_none() {
            let ghost before = pair_views(self.original@);
            let ghost cur = read_text(old(self)@.root, enable_of(duty_attr@)).unwrap();
            let mut o: Vec<(String, String)> = Vec::new();
            std::mem::swap(&mut o, &mut self.original);
            o.push((enable, current));
            assert(pair_views(o@) =~= before.push((enable_of(duty_attr@), cur)));
            proof {
                lemma_push_new_key(before, enable_of(duty_attr@), cur);
            }
            self.original = o;
        }
        Ok(())
    }

    /// Settle a take whose write has been carried out on the machine.
    /// `was_held` is whether the channel was held before the take;
    /// `carried` is how carrying out its write went.
    pub fn confirm_take(&mut self, duty_attr: &str, was_held: bool, carried: Result<(), String>) -> (r:
        Result<(), String>)
        ensures
            ({
                let (verdict, after) = confirm_take_result(
                    old(self)@,
                    duty_attr@,
                    was_held,
                    match carried {
                        Ok(()) => Ok(()),
                        Err(e) => Err(e@),
                    },
                );
                &&& final(self)@ == after
                &&& match r {
                    Ok(()) => verdict == Ok::<(), Seq<char>>(()),
                    Err(e) => verdict == Err::<(), Seq<char>>(e@),
                }
            }),
    {
        proof {
            use_type_invariant(&*self);
        }
        let e = match carried {
            Ok(()) => return Ok(()),
            Err(e) => e,
        };
        let msg = cat3("could not take control of ", duty_attr, ": ").concat(e.as_str());
        if was_held {
            return Err(msg);
        }
        let enable = cat(duty_attr, "_enable");
        match self.position(enable.as_str()) {
            None => {},
            Some(i) => {
                let ghost before = pair_views(self.original@);
                let mut o: Vec<(String, String)> = Vec::new();
                std::mem::swap(&mut o, &mut self.original);
                let _ = o.remove(i);
                assert(pair_views(o@) =~= before.remove(i as int));
                proof {
                    lemma_remove_keeps_distinct(before, i as int);
                }
                self.original = o;
            },
        }
        Err(msg)
    }

    /// Whether the channel is held.
    pub fn holds(&self, duty_attr: &str) -> (b: bool)
        ensures
            b == holds_key(self@.original, enable_of(duty_attr@)),
    {
        let enable = cat(duty_attr, "_enable");
        self.position(enable.as_str()).is_some()
    }

    /// The enable attributes held.
    pub fn held(&self) -> (r: Vec<String>)
        ensures
            crate::text::string_views(r@) == Seq::new(
                self@.original.len(),
                |i: int| self@.original[i].0,
            ),
            forall|i: int, j: int| 0 <= i < j < r@.len() ==> #[trigger] r@[i]@ != #[trigger] r@[j]@,
    {
        proof {
            use_type_invariant(self);
        }
        let mut out: Vec<String> = Vec::new();
        let mut i: usize = 0;
        while i < self.original.len()
            invariant
                i <= self.original@.len(),
                crate::text::string_views(out@) =~= Seq::new(
                    i as nat,
                    |k: int| pair_views(self.original@)[k].0,
                ),
            decreases self.original@.len() - i,
        {
            let ghost before = out@;
            out.push(self.original[i].0.clone());
            assert(crate::text::string_views(out@) =~= crate::text::string_views(before).push(
                pair_views(self.original@)[i as int].0,
            ));
            i = i + 1;
        }
        proof {
            let sv = crate::text::string_views(out@);
            let o = pair_views(self.original@);
            assert forall|a: int, b: int| 0 <= a < b < out@.len() implies #[trigger] out@[a]@
                != #[trigger] out@[b]@ by {
                assert(sv[a] == out@[a]@);
                assert(sv[b] == out@[b]@);
                assert(sv[a] == o[a].0);
                assert(sv[b] == o[b].0);
                assert(o[a].0 != o[b].0);
            }
        }
        out
    }

    /// Hand one channel back; `None` where it was not held.
    pub fn release(&mut self, duty_attr: &str) -> (how: Option<Restored>)
        ensures
            (how, final(self)@) == release_result(old(self)@, duty_attr@),
            keys_distinct(final(self)@.original),
    {
        proof {
            use_type_invariant(&*self);
        }
        let enable = cat(duty_attr, "_enable");
        match self.position(enable.as_str()) {
            None => None,
            Some(i) => {
                let ghost before = pair_views(self.original@);
                let mut o: Vec<(String, String)> = Vec::new();
                std::mem::swap(&mut o, &mut self.original);
                let (attr, original) = o.remove(i);
                assert(pair_views(o@) =~= before.remove(i as int));
                proof {
                    assert forall|a: int, b: int|
                        0 <= a < b < pair_views(o@).len() implies #[trigger] pair_views(
                        o@,
                    )[a].0 != #[trigger] pair_views(o@)[b].0 by {
                        let o = before;
                        if a < i {
                            if b < i {
                                assert(o[a].0 != o[b].0);
                            } else {
                                assert(o[a].0 != o[b + 1].0);
                            }
                        } else {
                            assert(o[a + 1].0 != o[b + 1].0);
                        }
                    }
                }
                self.original = o;
                let mut r = Root::system();
                std::mem::swap(&mut r, &mut self.root);
                let how = restore(&mut r, attr.as_str(), original.as_str());
                self.root = r;
                Some(how)
            },
        }
    }

    /// Hand everything back, and say how each channel went. Afterwards
    /// nothing is held, so a second call does nothing.
    pub fn release_all(&mut self) -> (r: Vec<(String, Restored)>)
        ensures
            ({
                let (outcomes, after) = restore_all(old(self)@.root, old(self)@.original);
                &&& final(self)@ == (GuardView { root: after, original: seq![] })
                &&& Seq::new(r@.len(), |i: int| (r@[i].0@, r@[i].1)) == outcomes
            }),
    {
        let mut held: Vec<(String, String)> = Vec::new();
        std::mem::swap(&mut held, &mut self.original);
        assert(pair_views(self.original@) =~= Seq::<(Seq<char>, Seq<char>)>::empty());
        let ghost o = pair_views(held@);
        let ghost r0 = self.root@;
        let mut out: Vec<(String, Restored)> = Vec::new();
        let mut i: usize = 0;
        assert(o.skip(0) =~= o);
        while i < held.len()
            invariant
                i <= held@.len(),
                o == pair_views(held@),
                pair_views(self.original@) == Seq::<(Seq<char>, Seq<char>)>::empty(),
                ({
                    let (all, end) = restore_all(r0, o);
                    let (rest, end2) = restore_all(self.root@, o.skip(i as int));
                    &&& end == end2
                    &&& all == Seq::new(out@.len(), |k: int| (out@[k].0@, out@[k].1)) + rest
                }),
            decreases held@.len() - i,
        {
            let ghost r_before = self.root@;
            let ghost out_before = Seq::new(out@.len(), |k: int| (out@[k].0@, out@[k].1));
            let mut r = Root::system();
            std::mem::swap(&mut r, &mut self.root);
            let how = restore(&mut r, held[i].0.as_str(), held[i].1.as_str());
            self.root = r;
            proof {
                let s = o.skip(i as int);
                assert(s.drop_first() =~= o.skip(i + 1));
                assert(s[0] == o[i as int]);
            }
            out.push((held[i].0.clone(), how));
            proof {
                let now = Seq::new(out@.len(), |k: int| (out@[k].0@, out@[k].1));
                assert(now =~= out_before.push((o[i as int].0, how)));
                let (rest1, _) = restore_all(self.root@, o.skip(i + 1));
                assert(out_before + (seq![(o[i as int].0, how)] + rest1) =~= now + rest1);
            }
            i = i + 1;
        }
        proof {
            assert(o.skip(i as int) =~= Seq::<(Seq<char>, Seq<char>)>::empty());
            let (all, end) = restore_all(r0, o);
            let now = Seq::new(out@.len(), |k: int| (out@[k].0@, out@[k].1));
            assert(all =~= now);
        }
        out
    }
}

proof fn lemma_restore_root(r: RootView, attr: Seq<char>, original: Seq<char>, q: Seq<char>)
    ensures
        ({
            let (how, a) = restore_root(r, attr, original);
            &&& is_writable_file(a, q) == is_writable_file(r, q)
            &&& q != attr ==> read_text(a, q) == read_text(r, q)
            &&& is_writable_file(r, attr) ==> how == Restored::Original && read_text(a, attr) == Some(
                trim(original),
            )
        }),
{
    if write_result(r, attr, original) is Ok {
        lemma_read_after_write(r, attr, original, q);
        lemma_read_after_write(r, attr, original, attr);
        lemma_write_keeps_shape(r, attr, original, q);
    } else {
        if is_writable_file(r, attr) {
            lemma_writable_file_takes(r, attr, original);
        }
        if write_result(r, attr, "2"@) is Ok {
            lemma_read_after_write(r, attr, "2"@, q);
            lemma_write_keeps_shape(r, attr, "2"@, q);
        }
    }
}

proof fn lemma_restore_all(r: RootView, o: Seq<(Seq<char>, Seq<char>)>, q: Seq<char>, k: int)
    requires
        keys_distinct(o),
    ensures
        ({
            let (outs, a) = restore_all(r, o);
            &&& outs.len() == o.len()
            &&& forall|j: int| 0 <= j < o.len() ==> #[trigger] outs[j].0 == o[j].0
            &&& is_writable_file(a, q) == is_writable_file(r, q)
            &&& !holds_key(o, q) ==> read_text(a, q) == read_text(r, q)
            &&& 0 <= k < o.len() && is_writable_file(r, o[k].0) ==> outs[k].1 == Restored::Original
                && read_text(a, o[k].0) == Some(trim(o[k].1))
        }),
    decreases o.len(),
{
    if o.len() > 0 {
        let rest = o.drop_first();
        let (how, r1) = restore_root(r, o[0].0, o[0].1);
        let (more, a) = restore_all(r1, rest);
        assert forall|x: int, y: int| 0 <= x < y < rest.len() implies #[trigger] rest[x].0
            != #[trigger] rest[y].0 by {
            assert(o[x + 1].0 != o[y + 1].0);
        }
        lemma_restore_root(r, o[0].0, o[0].1, q);
        lemma_restore_all(r1, rest, q, k - 1);
        let outs = restore_all(r, o).0;
        assert(outs == seq![(o[0].0, how)] + more);
        assert forall|j: int| 0 <= j < o.len() implies #[trigger] outs[j].0 == o[j].0 by {
            if j > 0 {
                assert(outs[j] == more[j - 1]);
                assert(rest[j - 1] == o[j]);
            }
        }
        if !holds_key(o, q) {
            if holds_key(rest, q) {
                let j = choose|j: int| 0 <= j < rest.len() && #[trigger] rest[j].0 == q;
                assert(o[j + 1].0 == q);
            }
            assert(q != o[0].0) by {
                if q == o[0].0 {
                    assert(o[0].0 == q);
                }
            }
        }
        if 0 <= k < o.len() && is_writable_file(r, o[k].0) {
            if k == 0 {
                lemma_restore_root(r, o[0].0, o[0].1, o[0].0);
                lemma_restore_all(r1, rest, o[0].0, -1);
                if holds_key(rest, o[0].0) {
                    let j = choose|j: int| 0 <= j < rest.len() && #[trigger] rest[j].0 == o[0].0;
                    assert(o[j + 1].0 == o[0].0);
                }
            } else {
                lemma_restore_root(r, o[0].0, o[0].1, o[k].0);
                assert(rest[k - 1] == o[k]);
                assert(outs[k] == more[k - 1]);
            }
        }
    }
}

/// Handing everything back restores every channel held, not some of them:
/// one outcome per channel, in the order they were taken, and each channel
/// whose enable attribute is writable reads again the mode it was found in.
pub proof fn lemma_release_all_restores_every_channel(g: GuardView, k: int)
    requires
        keys_distinct(g.original),
    ensures
        ({
            let (outs, after) = restore_all(g.root, g.original);
            &&& outs.len() == g.original.len()
            &&& forall|j: int| 0 <= j < g.original.len() ==> #[trigger] outs[j].0 == g.original[j].0
            &&& 0 <= k < g.original.len() && is_writable_file(g.root, g.original[k].0) ==> outs[k].1
                == Restored::Original && read_text(after, g.original[k].0) == Some(
                trim(g.original[k].1),
            )
        }),
{
    lemma_restore_all(g.root, g.original, seq![], k);
}

/// What one call undoes: a channel taken by writing `1` over the mode it was
/// in is, on release, written back to that mode, and the attribute reads as
/// it did before the take; the guard holds what it held before.
pub proof fn lemma_release_undoes_take(g: GuardView, duty: Seq<char>)
    requires
        keys_distinct(g.original),
        !holds_key(g.original, enable_of(duty)),
        node_exists(g.root, enable_of(duty)),
        read_text(g.root, enable_of(duty)) matches Some(v) && v != "1"@,
        take_result(g, duty).0 is Ok,
    ensures
        ({
            let taken = take_result(g, duty).1;
            let (how, back) = release_result(taken, duty);
            &&& how == Some(Restored::Original)
            &&& read_text(back.root, enable_of(duty)) == read_text(g.root, enable_of(duty))
            &&& back.original == g.original
        }),
{
    let e = enable_of(duty);
    let v = read_text(g.root, e).unwrap();
    let (_, after) = write_verified_result(g.root, e, "1"@);
    lemma_read_after_write(g.root, e, "1"@, e);
    let taken = take_result(g, duty).1;
    assert(!holds_key(g.original, e));
    assert(taken.original == g.original.push((e, v)));
    let n = g.original.len();
    assert(taken.original[n as int].0 == e);
    let i = index_of_key(taken.original, e).unwrap();
    assert(i == n) by {
        if i != n {
            assert(g.original[i].0 == e);
        }
    }
    lemma_read_after_write(after, e, v, e);
    let k = find_node(g.root.nodes, e).unwrap();
    if let KindView::File(Some(b)) = g.root.nodes[k].kind {
        lemma_trim_idempotent(text_of(b));
    }
    assert(v == trim(v));
    assert(taken.original.remove(n as int) =~= g.original);
}

/// Taking a channel that is already held never changes what it will be
/// handed back to: the mode from before it was first touched is kept,
/// whatever firmware has written there since.
pub proof fn lemma_retaking_keeps_the_first_mode(g: GuardView, duty: Seq<char>)
    requires
        holds_key(g.original, enable_of(duty)),
    ensures
        take_result(g, duty).1.original == g.original,
{
}

/// A take the machine refused leaves the guard holding what it held before:
/// nothing is recorded for a channel that never went manual.
pub proof fn lemma_refused_take_records_nothing(g: GuardView, duty: Seq<char>, e: Seq<char>)
    requires
        keys_distinct(g.original),
        !holds_key(g.original, enable_of(duty)),
    ensures
        confirm_take_result(take_result(g, duty).1, duty, false, Err(e)).1.original == g.original,
        confirm_take_result(take_result(g, duty).1, duty, false, Err(e)).0 is Err,
{
    let k = enable_of(duty);
    let taken = take_result(g, duty).1;
    if taken.original != g.original {
        let n = g.original.len();
        assert(taken.original =~= g.original.push((k, taken.original[n as int].1)));
        assert(taken.original[n as int].0 == k);
        let i = index_of_key(taken.original, k).unwrap();
        assert(i == n) by {
            if i != n {
                assert(g.original[i].0 == k);
            }
        }
        assert(taken.original.remove(n as int) =~= g.original);
    } else {
        assert(!holds_key(taken.original, k));
    }
}

pub open spec fn unit_of(w: Result<RootView, Seq<char>>) -> Result<(), Seq<char>> {
    match w {
        Ok(_) => Ok(()),
        Err(e) => Err(e),
    }
}

/// Handing back one write at a time reaches the same outcome as handing
/// back on the model, whenever the machine takes each write as the model
/// does: the original mode first, automatic only where that was refused.
pub proof fn lemma_hand_back_steps_agree(r: RootView, attr: Seq<char>, original: Seq<char>)
    ensures
        ({
            let first = hand_back_step_result(attr, Restored::Original, unit_of(write_result(r, attr, original)));
            &&& first is Ok ==> first == Ok::<Restored, (Seq<char>, Seq<char>)>(restore_root(r, attr, original).0)
            &&& first is Err ==> first == Err::<Restored, (Seq<char>, Seq<char>)>((attr, "2"@)) && hand_back_step_result(
                attr,
                Restored::Automatic,
                unit_of(write_result(r, attr, "2"@)),
            ) == Ok::<Restored, (Seq<char>, Seq<char>)>(restore_root(r, attr, original).0)
        }),
{
}

/// A channel found already in manual, put there by something else, is handed
/// back to firmware automatic rather than left pinned.
pub proof fn lemma_found_manual_goes_back_to_automatic(g: GuardView, duty: Seq<char>)
    requires
        keys_distinct(g.original),
        !holds_key(g.original, enable_of(duty)),
        read_text(g.root, enable_of(duty)) == Some("1"@),
    ensures
        ({
            let taken = take_result(g, duty).1;
            &&& take_result(g, duty).0 is Ok
            &&& taken.root == g.root
            &&& release_result(taken, duty).1.root == restore_root(g.root, enable_of(duty), "2"@).1
        }),
{
    let e = enable_of(duty);
    assert(node_exists(g.root, e));
    let taken = take_result(g, duty).1;
    let n = g.original.len();
    assert(taken.original[n as int].0 == e);
    let i = index_of_key(taken.original, e).unwrap();
    assert(i == n) by {
        if i != n {
            assert(g.original[i].0 == e);
        }
    }
}

} // verus!
