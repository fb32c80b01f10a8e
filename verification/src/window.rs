//! The parts of the window that decide rather than draw: which channels of a
//! multicolour light are red, green and blue, what a read-only row says, how
//! a sensor is named in a sentence, and when the rows must be rebuilt.

use vstd::prelude::*;

use crate::backlight::leds::knob_views;
use crate::client::Via;
use crate::fan::hwmon::reading_views;
use crate::model::{Domain, DomainView, Knob, KnobView, Reading, ReadingView};
use crate::text::{
    cat, cat3, chars_of, decimal, eq_ignore_case, eq_ignore_case_exec, join, join_strings,
    last_index, last_index_exec, slice_to_vec, string_of, string_views, u64_string,
};

verus! {

pub open spec fn is_channel_at(chs: Seq<Seq<char>>, name: Seq<char>, i: int) -> bool {
    0 <= i < chs.len() && eq_ignore_case(chs[i], name) && forall|j: int|
        0 <= j < i ==> !eq_ignore_case(#[trigger] chs[j], name)
}

/// The first channel called `name`, in any case.
pub open spec fn channel_index(chs: Seq<Seq<char>>, name: Seq<char>) -> Option<int> {
    if exists|i: int| is_channel_at(chs, name, i) {
        Some(choose|i: int| is_channel_at(chs, name, i))
    } else {
        None
    }
}

pub open spec fn rgb_of(chs: Seq<Seq<char>>) -> Option<(int, int, int)> {
    match (channel_index(chs, "red"@), channel_index(chs, "green"@), channel_index(chs, "blue"@)) {
        (Some(r), Some(g), Some(b)) => Some((r, g, b)),
        _ => None,
    }
}

fn channel_index_exec(chs: &Vec<String>, name: &str) -> (r: Option<usize>)
    ensures
        match r {
            Some(i) => channel_index(string_views(chs@), name@) == Some(i as int),
            None => channel_index(string_views(chs@), name@).is_none(),
        },
{
    let want = chars_of(name);
    let ghost c = string_views(chs@);
    let mut i: usize = 0;
    while i < chs.len()
        invariant
            i <= chs@.len(),
            c == string_views(chs@),
            want@ == name@,
            forall|j: int| 0 <= j < i ==> !eq_ignore_case(#[trigger] c[j], name@),
        decreases chs@.len() - i,
    {
        if eq_ignore_case_exec(&chars_of(chs[i].as_str()), &want) {
            proof {
                assert(is_channel_at(c, name@, i as int));
                let k = choose|k: int| is_channel_at(c, name@, k);
                assert(k == i) by {
                    if k < i {
                        assert(!eq_ignore_case(c[k], name@));
                    } else if k > i {
                        assert(!eq_ignore_case(c[i as int], name@));
                    }
                }
            }
            return Some(i);
        }
        i = i + 1;
    }
    None
}

/// Which entries of a multicolour LED's `multi_index` are red, green and
/// blue. The kernel promises neither the order nor that those three are
/// what a device has.
pub fn rgb_indices(channels: &Vec<String>) -> (r: Option<(usize, usize, usize)>)
    ensures
        match r {
            Some((a, b, c)) => rgb_of(string_views(channels@)) == Some(
                (a as int, b as int, c as int),
            ),
            None => rgb_of(string_views(channels@)).is_none(),
        },
{
    let r = channel_index_exec(channels, "red");
    let g = channel_index_exec(channels, "green");
    let b = channel_index_exec(channels, "blue");
    match (r, g, b) {
        (Some(r), Some(g), Some(b)) => Some((r, g, b)),
        _ => None,
    }
}

pub open spec fn read_only_text(origin: Seq<char>) -> Seq<char> {
    "Read-only for this account: "@ + origin
        + " is owned by root. Run `imlazy install-udev` to let the video group set it, or start raven-controlsd."@
}

/// What a row that cannot be written says.
pub fn read_only_reason(knob: &Knob) -> (r: String)
    ensures
        r@ == read_only_text(knob@.origin),
{
    cat3(
        "Read-only for this account: ",
        knob.origin.as_str(),
        " is owned by root. Run `imlazy install-udev` to let the video group set it, or start raven-controlsd.",
    )
}

/// The part of a sensor id after its last `/`.
pub open spec fn short_name(id: Seq<char>) -> Seq<char> {
    match last_index(id, '/') {
        Some(i) => id.skip(i + 1),
        None => id,
    }
}

/// `hwmon/nct6798/temp1` reads better as `temp1` in a sentence.
pub fn short_sensor(id: &str) -> (r: String)
    ensures
        r@ == short_name(id@),
{
    let c = chars_of(id);
    match last_index_exec(&c, '/') {
        Some(i) => {
            assert(i < c.len());
            let rest = slice_to_vec(&c, i + 1, c.len());
            assert(rest@ =~= id@.skip(i + 1));
            string_of(&rest)
        },
        None => String::from_str(id),
    }
}

/// A domain as it takes part in the window's signature. A driver can change
/// a domain -- a board moved out of its own automatic mode loses a mode from
/// its menu -- and a menu left listing the old set would write the wrong
/// value.
pub open spec fn domain_tag_of(d: DomainView) -> Seq<char> {
    match d {
        DomainView::Percent { raw_max } => "percent"@ + decimal(raw_max as nat),
        DomainView::Switch => "switch"@,
        DomainView::Modes { options } => "modes["@ + join(options, ","@) + "]"@,
        DomainView::Steps { labels } => "steps"@ + decimal(labels.len()),
        DomainView::Color { channels, raw_max } => "color["@ + join(channels, ","@) + "]"@
            + decimal(raw_max as nat),
    }
}

pub fn domain_tag(domain: &Domain) -> (r: String)
    ensures
        r@ == domain_tag_of(domain@),
{
    match domain {
        Domain::Percent { raw_max } => {
            let n = u64_string(*raw_max as u64);
            cat("percent", n.as_str())
        },
        Domain::Switch => String::from_str("switch"),
        Domain::Modes { options } => {
            let j = join_strings(options, ",");
            cat3("modes[", j.as_str(), "]")
        },
        Domain::Steps { labels } => {
            let n = u64_string(labels.len() as u64);
            cat("steps", n.as_str())
        },
        Domain::Color { channels, raw_max } => {
            let j = join_strings(channels, ",");
            let n = u64_string(*raw_max as u64);
            cat3("color[", j.as_str(), "]").concat(n.as_str())
        },
    }
}

pub open spec fn via_text(v: Via) -> Seq<char> {
    match v {
        Via::Daemon => "Daemon"@,
        Via::Sysfs => "Sysfs"@,
    }
}

pub open spec fn bool_word(b: bool) -> Seq<char> {
    if b {
        "true"@
    } else {
        "false"@
    }
}

pub open spec fn knob_part(k: KnobView) -> Seq<char> {
    k.id + ":"@ + bool_word(k.writable) + ":"@ + domain_tag_of(k.domain)
}

pub open spec fn signature_parts(
    ks: Seq<KnobView>,
    rs: Seq<ReadingView>,
    via: Via,
    driving: nat,
    diagnosis: nat,
) -> Seq<Seq<char>> {
    Seq::new(ks.len(), |i: int| knob_part(ks[i])) + Seq::new(rs.len(), |i: int| rs[i].id) + seq![
        "via="@ + via_text(via),
        "driving="@ + decimal(driving),
        "diagnosis="@ + decimal(diagnosis),
    ]
}

/// What the window is built from. When this changes the rows are rebuilt;
/// while it does not, values are updated in place and a slider under a
/// finger stays put.
pub fn signature(
    knobs: &Vec<Knob>,
    readings: &Vec<Reading>,
    via: Via,
    driving: usize,
    diagnosis: usize,
) -> (r: String)
    ensures
        r@ == join(
            signature_parts(
                knob_views(knobs@),
                reading_views(readings@),
                via,
                driving as nat,
                diagnosis as nat,
            ),
            "|"@,
        ),
{
    let ghost ks = knob_views(knobs@);
    let ghost rs = reading_views(readings@);
    let mut parts: Vec<String> = Vec::new();
    let mut i: usize = 0;
    while i < knobs.len()
        invariant
            i <= knobs@.len(),
            ks == knob_views(knobs@),
            string_views(parts@) =~= Seq::new(i as nat, |k: int| knob_part(ks[k])),
        decreases knobs@.len() - i,
    {
        let tag = domain_tag(&knobs[i].domain);
        let w = if knobs[i].writable {
            "true"
        } else {
            "false"
        };
        let p = cat3(knobs[i].id.as_str(), ":", w).concat(":").concat(tag.as_str());
        let ghost before = parts@;
        parts.push(p);
        assert(string_views(parts@) =~= string_views(before).push(knob_part(ks[i as int])));
        i = i + 1;
    }
    let mut j: usize = 0;
    while j < readings.len()
        invariant
            j <= readings@.len(),
            ks == knob_views(knobs@),
            rs == reading_views(readings@),
            string_views(parts@) =~= Seq::new(ks.len(), |k: int| knob_part(ks[k])) + Seq::new(
                j as nat,
                |k: int| rs[k].id,
            ),
        decreases readings@.len() - j,
    {
        let ghost before = parts@;
        parts.push(readings[j].id.clone());
        assert(string_views(parts@) =~= string_views(before).push(rs[j as int].id));
        j = j + 1;
    }
    let v = match via {
        Via::Daemon => "Daemon",
        Via::Sysfs => "Sysfs",
    };
    let ghost before = parts@;
    parts.push(cat("via=", v));
    let d = u64_string(driving as u64);
    parts.push(cat("driving=", d.as_str()));
    let g = u64_string(diagnosis as u64);
    parts.push(cat("diagnosis=", g.as_str()));
    assert(string_views(parts@) =~= signature_parts(ks, rs, via, driving as nat, diagnosis as nat));
    join_strings(&parts, "|")
}

} // verus!
