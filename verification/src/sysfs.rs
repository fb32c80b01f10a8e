//! Every filesystem access goes through a `Root`.
//!
//! A `Root` holds the part of the machine that discovery looks at: which
//! directories and attributes exist, what each attribute holds, whether this
//! account may write it, and where the few symlinks that matter point. It is
//! filled in from the live `/sys` and `/proc`, or from a captured tree, and
//! the rest of the crate is a function of it.
//!
//! Paths handed to these methods are written absolute, exactly as they appear
//! in kernel documentation. A root over a captured tree is never written to.
//! Writes to a live root are applied to the model and recorded, in order, in
//! its journal; whoever owns the real filesystem carries the journal out.

use vstd::prelude::*;
use vstd::utf8::{decode_utf8, encode_utf8, valid_utf8};

use crate::natural::{lemma_natural_lt_split, lemma_natural_lt_strict, natural_lt, natural_lt_exec};
use crate::text::{
    cat, cat3, chars_eq, chars_of, first_index, first_index_exec, i64_string, parse_i64,
    parse_i64_of, parse_u32, parse_u32_of, signed_decimal, slice_to_vec, starts_with,
    starts_with_exec, string_of, trim, trim_chars, words, words_of, views,
};

verus! {

/// What the standard library's lossy UTF-8 decoding makes of some bytes.
pub uninterp spec fn utf8_lossy(bytes: Seq<u8>) -> Seq<char>;

/// `String::from_utf8_lossy`: the text of an attribute, with any byte that is
/// not UTF-8 replaced. What it makes of invalid bytes is left to the name;
/// valid UTF-8 decodes to exactly its characters, as its documentation says.
#[verifier::external_body]
fn decode_lossy(bytes: &[u8]) -> (s: String)
    ensures
        valid_utf8(bytes@) ==> s@ == decode_utf8(bytes@),
        !valid_utf8(bytes@) ==> s@ == utf8_lossy(bytes@),
{
    String::from_utf8_lossy(bytes).into_owned()
}

/// The text of an attribute's bytes.
pub open spec fn text_of(bytes: Seq<u8>) -> Seq<char> {
    if valid_utf8(bytes) {
        decode_utf8(bytes)
    } else {
        utf8_lossy(bytes)
    }
}

/// What sits at a path.
pub enum NodeKind {
    Dir,
    /// An attribute, with its bytes, or `None` when it exists but refuses to
    /// be read, as many sysfs attributes do.
    File { data: Option<Vec<u8>> },
    /// A symlink, by the file name of its target.
    Link { target: String },
}

pub struct Node {
    /// Absolute, with no trailing `/`: `/sys/class/leds/x/brightness`.
    pub path: String,
    pub kind: NodeKind,
    /// Whether this account could open it for writing.
    pub writable: bool,
}

pub enum KindView {
    Dir,
    File(Option<Seq<u8>>),
    Link(Seq<char>),
}

pub struct NodeView {
    pub path: Seq<char>,
    pub kind: KindView,
    pub writable: bool,
}

impl View for NodeKind {
    type V = KindView;

    open spec fn view(&self) -> KindView {
        match self {
            NodeKind::Dir => KindView::Dir,
            NodeKind::File { data } => KindView::File(
                match data {
                    Some(d) => Some(d@),
                    None => None,
                },
            ),
            NodeKind::Link { target } => KindView::Link(target@),
        }
    }
}

impl View for Node {
    type V = NodeView;

    open spec fn view(&self) -> NodeView {
        NodeView { path: self.path@, kind: self.kind@, writable: self.writable }
    }
}

pub struct Root {
    base: String,
    /// A captured tree is never written to.
    read_only: bool,
    nodes: Vec<Node>,
    journal: Vec<(String, String)>,
}

pub struct RootView {
    pub base: Seq<char>,
    pub read_only: bool,
    pub nodes: Seq<NodeView>,
    /// Every successful write, oldest first, as `(path, value)`.
    pub journal: Seq<(Seq<char>, Seq<char>)>,
}

pub open spec fn pair_views(v: Seq<(String, String)>) -> Seq<(Seq<char>, Seq<char>)> {
    Seq::new(v.len(), |i: int| (v[i].0@, v[i].1@))
}

pub open spec fn node_views(v: Seq<Node>) -> Seq<NodeView> {
    Seq::new(v.len(), |i: int| v[i]@)
}

impl View for Root {
    type V = RootView;

    closed spec fn view(&self) -> RootView {
        RootView {
            base: self.base@,
            read_only: self.read_only,
            nodes: node_views(self.nodes@),
            journal: pair_views(self.journal@),
        }
    }
}

// ---- the model ----------------------------------------------------------------

pub open spec fn is_node_at(nodes: Seq<NodeView>, p: Seq<char>, i: int) -> bool {
    0 <= i < nodes.len() && nodes[i].path == p && forall|j: int|
        i < j < nodes.len() ==> nodes[j].path != p
}

/// Which node holds path `p`, when one does.
pub open spec fn find_node(nodes: Seq<NodeView>, p: Seq<char>) -> Option<int> {
    if exists|i: int| is_node_at(nodes, p, i) {
        Some(choose|i: int| is_node_at(nodes, p, i))
    } else {
        None
    }
}

pub open spec fn node_exists(r: RootView, p: Seq<char>) -> bool {
    find_node(r.nodes, p).is_some()
}

/// `Root::read`: the trimmed text of a readable attribute.
pub open spec fn read_text(r: RootView, p: Seq<char>) -> Option<Seq<char>> {
    match find_node(r.nodes, p) {
        Some(i) => match r.nodes[i].kind {
            KindView::File(Some(bytes)) => Some(trim(text_of(bytes))),
            _ => None,
        },
        None => None,
    }
}

/// The raw bytes of a readable attribute, for a file that is not text.
pub open spec fn read_bytes(r: RootView, p: Seq<char>) -> Option<Seq<u8>> {
    match find_node(r.nodes, p) {
        Some(i) => match r.nodes[i].kind {
            KindView::File(Some(bytes)) => Some(bytes),
            _ => None,
        },
        None => None,
    }
}

pub open spec fn read_u32(r: RootView, p: Seq<char>) -> Option<u32> {
    match read_text(r, p) {
        Some(t) => parse_u32(t),
        None => None,
    }
}

pub open spec fn read_i64(r: RootView, p: Seq<char>) -> Option<i64> {
    match read_text(r, p) {
        Some(t) => parse_i64(t),
        None => None,
    }
}

/// Every word parsed as a `u32`, or `None` if one is not.
pub open spec fn parse_u32_all(ws: Seq<Seq<char>>) -> Option<Seq<u32>>
    decreases ws.len(),
{
    if ws.len() == 0 {
        Some(seq![])
    } else {
        match (parse_u32_all(ws.drop_last()), parse_u32(ws.last())) {
            (Some(front), Some(v)) => Some(front.push(v)),
            _ => None,
        }
    }
}

pub open spec fn read_u32_list(r: RootView, p: Seq<char>) -> Option<Seq<u32>> {
    match read_text(r, p) {
        Some(t) => parse_u32_all(words(t)),
        None => None,
    }
}

pub open spec fn link_target(r: RootView, p: Seq<char>) -> Option<Seq<char>> {
    match find_node(r.nodes, p) {
        Some(i) => match r.nodes[i].kind {
            KindView::Link(t) => Some(t),
            _ => None,
        },
        None => None,
    }
}

pub open spec fn is_writable(r: RootView, p: Seq<char>) -> bool {
    !r.read_only && match find_node(r.nodes, p) {
        Some(i) => r.nodes[i].writable,
        None => false,
    }
}

/// `s` with every trailing `c` removed.
pub open spec fn trim_end_char(s: Seq<char>, c: char) -> Seq<char>
    decreases s.len(),
{
    if s.len() > 0 && s.last() == c {
        trim_end_char(s.drop_last(), c)
    } else {
        s
    }
}

/// `s` with every leading `c` removed.
pub open spec fn trim_start_char(s: Seq<char>, c: char) -> Seq<char>
    decreases s.len(),
{
    if s.len() > 0 && s[0] == c {
        trim_start_char(s.drop_first(), c)
    } else {
        s
    }
}

/// The entry of node path `p` in directory `prefix` (which ends in `/`).
pub open spec fn child_name(p: Seq<char>, prefix: Seq<char>) -> Option<Seq<char>> {
    if starts_with(p, prefix) && p.len() > prefix.len() && first_index(
        p.skip(prefix.len() as int),
        '/',
    ).is_none() {
        Some(p.skip(prefix.len() as int))
    } else {
        None
    }
}

/// The direct children of the directory whose paths start with `prefix`, as
/// `(name, path)`, in the order the nodes were recorded.
pub open spec fn children(nodes: Seq<NodeView>, prefix: Seq<char>) -> Seq<
    (Seq<char>, Seq<char>),
>
    decreases nodes.len(),
{
    if nodes.len() == 0 {
        seq![]
    } else {
        let rest = children(nodes.drop_last(), prefix);
        match child_name(nodes.last().path, prefix) {
            Some(name) => rest.push((name, nodes.last().path)),
            None => rest,
        }
    }
}

/// Insert `x` into `s` after every entry that does not sort after it.
pub open spec fn insert_natural(s: Seq<(Seq<char>, Seq<char>)>, x: (Seq<char>, Seq<char>)) -> Seq<
    (Seq<char>, Seq<char>),
>
    decreases s.len(),
{
    if s.len() == 0 {
        seq![x]
    } else if natural_lt(x.0, s.last().0) {
        insert_natural(s.drop_last(), x).push(s.last())
    } else {
        s.push(x)
    }
}

/// Entries in natural order of their names; entries whose names compare
/// equal keep their order, as a stable sort leaves them.
pub open spec fn natural_sort(s: Seq<(Seq<char>, Seq<char>)>) -> Seq<(Seq<char>, Seq<char>)>
    decreases s.len(),
{
    if s.len() == 0 {
        seq![]
    } else {
        insert_natural(natural_sort(s.drop_last()), s.last())
    }
}

/// `Root::list`: the entries of a directory, as `(name, absolute path)`, in
/// natural order.
pub open spec fn list_dir(r: RootView, dir: Seq<char>) -> Seq<(Seq<char>, Seq<char>)> {
    natural_sort(children(r.nodes, trim_end_char(dir, '/').push('/')))
}

/// `Path::join` of a relative path onto the base.
pub open spec fn join_path(base: Seq<char>, rel: Seq<char>) -> Seq<char> {
    if base.len() == 0 {
        rel
    } else if base.last() == '/' {
        base + rel
    } else {
        base + seq!['/'] + rel
    }
}

/// The message a write to a captured tree fails with.
pub open spec fn read_only_message(p: Seq<char>) -> Seq<char> {
    p + ": this Root is a captured tree, not the live machine"@
}

/// What a write of `v` to `p` does to the model: `Ok` with the root after it,
/// or the error the write fails with.
pub open spec fn write_result(r: RootView, p: Seq<char>, v: Seq<char>) -> Result<RootView, Seq<char>> {
    if r.read_only {
        Err(read_only_message(p))
    } else {
        match find_node(r.nodes, p) {
            None => Err("No such file or directory (os error 2)"@),
            Some(i) => match r.nodes[i].kind {
                KindView::File(_) => if r.nodes[i].writable {
                    Ok(
                        RootView {
                            nodes: r.nodes.update(
                                i,
                                NodeView {
                                    path: p,
                                    kind: KindView::File(Some(encode_utf8(v))),
                                    writable: true,
                                },
                            ),
                            journal: r.journal.push((p, v)),
                            ..r
                        },
                    )
                } else {
                    Err("Permission denied (os error 13)"@)
                },
                _ => Err("Permission denied (os error 13)"@),
            },
        }
    }
}

/// The verdict on a write of `v` to `p` whose attribute then read back as
/// `back`: only a parsed disagreement is a failure, because not every
/// attribute reads back what was written.
pub open spec fn read_back_result(p: Seq<char>, v: Seq<char>, back: Option<Seq<char>>) -> Result<
    (),
    Seq<char>,
> {
    match back {
        Some(b) => match (parse_i64(b), parse_i64(v)) {
            (Some(got), Some(want)) => if got != want {
                Err(
                    p + ": wrote "@ + signed_decimal(want as int) + ", firmware kept "@
                        + signed_decimal(got as int)
                        + ". The embedded controller is refusing to hand over this channel."@,
                )
            } else {
                Ok(())
            },
            _ => Ok(()),
        },
        None => Ok(()),
    }
}

// ---- the code ------------------------------------------------------------------

impl Default for Root {
    /// The live machine, as `system` gives it.
    fn default() -> (r: Root)
        ensures
            r@.base == "/"@,
            !r@.read_only,
            r@.nodes.len() == 0,
            r@.journal.len() == 0,
    {
        Root::system()
    }
}

impl Root {
    /// The live machine.
    pub fn system() -> (r: Root)
        ensures
            r@.base == "/"@,
            !r@.read_only,
            r@.nodes.len() == 0,
            r@.journal.len() == 0,
    {
        Root {
            base: String::from_str("/"),
            read_only: false,
            nodes: Vec::new(),
            journal: Vec::new(),
        }
    }

    /// A captured tree. Writes against it fail rather than escaping into `/`.
    pub fn at(base: &str) -> (r: Root)
        ensures
            r@.base == base@,
            r@.read_only,
            r@.nodes.len() == 0,
            r@.journal.len() == 0,
    {
        Root {
            base: String::from_str(base),
            read_only: true,
            nodes: Vec::new(),
            journal: Vec::new(),
        }
    }

    pub fn is_live(&self) -> (b: bool)
        ensures
            b == !self@.read_only,
    {
        !self.read_only
    }

    pub fn base(&self) -> (b: &str)
        ensures
            b@ == self@.base,
    {
        self.base.as_str()
    }

    /// Writes carried out on this root, oldest first.
    pub fn journal(&self) -> (j: &Vec<(String, String)>)
        ensures
            pair_views(j@) == self@.journal,
    {
        &self.journal
    }

    /// Forget the journal, once its writes have been carried out.
    pub fn clear_journal(&mut self)
        ensures
            final(self)@ == (RootView { journal: seq![], ..old(self)@ }),
    {
        self.journal = Vec::new();
        assert(pair_views(self.journal@) =~= Seq::<(Seq<char>, Seq<char>)>::empty());
    }

    fn find(&self, p: &[char]) -> (r: Option<usize>)
        ensures
            match r {
                Some(i) => i < self@.nodes.len() && find_node(self@.nodes, p@) == Some(i as int),
                None => find_node(self@.nodes, p@).is_none(),
            },
    {
        let mut i = self.nodes.len();
        while i > 0
            invariant
                i <= self.nodes@.len(),
                forall|j: int| i <= j < self.nodes@.len() ==> self@.nodes[j].path != p@,
            decreases i,
        {
            let here = chars_of(self.nodes[i - 1].path.as_str());
            if chars_eq(&here, p) {
                proof {
                    let nodes = self@.nodes;
                    assert(is_node_at(nodes, p@, i - 1));
                    let k = choose|k: int| is_node_at(nodes, p@, k);
                    assert(k == i - 1) by {
                        if k < i - 1 {
                        } else if k > i - 1 {
                        }
                    }
                }
                return Some(i - 1);
            }
            i = i - 1;
        }
        None
    }

    /// Record `node`, replacing whatever was recorded at its path.
    pub fn add(&mut self, node: Node)
        ensures
            final(self)@.base == old(self)@.base,
            final(self)@.read_only == old(self)@.read_only,
            final(self)@.journal == old(self)@.journal,
            final(self)@.nodes == (match find_node(old(self)@.nodes, node@.path) {
                Some(i) => old(self)@.nodes.update(i, node@),
                None => old(self)@.nodes.push(node@),
            }),
    {
        let p = chars_of(node.path.as_str());
        match self.find(&p) {
            Some(i) => {
                self.nodes.set(i, node);
                assert(node_views(self.nodes@) =~= old(self)@.nodes.update(i as int, node@));
            },
            None => {
                self.nodes.push(node);
                assert(node_views(self.nodes@) =~= old(self)@.nodes.push(node@));
            },
        }
    }

    /// Join an absolute kernel path onto the root.
    pub fn path(&self, absolute: &str) -> (r: String)
        ensures
            r@ == join_path(self@.base, trim_start_char(absolute@, '/')),
    {
        let a = chars_of(absolute);
        let mut k: usize = 0;
        assert(a@.skip(0) =~= a@);
        while k < a.len() && a[k] == '/'
            invariant
                k <= a@.len(),
                trim_start_char(absolute@, '/') == trim_start_char(a@.skip(k as int), '/'),
            decreases a@.len() - k,
        {
            assert(a@.skip(k as int).drop_first() =~= a@.skip(k + 1));
            k = k + 1;
        }
        let rel = slice_to_vec(&a, k, a.len());
        assert(rel@ =~= a@.skip(k as int));
        let rel = string_of(&rel);
        let b = chars_of(self.base.as_str());
        if b.len() == 0 {
            rel
        } else if b[b.len() - 1] == '/' {
            cat(self.base.as_str(), rel.as_str())
        } else {
            proof {
                reveal_strlit("/");
            }
            cat3(self.base.as_str(), "/", rel.as_str())
        }
    }

    pub fn path_exists(&self, absolute: &str) -> (b: bool)
        ensures
            b == node_exists(self@, absolute@),
    {
        let p = chars_of(absolute);
        self.find(&p).is_some()
    }

    /// Trimmed file contents, or `None` for anything unreadable. A driver
    /// that refuses to answer is, for our purposes, one that is not there.
    pub fn read(&self, absolute: &str) -> (r: Option<String>)
        ensures
            match r {
                Some(s) => read_text(self@, absolute@) == Some(s@),
                None => read_text(self@, absolute@).is_none(),
            },
    {
        let p = chars_of(absolute);
        match self.find(&p) {
            Some(i) => match &self.nodes[i].kind {
                NodeKind::File { data: Some(bytes) } => {
                    let text = decode_lossy(bytes.as_slice());
                    let t = chars_of(text.as_str());
                    let t = trim_chars(&t);
                    Some(string_of(&t))
                },
                _ => None,
            },
            None => None,
        }
    }

    /// The bytes of a file, untouched: reading a compressed file as text
    /// first would mangle it.
    pub fn read_bytes(&self, absolute: &str) -> (r: Option<&[u8]>)
        ensures
            match r {
                Some(b) => read_bytes(self@, absolute@) == Some(b@),
                None => read_bytes(self@, absolute@).is_none(),
            },
    {
        let p = chars_of(absolute);
        match self.find(&p) {
            Some(i) => match &self.nodes[i].kind {
                NodeKind::File { data: Some(bytes) } => Some(bytes.as_slice()),
                _ => None,
            },
            None => None,
        }
    }

    pub fn read_u32(&self, absolute: &str) -> (r: Option<u32>)
        ensures
            r == read_u32(self@, absolute@),
    {
        match self.read(absolute) {
            Some(t) => {
                let c = chars_of(t.as_str());
                parse_u32_of(&c)
            },
            None => None,
        }
    }

    pub fn read_i64(&self, absolute: &str) -> (r: Option<i64>)
        ensures
            r == read_i64(self@, absolute@),
    {
        match self.read(absolute) {
            Some(t) => {
                let c = chars_of(t.as_str());
                parse_i64_of(&c)
            },
            None => None,
        }
    }

    /// Whitespace-separated integers, for the multicolour LED class's
    /// `multi_intensity` and friends.
    pub fn read_u32_list(&self, absolute: &str) -> (r: Option<Vec<u32>>)
        ensures
            match r {
                Some(v) => read_u32_list(self@, absolute@) == Some(v@),
                None => read_u32_list(self@, absolute@).is_none(),
            },
    {
        let t = match self.read(absolute) {
            Some(t) => t,
            None => return None,
        };
        let c = chars_of(t.as_str());
        let ws = words_of(&c);
        let mut out: Vec<u32> = Vec::new();
        let mut k: usize = 0;
        while k < ws.len()
            invariant
                k <= ws@.len(),
                views(ws@) == words(c@),
                read_text(self@, absolute@) == Some(c@),
                parse_u32_all(views(ws@).take(k as int)) == Some(out@),
            decreases ws@.len() - k,
        {
            proof {
                assert(views(ws@).take(k + 1).drop_last() =~= views(ws@).take(k as int));
            }
            match parse_u32_of(&ws[k]) {
                Some(v) => out.push(v),
                None => {
                    proof {
                        assert(views(ws@)[k as int] == ws@[k as int]@);
                        lemma_parse_all_none(views(ws@), k as int);
                    }
                    return None;
                },
            }
            k = k + 1;
        }
        assert(views(ws@).take(ws@.len() as int) =~= views(ws@));
        Some(out)
    }

    /// The file name of the target of the symlink at `absolute`.
    pub fn read_link(&self, absolute: &str) -> (r: Option<String>)
        ensures
            match r {
                Some(s) => link_target(self@, absolute@) == Some(s@),
                None => link_target(self@, absolute@).is_none(),
            },
    {
        let p = chars_of(absolute);
        match self.find(&p) {
            Some(i) => match &self.nodes[i].kind {
                NodeKind::Link { target } => Some(target.clone()),
                _ => None,
            },
            None => None,
        }
    }

    /// Can this account write the attribute? A captured tree never can.
    pub fn writable(&self, absolute: &str) -> (b: bool)
        ensures
            b == is_writable(self@, absolute@),
    {
        if self.read_only {
            return false;
        }
        let p = chars_of(absolute);
        match self.find(&p) {
            Some(i) => self.nodes[i].writable,
            None => false,
        }
    }
}

/// What `write_verified` of `v` to `p` does: its verdict, and the root after.
pub open spec fn write_verified_result(r: RootView, p: Seq<char>, v: Seq<char>) -> (
    Result<(), Seq<char>>,
    RootView,
) {
    match write_result(r, p, v) {
        Err(e) => (Err(p + ": "@ + e), r),
        Ok(after) => (read_back_result(p, v, read_text(after, p)), after),
    }
}

/// Judge a write of `value` to `absolute` by what the attribute read back as
/// afterwards. Not every attribute reads back what was written -- some round,
/// some are write-only -- so only a parsed mismatch is a failure.
pub fn check_read_back(absolute: &str, value: &str, back: Option<&str>) -> (r: Result<(), String>)
    ensures
        match r {
            Ok(()) => read_back_result(
                absolute@,
                value@,
                match back {
                    Some(b) => Some(b@),
                    None => None,
                },
            ) == Ok::<(), Seq<char>>(()),
            Err(e) => read_back_result(
                absolute@,
                value@,
                match back {
                    Some(b) => Some(b@),
                    None => None,
                },
            ) == Err::<(), Seq<char>>(e@),
        },
{
    let b = match back {
        Some(b) => b,
        None => return Ok(()),
    };
    let bc = chars_of(b);
    let vc = chars_of(value);
    match (parse_i64_of(&bc), parse_i64_of(&vc)) {
        (Some(got), Some(want)) => {
            if got != want {
                let w = i64_string(want);
                let g = i64_string(got);
                let m = cat3(absolute, ": wrote ", w.as_str());
                let m = cat3(m.as_str(), ", firmware kept ", g.as_str());
                let m = cat(
                    m.as_str(),
                    ". The embedded controller is refusing to hand over this channel.",
                );
                Err(m)
            } else {
                Ok(())
            }
        },
        _ => Ok(()),
    }
}

pub open spec fn opt_view(o: Option<String>) -> Option<Seq<char>> {
    match o {
        Some(s) => Some(s@),
        None => None,
    }
}

/// What a write carried out on the machine comes to: the error the write
/// itself gave, or the verdict on what the attribute read back as after it.
pub open spec fn write_outcome_result(p: Seq<char>, v: Seq<char>, outcome: Result<
    Option<Seq<char>>,
    Seq<char>,
>) -> Result<(), Seq<char>> {
    match outcome {
        Err(e) => Err(p + ": "@ + e),
        Ok(back) => read_back_result(p, v, back),
    }
}

/// Judge one write made on the machine, the way `write_verified` judges one
/// made on the model: `outcome` is the write's own error, or what reading
/// the attribute back gave.
pub fn write_outcome(absolute: &str, value: &str, outcome: Result<Option<String>, String>) -> (r:
    Result<(), String>)
    ensures
        match r {
            Ok(()) => write_outcome_result(
                absolute@,
                value@,
                match outcome {
                    Ok(b) => Ok(opt_view(b)),
                    Err(e) => Err(e@),
                },
            ) == Ok::<(), Seq<char>>(()),
            Err(e) => write_outcome_result(
                absolute@,
                value@,
                match outcome {
                    Ok(b) => Ok(opt_view(b)),
                    Err(e) => Err(e@),
                },
            ) == Err::<(), Seq<char>>(e@),
        },
{
    match outcome {
        Err(e) => Err(cat3(absolute, ": ", e.as_str())),
        Ok(Some(b)) => check_read_back(absolute, value, Some(b.as_str())),
        Ok(None) => check_read_back(absolute, value, None),
    }
}

/// Carrying a journal out on the machine, after write `i` and what it gave:
/// the next write to make, `None` when it was the last, or the refusal that
/// ends it. A journal holds one operation's writes, each made on the
/// strength of the ones before -- a duty is written only once the channel is
/// manual -- so nothing after a refused write is made.
pub open spec fn carry_step_result(
    journal: Seq<(Seq<char>, Seq<char>)>,
    i: int,
    outcome: Result<Option<Seq<char>>, Seq<char>>,
) -> Result<Option<int>, Seq<char>> {
    match write_outcome_result(journal[i].0, journal[i].1, outcome) {
        Err(e) => Err(e),
        Ok(()) => if i + 1 < journal.len() {
            Ok(Some(i + 1))
        } else {
            Ok(None)
        },
    }
}

pub fn carry_step(journal: &Vec<(String, String)>, i: usize, outcome: Result<Option<String>, String>) -> (r:
    Result<Option<usize>, String>)
    requires
        i < journal@.len(),
    ensures
        ({
            let want = carry_step_result(
                pair_views(journal@),
                i as int,
                match outcome {
                    Ok(b) => Ok(opt_view(b)),
                    Err(e) => Err(e@),
                },
            );
            match r {
                Ok(Some(n)) => want == Ok::<Option<int>, Seq<char>>(Some(n as int)),
                Ok(None) => want == Ok::<Option<int>, Seq<char>>(None),
                Err(e) => want == Err::<Option<int>, Seq<char>>(e@),
            }
        }),
{
    let (p, v) = (journal[i].0.as_str(), journal[i].1.as_str());
    match write_outcome(p, v, outcome) {
        Err(e) => Err(e),
        Ok(()) => if i < journal.len() - 1 {
            Ok(Some(i + 1))
        } else {
            Ok(None)
        },
    }
}

/// Insert `x` into `out` after every entry that does not sort after it.
fn insert_natural_exec(out: &mut Vec<(String, String)>, x: (String, String))
    ensures
        pair_views(final(out)@) == insert_natural(pair_views(old(out)@), (x.0@, x.1@)),
{
    let ghost s = pair_views(out@);
    let ghost xv = (x.0@, x.1@);
    let xc = chars_of(x.0.as_str());
    let mut j = out.len();
    assert(s.take(j as int) =~= s);
    assert(s.skip(j as int) =~= Seq::<(Seq<char>, Seq<char>)>::empty());
    loop
        invariant
            j <= out@.len(),
            out@ == old(out)@,
            s == pair_views(out@),
            xv == (x.0@, x.1@),
            xc@ == x.0@,
            insert_natural(s, xv) == insert_natural(s.take(j as int), xv) + s.skip(j as int),
        ensures
            j <= out@.len(),
            out@ == old(out)@,
            s == pair_views(out@),
            insert_natural(s, xv) == insert_natural(s.take(j as int), xv) + s.skip(j as int),
            j == 0 || !natural_lt(xv.0, s[j - 1].0),
        decreases j,
    {
        if j == 0 {
            break;
        }
        let yc = chars_of(out[j - 1].0.as_str());
        if !natural_lt_exec(&xc, &yc) {
            break;
        }
        proof {
            let t = s.take(j as int);
            assert(t.last() == s[j - 1]);
            assert(t.drop_last() =~= s.take(j - 1));
            assert(insert_natural(t, xv) == insert_natural(s.take(j - 1), xv).push(s[j - 1]));
            assert(insert_natural(s.take(j - 1), xv).push(s[j - 1]) + s.skip(j as int)
                =~= insert_natural(s.take(j - 1), xv) + s.skip(j - 1));
        }
        j = j - 1;
    }
    out.insert(j, x);
    proof {
        let t = s.take(j as int);
        if j > 0 {
            assert(t.last() == s[j - 1]);
        } else {
            assert(t =~= Seq::<(Seq<char>, Seq<char>)>::empty());
            assert(insert_natural(t, xv) =~= t.push(xv));
        }
        assert(pair_views(out@) =~= t.push(xv) + s.skip(j as int));
    }
}

/// Entries in natural order of their names, equal names kept in order.
fn sort_natural(v: &Vec<(String, String)>) -> (r: Vec<(String, String)>)
    ensures
        pair_views(r@) == natural_sort(pair_views(v@)),
{
    let mut out: Vec<(String, String)> = Vec::new();
    let mut i: usize = 0;
    while i < v.len()
        invariant
            i <= v@.len(),
            pair_views(out@) == natural_sort(pair_views(v@).take(i as int)),
        decreases v@.len() - i,
    {
        let x = (v[i].0.clone(), v[i].1.clone());
        insert_natural_exec(&mut out, x);
        proof {
            let t = pair_views(v@).take(i + 1);
            assert(t.drop_last() =~= pair_views(v@).take(i as int));
        }
        i = i + 1;
    }
    assert(pair_views(v@).take(v@.len() as int) =~= pair_views(v@));
    out
}

/// The name of the entry `path` within the directory `prefix`, if it is one.
fn child_name_exec(path: &[char], prefix: &[char]) -> (r: Option<Vec<char>>)
    ensures
        match r {
            Some(n) => child_name(path@, prefix@) == Some(n@),
            None => child_name(path@, prefix@).is_none(),
        },
{
    if !starts_with_exec(path, prefix) || path.len() <= prefix.len() {
        return None;
    }
    let rest = slice_to_vec(path, prefix.len(), path.len());
    assert(rest@ =~= path@.skip(prefix@.len() as int));
    if first_index_exec(&rest, '/').is_some() {
        None
    } else {
        Some(rest)
    }
}

impl Root {
    /// Directory entries, sorted, as `(name, absolute path)`. The window lists
    /// devices in this order, so it must not change between runs.
    pub fn list(&self, absolute: &str) -> (r: Vec<(String, String)>)
        ensures
            pair_views(r@) == list_dir(self@, absolute@),
    {
        let a = chars_of(absolute);
        let mut n = a.len();
        assert(a@.take(n as int) =~= a@);
        while n > 0 && a[n - 1] == '/'
            invariant
                n <= a@.len(),
                trim_end_char(absolute@, '/') == trim_end_char(a@.take(n as int), '/'),
            decreases n,
        {
            assert(a@.take(n as int).drop_last() =~= a@.take(n - 1));
            n = n - 1;
        }
        let mut prefix = slice_to_vec(&a, 0, n);
        prefix.push('/');
        assert(prefix@ =~= trim_end_char(absolute@, '/').push('/'));
        let mut found: Vec<(String, String)> = Vec::new();
        let mut i: usize = 0;
        while i < self.nodes.len()
            invariant
                i <= self@.nodes.len(),
                prefix@ == trim_end_char(absolute@, '/').push('/'),
                pair_views(found@) == children(self@.nodes.take(i as int), prefix@),
            decreases self@.nodes.len() - i,
        {
            let p = chars_of(self.nodes[i].path.as_str());
            proof {
                let t = self@.nodes.take(i + 1);
                assert(t.drop_last() =~= self@.nodes.take(i as int));
                assert(t.last() == self@.nodes[i as int]);
            }
            match child_name_exec(&p, &prefix) {
                Some(name) => {
                    let entry = (string_of(&name), self.nodes[i].path.clone());
                    found.push(entry);
                    assert(pair_views(found@) =~= children(self@.nodes.take(i as int), prefix@).push(
                        (name@, p@),
                    ));
                },
                None => {},
            }
            i = i + 1;
        }
        assert(self@.nodes.take(self@.nodes.len() as int) =~= self@.nodes);
        sort_natural(&found)
    }

    /// Write `value` to the attribute, as one `write()` of the whole value.
    pub fn write(&mut self, absolute: &str, value: &str) -> (r: Result<(), String>)
        ensures
            match r {
                Ok(()) => write_result(old(self)@, absolute@, value@) == Ok::<RootView, Seq<char>>(
                    final(self)@,
                ),
                Err(e) => write_result(old(self)@, absolute@, value@) == Err::<
                    RootView,
                    Seq<char>,
                >(e@) && final(self)@ == old(self)@,
            },
    {
        if self.read_only {
            return Err(cat(absolute, ": this Root is a captured tree, not the live machine"));
        }
        let p = chars_of(absolute);
        match self.find(&p) {
            None => Err(String::from_str("No such file or directory (os error 2)")),
            Some(i) => {
                let ok = match &self.nodes[i].kind {
                    NodeKind::File { .. } => self.nodes[i].writable,
                    _ => false,
                };
                if !ok {
                    return Err(String::from_str("Permission denied (os error 13)"));
                }
                let bytes = vstd::slice::slice_to_vec(value.as_bytes());
                let node = Node {
                    path: String::from_str(absolute),
                    kind: NodeKind::File { data: Some(bytes) },
                    writable: true,
                };
                self.nodes.set(i, node);
                self.journal.push((String::from_str(absolute), String::from_str(value)));
                proof {
                    assert(node_views(self.nodes@) =~= old(self)@.nodes.update(
                        i as int,
                        NodeView {
                            path: absolute@,
                            kind: KindView::File(Some(encode_utf8(value@))),
                            writable: true,
                        },
                    ));
                    assert(pair_views(self.journal@) =~= old(self)@.journal.push(
                        (absolute@, value@),
                    ));
                }
                Ok(())
            },
        }
    }

    /// Write, then read back and compare.
    ///
    /// Firmware lies: plenty of embedded controllers accept a write to `pwm1`,
    /// return success, and leave the fan exactly where it was.
    pub fn write_verified(&mut self, absolute: &str, value: &str) -> (r: Result<(), String>)
        ensures
            ({
                let (verdict, after) = write_verified_result(old(self)@, absolute@, value@);
                &&& final(self)@ == after
                &&& match r {
                    Ok(()) => verdict == Ok::<(), Seq<char>>(()),
                    Err(e) => verdict == Err::<(), Seq<char>>(e@),
                }
            }),
    {
        match self.write(absolute, value) {
            Err(e) => {
                return Err(cat3(absolute, ": ", e.as_str()));
            },
            Ok(()) => {},
        }
        let back = self.read(absolute);
        match back {
            Some(b) => check_read_back(absolute, value, Some(b.as_str())),
            None => check_read_back(absolute, value, None),
        }
    }
}

proof fn lemma_parse_all_none(ws: Seq<Seq<char>>, k: int)
    requires
        0 <= k < ws.len(),
        parse_u32(ws[k]).is_none(),
    ensures
        parse_u32_all(ws).is_none(),
    decreases ws.len(),
{
    if k < ws.len() - 1 {
        lemma_parse_all_none(ws.drop_last(), k);
    }
}

/// A path names at most one node: the last one holding it.
proof fn lemma_node_at_unique(nodes: Seq<NodeView>, p: Seq<char>, a: int, b: int)
    requires
        is_node_at(nodes, p, a),
        is_node_at(nodes, p, b),
    ensures
        a == b,
{
}

/// Two node lists whose paths agree place every path at the same index.
proof fn lemma_same_paths_same_place(a: Seq<NodeView>, b: Seq<NodeView>, p: Seq<char>)
    requires
        a.len() == b.len(),
        forall|j: int|
            #![trigger a[j].path]
            #![trigger b[j].path]
            0 <= j < a.len() ==> a[j].path == b[j].path,
    ensures
        find_node(a, p) == find_node(b, p),
{
    if exists|i: int| is_node_at(a, p, i) {
        let i = choose|i: int| is_node_at(a, p, i);
        assert(is_node_at(b, p, i));
        let k = choose|k: int| is_node_at(b, p, k);
        lemma_node_at_unique(b, p, i, k);
    } else if exists|i: int| is_node_at(b, p, i) {
        let i = choose|i: int| is_node_at(b, p, i);
        assert(is_node_at(a, p, i));
    }
}

/// What a read gives back of a write: the value written, trimmed as every
/// read is. Every other path reads, exists and is writable as before, and the
/// write is the journal's newest entry.
pub proof fn lemma_read_after_write(r: RootView, p: Seq<char>, v: Seq<char>, q: Seq<char>)
    requires
        write_result(r, p, v) is Ok,
    ensures
        read_text(write_result(r, p, v)->Ok_0, p) == Some(trim(v)),
        q != p ==> read_text(write_result(r, p, v)->Ok_0, q) == read_text(r, q),
        node_exists(write_result(r, p, v)->Ok_0, q) == node_exists(r, q),
        is_writable(write_result(r, p, v)->Ok_0, q) == is_writable(r, q),
        write_result(r, p, v)->Ok_0.journal == r.journal.push((p, v)),
        write_result(r, p, v)->Ok_0.read_only == r.read_only,
        write_result(r, p, v)->Ok_0.base == r.base,
{
    broadcast use vstd::utf8::encode_utf8_valid_utf8, vstd::utf8::encode_utf8_decode_utf8;

    let after = write_result(r, p, v)->Ok_0;
    let i = find_node(r.nodes, p).unwrap();
    assert(is_node_at(r.nodes, p, i));
    assert(forall|j: int| 0 <= j < r.nodes.len() ==> #[trigger] after.nodes[j].path == r.nodes[j].path);
    lemma_same_paths_same_place(after.nodes, r.nodes, p);
    lemma_same_paths_same_place(after.nodes, r.nodes, q);
    if q != p {
        if let Some(k) = find_node(r.nodes, q) {
            assert(is_node_at(r.nodes, q, k));
            assert(k != i);
        }
    }
}

/// An attribute a write can land on: a file, writable, on the live machine.
pub open spec fn is_writable_file(r: RootView, p: Seq<char>) -> bool {
    !r.read_only && match find_node(r.nodes, p) {
        Some(i) => r.nodes[i].writable && r.nodes[i].kind is File,
        None => false,
    }
}

proof fn lemma_children_same_paths(a: Seq<NodeView>, b: Seq<NodeView>, prefix: Seq<char>)
    requires
        a.len() == b.len(),
        forall|j: int| 0 <= j < a.len() ==> #[trigger] a[j].path == b[j].path,
    ensures
        children(a, prefix) == children(b, prefix),
    decreases a.len(),
{
    if a.len() > 0 {
        lemma_children_same_paths(a.drop_last(), b.drop_last(), prefix);
        assert(a.last().path == b[b.len() - 1].path);
    }
}

/// A write changes the contents of one file and nothing else: every path,
/// every listing and every writable file stay as they were.
pub proof fn lemma_write_keeps_shape(r: RootView, p: Seq<char>, v: Seq<char>, q: Seq<char>)
    requires
        write_result(r, p, v) is Ok,
    ensures
        ({
            let a = write_result(r, p, v)->Ok_0;
            &&& list_dir(a, q) == list_dir(r, q)
            &&& is_writable_file(a, q) == is_writable_file(r, q)
            &&& node_exists(a, q) == node_exists(r, q)
            &&& a.read_only == r.read_only
            &&& a.base == r.base
        }),
{
    let a = write_result(r, p, v)->Ok_0;
    let i = find_node(r.nodes, p).unwrap();
    assert(forall|j: int| 0 <= j < r.nodes.len() ==> #[trigger] a.nodes[j].path == r.nodes[j].path);
    lemma_same_paths_same_place(a.nodes, r.nodes, q);
    lemma_children_same_paths(a.nodes, r.nodes, trim_end_char(q, '/').push('/'));
}

/// A write to a writable file takes.
pub proof fn lemma_writable_file_takes(r: RootView, p: Seq<char>, v: Seq<char>)
    requires
        is_writable_file(r, p),
    ensures
        write_result(r, p, v) is Ok,
{
}

/// Writing text that is its own trim to a writable file passes its
/// read-back, and the file then reads as that text.
pub proof fn lemma_write_verified_takes(r: RootView, p: Seq<char>, v: Seq<char>)
    requires
        is_writable_file(r, p),
        trim(v) == v,
    ensures
        write_verified_result(r, p, v) == (Ok::<(), Seq<char>>(()), write_result(r, p, v)->Ok_0),
        read_text(write_result(r, p, v)->Ok_0, p) == Some(v),
{
    lemma_read_after_write(r, p, v, p);
}

/// Every write to a captured tree fails and leaves it as it was.
pub broadcast proof fn lemma_read_only_writes(r: RootView, p: Seq<char>, v: Seq<char>)
    requires
        r.read_only,
    ensures
        #[trigger] write_result(r, p, v) is Err,
        #[trigger] write_verified_result(r, p, v) == (
        Err::<(), Seq<char>>(p + ": "@ + read_only_message(p)),
        r,
    ),
{
}

/// No entry sorts before one listed ahead of it.
pub open spec fn sorted_naturally(s: Seq<(Seq<char>, Seq<char>)>) -> bool {
    forall|i: int, j: int|
        0 <= i < j < s.len() ==> !natural_lt(#[trigger] s[j].0, #[trigger] s[i].0)
}

proof fn lemma_insert_natural(s: Seq<(Seq<char>, Seq<char>)>, x: (Seq<char>, Seq<char>))
    requires
        sorted_naturally(s),
    ensures
        sorted_naturally(insert_natural(s, x)),
        insert_natural(s, x).to_multiset() == s.to_multiset().insert(x),
    decreases s.len(),
{
    broadcast use vstd::seq_lib::group_to_multiset_ensures;

    if s.len() == 0 {
        assert(seq![x] =~= Seq::<(Seq<char>, Seq<char>)>::empty().push(x));
    } else {
        let init = s.drop_last();
        let l = s.last();
        assert(s =~= init.push(l));
        if natural_lt(x.0, l.0) {
            assert(sorted_naturally(init)) by {
                assert forall|i: int, j: int| 0 <= i < j < init.len() implies !natural_lt(
                    #[trigger] init[j].0,
                    #[trigger] init[i].0,
                ) by {
                    assert(init[i] == s[i] && init[j] == s[j]);
                }
            }
            lemma_insert_natural(init, x);
            let t = insert_natural(init, x);
            let r = t.push(l);
            assert forall|i: int, j: int| 0 <= i < j < r.len() implies !natural_lt(
                #[trigger] r[j].0,
                #[trigger] r[i].0,
            ) by {
                if j == r.len() - 1 {
                    let e = t[i];
                    assert(t.contains(e));
                    assert(t.to_multiset().count(e) > 0);
                    if e == x {
                        lemma_natural_lt_strict(x.0, l.0, l.0);
                    } else {
                        assert(init.to_multiset().count(e) > 0);
                        assert(init.contains(e));
                        let k = choose|k: int| 0 <= k < init.len() && init[k] == e;
                        assert(s[k] == e);
                        assert(!natural_lt(s[s.len() - 1].0, s[k].0));
                    }
                } else {
                    assert(r[i] == t[i] && r[j] == t[j]);
                }
            }
        } else {
            let r = s.push(x);
            assert forall|i: int, j: int| 0 <= i < j < r.len() implies !natural_lt(
                #[trigger] r[j].0,
                #[trigger] r[i].0,
            ) by {
                if j == r.len() - 1 {
                    let e = s[i];
                    if natural_lt(x.0, e.0) {
                        lemma_natural_lt_split(x.0, l.0, e.0);
                        if i < s.len() - 1 {
                            assert(!natural_lt(s[s.len() - 1].0, s[i].0));
                        } else {
                            lemma_natural_lt_strict(l.0, l.0, l.0);
                        }
                    }
                } else {
                    assert(r[i] == s[i] && r[j] == s[j]);
                }
            }
        }
    }
}

/// What a directory listing is: every entry of the directory, each once, in
/// natural order -- the order the window shows devices in, the same on every
/// run.
pub proof fn lemma_listing_is_sorted(r: RootView, dir: Seq<char>)
    ensures
        sorted_naturally(list_dir(r, dir)),
        list_dir(r, dir).to_multiset() == children(r.nodes, trim_end_char(dir, '/').push('/'))
            .to_multiset(),
{
    lemma_natural_sort(children(r.nodes, trim_end_char(dir, '/').push('/')));
}

proof fn lemma_natural_sort(s: Seq<(Seq<char>, Seq<char>)>)
    ensures
        sorted_naturally(natural_sort(s)),
        natural_sort(s).to_multiset() == s.to_multiset(),
    decreases s.len(),
{
    broadcast use vstd::seq_lib::group_to_multiset_ensures;

    if s.len() > 0 {
        lemma_natural_sort(s.drop_last());
        lemma_insert_natural(natural_sort(s.drop_last()), s.last());
        assert(s =~= s.drop_last().push(s.last()));
    }
}

} // verus!
