//! The stack walker: flattens a logical-frame tree into report entries in call
//! order, depth-first, outermost caller first.
//!
//! At a combinator every branch is emitted, each introduced by a branch marker,
//! in the branch's declared construction order: completion order is unknown at
//! a pending snapshot.  A safety bound guards against a misclassification
//! smuggling a cycle into the tree: when the walk runs out of depth budget it
//! emits a visible truncation entry instead of recursing further.
use vstd::prelude::*;

use crate::node::{CombinatorKind, LocalBinding, LocalV, NodeV, locals_view};
use crate::frame::{LogicalFrame, FrameBody, FrameV, BodyV, LeafTag, frame_view, frame_seq_view, synth_spec, synth_branch, placeholder_not_started, lemma_synth_branches_index};

verus! {

broadcast use vstd::std_specs::vec::axiom_vec_index_decreases, vstd::std_specs::vec::axiom_vec_decreases_to_view, vstd::seq::axiom_seq_index_decreases, vstd::seq::axiom_seq_subrange_decreases;

/// One line of the final report.
pub enum LineKind {
    /// A logical call frame: its name and captured locals.
    Frame { name: String, locals: Vec<LocalBinding> },
    /// A leaf: an awaited event, an opaque region, or a branch placeholder.
    Leaf { tag: LeafTag, text: String },
    /// The selection-point marker of a combinator.
    Marker { kind: CombinatorKind },
    /// The walk ran out of depth budget below this point.
    Truncated,
}

/// One report entry: a line, its indentation depth, and whether it introduces
/// a combinator branch.
pub struct ReportEntry {
    pub depth: usize,
    pub arrow: bool,
    pub line: LineKind,
}

/// The walked report: entries in emission order, ready for rendering.
pub struct Report {
    pub entries: Vec<ReportEntry>,
}

/// Mathematical image of a report line.
pub enum LineV {
    Frame { name: Seq<char>, locals: Seq<LocalV> },
    Leaf { tag: LeafTag, text: Seq<char> },
    Marker { kind: CombinatorKind },
    Truncated,
}

/// Mathematical image of a report entry.
pub struct EntryV {
    pub depth: int,
    pub arrow: bool,
    pub line: LineV,
}

/// Image of a report line.
pub open spec fn line_view(l: LineKind) -> LineV {
    match l {
        LineKind::Frame { name, locals } => LineV::Frame { name: name@, locals: locals_view(locals@) },
        LineKind::Leaf { tag, text } => LineV::Leaf { tag, text: text@ },
        LineKind::Marker { kind } => LineV::Marker { kind },
        LineKind::Truncated => LineV::Truncated,
    }
}

impl View for ReportEntry {
    type V = EntryV;

    open spec fn view(&self) -> EntryV {
        EntryV { depth: self.depth as int, arrow: self.arrow, line: line_view(self.line) }
    }
}

/// Image of a sequence of report entries.
pub open spec fn entries_view(s: Seq<ReportEntry>) -> Seq<EntryV> {
    s.map_values(|e: ReportEntry| e@)
}

impl View for Report {
    type V = Seq<EntryV>;

    open spec fn view(&self) -> Seq<EntryV> {
        entries_view(self.entries@)
    }
}

/// The entries a walk of `f` emits at `depth`, introduced by a branch arrow if
/// `arrow`, with `fuel` levels of depth budget left.
pub open spec fn walk_spec(f: FrameV, depth: int, arrow: bool, fuel: nat) -> Seq<EntryV>
    decreases f,
{
    if fuel == 0 {
        seq![EntryV { depth, arrow, line: LineV::Truncated }]
    } else {
        match f.body {
            BodyV::Leaf { tag } => seq![EntryV { depth, arrow, line: LineV::Leaf { tag, text: f.name } }],
            BodyV::Call { callee } => seq![EntryV { depth, arrow, line: LineV::Frame { name: f.name, locals: f.locals } }]
                + walk_spec(*callee, depth + 1, false, (fuel - 1) as nat),
            BodyV::Select { kind, branches } => seq![EntryV { depth, arrow, line: LineV::Marker { kind } }]
                + walk_branches_spec(branches, depth + 1, (fuel - 1) as nat),
        }
    }
}

/// The entries a walk of the branch groups emits, in declared order, each
/// group introduced by a branch arrow.
pub open spec fn walk_branches_spec(bs: Seq<FrameV>, depth: int, fuel: nat) -> Seq<EntryV>
    decreases bs,
{
    if bs.len() == 0 {
        Seq::empty()
    } else {
        walk_spec(bs[0], depth, true, fuel) + walk_branches_spec(bs.drop_first(), depth, fuel)
    }
}

/// Walk the frame tree depth-first from the root, emitting entries in call
/// order, outermost frame first, with `limit` levels of depth budget.
pub fn walk(root: LogicalFrame, limit: usize) -> (r: Report)
    ensures
        r@ == walk_spec(root@, 0, false, limit as nat),
{
    let mut entries: Vec<ReportEntry> = Vec::new();
    proof {
        assert(entries_view(entries@) =~= Seq::<EntryV>::empty());
    }
    walk_rec(root, 0, false, limit, &mut entries);
    let r = Report { entries };
    proof {
        assert(Seq::<EntryV>::empty() + walk_spec(frame_view(root), 0, false, limit as nat) =~= walk_spec(frame_view(root), 0, false, limit as nat));
    }
    r
}

/// Emit the walk of one frame onto the end of `out`.
fn walk_rec(f: LogicalFrame, depth: usize, arrow: bool, fuel: usize, out: &mut Vec<ReportEntry>)
    requires
        depth + fuel <= usize::MAX,
    ensures
        entries_view(final(out)@) == entries_view(old(out)@) + walk_spec(f@, depth as int, arrow, fuel as nat),
    decreases f,
{
    let ghost f0 = f;
    if fuel == 0 {
        let ghost pre = out@;
        out.push(ReportEntry { depth, arrow, line: LineKind::Truncated });
        proof {
            assert(entries_view(out@) =~= entries_view(pre) + walk_spec(f@, depth as int, arrow, fuel as nat));
        }
        return ;
    }
    match f.body {
        FrameBody::Leaf { tag } => {
            let ghost pre = out@;
            out.push(ReportEntry { depth, arrow, line: LineKind::Leaf { tag, text: f.name } });
            proof {
                assert(entries_view(out@) =~= entries_view(pre) + walk_spec(f0@, depth as int, arrow, fuel as nat));
            }
        },
        FrameBody::Call { callee } => {
            let ghost pre = out@;
            out.push(ReportEntry { depth, arrow, line: LineKind::Frame { name: f.name, locals: f.locals } });
            proof {
                assert(decreases_to!(f0 => f0.body));
                assert(decreases_to!(f0.body => f0.body->Call_callee));
                assert(decreases_to!(f0 => *callee));
            }
            walk_rec(*callee, depth + 1, false, fuel - 1, out);
            proof {
                assert(entries_view(out@) =~= entries_view(pre) + walk_spec(f0@, depth as int, arrow, fuel as nat));
            }
        },
        FrameBody::Select { kind, branches } => {
            let ghost pre = out@;
            out.push(ReportEntry { depth, arrow, line: LineKind::Marker { kind } });
            let ghost v0 = branches;
            let mut cs = branches;
            let mut k: usize = 0;
            let n0len: usize = cs.len();
            proof {
                assert(cs@ =~= v0@.subrange(0, v0@.len() as int));
                assert(entries_view(out@) =~= entries_view(pre) + seq![EntryV { depth: depth as int, arrow, line: LineV::Marker { kind } }]);
                assert(frame_seq_view(cs@) =~= frame_seq_view(v0@));
            }
            #[verifier::loop_isolation(false)]
            while cs.len() > 0
                invariant
                    v0@.len() == n0len,
                    v0@.len() == k + cs@.len(),
                    cs@ == v0@.subrange(k as int, v0@.len() as int),
                    f0.body == (FrameBody::Select { kind, branches: v0 }),
                    entries_view(out@) + walk_branches_spec(frame_seq_view(cs@), depth + 1 as int, (fuel - 1) as nat)
                        == entries_view(pre) + seq![EntryV { depth: depth as int, arrow, line: LineV::Marker { kind } }]
                            + walk_branches_spec(frame_seq_view(v0@), depth + 1 as int, (fuel - 1) as nat),
                decreases cs@.len(),
            {
                let ghost rest = cs@;
                let ghost mid = out@;
                let b = cs.remove(0);
                proof {
                    assert(b == v0@[k as int]);
                    assert(decreases_to!(f0 => f0.body));
                    assert(decreases_to!(f0.body => f0.body->Select_branches));
                    assert(f0.body->Select_branches == v0);
                    assert(decreases_to!(v0 => v0@));
                    assert(decreases_to!(v0@ => v0@[k as int]));
                    assert(decreases_to!(f0 => b));
                    let restv = frame_seq_view(rest);
                    assert(restv[0] == frame_view(b) && restv.drop_first() =~= frame_seq_view(rest.drop_first()));
                }
                walk_rec(b, depth + 1, true, fuel - 1, out);
                k = k + 1;
                proof {
                    assert(rest.subrange(1, rest.len() as int) =~= v0@.subrange(k as int, v0@.len() as int));
                    let restv = frame_seq_view(rest);
                    assert(walk_branches_spec(restv, depth + 1 as int, (fuel - 1) as nat) == walk_spec(frame_view(b), depth + 1 as int, true, (fuel - 1) as nat) + walk_branches_spec(frame_seq_view(rest.drop_first()), depth + 1 as int, (fuel - 1) as nat));
                    assert(entries_view(out@) =~= entries_view(mid) + walk_spec(frame_view(b), depth + 1 as int, true, (fuel - 1) as nat));
                    assert(entries_view(out@) + walk_branches_spec(frame_seq_view(cs@), depth + 1 as int, (fuel - 1) as nat)
                        =~= entries_view(mid) + walk_branches_spec(restv, depth + 1 as int, (fuel - 1) as nat));
                }
            }
            proof {
                assert(frame_seq_view(cs@).len() == 0);
                assert(walk_branches_spec(frame_seq_view(cs@), depth + 1 as int, (fuel - 1) as nat) =~= Seq::<EntryV>::empty());
                assert(entries_view(out@) + Seq::<EntryV>::empty() =~= entries_view(out@));
                assert(entries_view(out@) =~= entries_view(pre) + walk_spec(f0@, depth as int, arrow, fuel as nat));
            }
        },
    }
}

// The laws below are stated against `walk_spec`, so they hold of every report
// the walker can emit.

/// A frame tree that is a purely sequential chain: nested awaited calls ending
/// in a leaf, with no combinator anywhere.
pub open spec fn is_await_chain(f: FrameV) -> bool
    decreases f,
{
    match f.body {
        BodyV::Leaf { .. } => true,
        BodyV::Call { callee } => is_await_chain(*callee),
        BodyV::Select { .. } => false,
    }
}

/// Number of nested awaited calls in a sequential chain.
pub open spec fn chain_awaits(f: FrameV) -> nat
    decreases f,
{
    match f.body {
        BodyV::Call { callee } => 1 + chain_awaits(*callee),
        _ => 0,
    }
}

/// For a purely sequential chain of `n` nested awaits with no combinator, and
/// depth budget to spare, the walk emits exactly `n + 1` entries, in strict
/// caller-to-callee order: the entry of the `i`-th nested call sits `i` levels
/// below the root, callers above callees.
pub proof fn lemma_sequential_chain(f: FrameV, depth: int, arrow: bool, fuel: nat)
    requires
        is_await_chain(f),
        chain_awaits(f) < fuel,
    ensures
        walk_spec(f, depth, arrow, fuel).len() == chain_awaits(f) + 1,
        forall|i: int| 0 <= i <= chain_awaits(f) ==> #[trigger] walk_spec(f, depth, arrow, fuel)[i].depth == depth + i,
    decreases f,
{
    let out = walk_spec(f, depth, arrow, fuel);
    match f.body {
        BodyV::Leaf { .. } => {},
        BodyV::Call { callee } => {
            lemma_sequential_chain(*callee, depth + 1, false, (fuel - 1) as nat);
            let tail = walk_spec(*callee, depth + 1, false, (fuel - 1) as nat);
            assert forall|i: int| 0 <= i <= chain_awaits(f) implies #[trigger] out[i].depth == depth + i by {
                if i >= 1 {
                    assert(out[i] == tail[i - 1]);
                }
            }
        },
        BodyV::Select { .. } => {},
    }
}

/// Every walk begins with an entry at its own depth carrying its own arrow
/// mark; every further entry sits strictly deeper.
pub proof fn lemma_walk_depths(f: FrameV, depth: int, arrow: bool, fuel: nat)
    ensures
        walk_spec(f, depth, arrow, fuel).len() >= 1,
        walk_spec(f, depth, arrow, fuel)[0].depth == depth,
        walk_spec(f, depth, arrow, fuel)[0].arrow == arrow,
        forall|i: int| 1 <= i < walk_spec(f, depth, arrow, fuel).len() ==> #[trigger] walk_spec(f, depth, arrow, fuel)[i].depth > depth,
    decreases f,
{
    let out = walk_spec(f, depth, arrow, fuel);
    if fuel == 0 {
    } else {
        match f.body {
            BodyV::Leaf { .. } => {},
            BodyV::Call { callee } => {
                lemma_walk_depths(*callee, depth + 1, false, (fuel - 1) as nat);
                let tail = walk_spec(*callee, depth + 1, false, (fuel - 1) as nat);
                assert forall|i: int| 1 <= i < out.len() implies #[trigger] out[i].depth > depth by {
                    assert(out[i] == tail[i - 1]);
                    if i - 1 >= 1 {
                        assert(tail[i - 1].depth > depth + 1);
                    }
                }
            },
            BodyV::Select { kind, branches } => {
                lemma_walk_branches_depths(branches, depth + 1, (fuel - 1) as nat);
                let tail = walk_branches_spec(branches, depth + 1, (fuel - 1) as nat);
                assert forall|i: int| 1 <= i < out.len() implies #[trigger] out[i].depth > depth by {
                    assert(out[i] == tail[i - 1]);
                }
            },
        }
    }
}

/// Every entry a run of branch groups emits sits at the groups' depth or
/// deeper.
pub proof fn lemma_walk_branches_depths(bs: Seq<FrameV>, depth: int, fuel: nat)
    ensures
        forall|i: int| 0 <= i < walk_branches_spec(bs, depth, fuel).len() ==> #[trigger] walk_branches_spec(bs, depth, fuel)[i].depth >= depth,
    decreases bs,
{
    if bs.len() > 0 {
        lemma_walk_depths(bs[0], depth, true, fuel);
        lemma_walk_branches_depths(bs.drop_first(), depth, fuel);
        let out = walk_branches_spec(bs, depth, fuel);
        let head = walk_spec(bs[0], depth, true, fuel);
        let rest = walk_branches_spec(bs.drop_first(), depth, fuel);
        assert forall|i: int| 0 <= i < out.len() implies #[trigger] out[i].depth >= depth by {
            if i < head.len() {
                assert(out[i] == head[i]);
                if i >= 1 {
                    assert(head[i].depth > depth);
                }
            } else {
                assert(out[i] == rest[i - head.len()]);
            }
        }
    }
}

/// The branch-introduction entries of a report at depth `d`: the entries whose
/// arrow mark sits exactly at `d`, in emission order.
pub open spec fn branch_intros(s: Seq<EntryV>, d: int) -> Seq<EntryV>
    decreases s,
{
    if s.len() == 0 {
        Seq::empty()
    } else if s[0].arrow && s[0].depth == d {
        seq![s[0]] + branch_intros(s.drop_first(), d)
    } else {
        branch_intros(s.drop_first(), d)
    }
}

/// Branch introductions distribute over concatenation.
pub proof fn lemma_intros_concat(s1: Seq<EntryV>, s2: Seq<EntryV>, d: int)
    ensures
        branch_intros(s1 + s2, d) == branch_intros(s1, d) + branch_intros(s2, d),
    decreases s1,
{
    if s1.len() == 0 {
        assert(s1 + s2 =~= s2);
        assert(branch_intros(s1, d) + branch_intros(s2, d) =~= branch_intros(s2, d));
    } else {
        lemma_intros_concat(s1.drop_first(), s2, d);
        assert((s1 + s2).drop_first() =~= s1.drop_first() + s2);
        assert((s1 + s2)[0] == s1[0]);
        if s1[0].arrow && s1[0].depth == d {
            assert(branch_intros(s1 + s2, d) =~= branch_intros(s1, d) + branch_intros(s2, d));
        } else {
            assert(branch_intros(s1 + s2, d) =~= branch_intros(s1, d) + branch_intros(s2, d));
        }
    }
}

/// A run of entries none of which sits at depth `d` introduces no branch
/// there.
pub proof fn lemma_intros_none(s: Seq<EntryV>, d: int)
    requires
        forall|i: int| 0 <= i < s.len() ==> #[trigger] s[i].depth != d,
    ensures
        branch_intros(s, d) == Seq::<EntryV>::empty(),
    decreases s,
{
    if s.len() > 0 {
        assert(s[0].depth != d);
        assert forall|i: int| 0 <= i < s.drop_first().len() implies #[trigger] s.drop_first()[i].depth != d by {
            assert(s.drop_first()[i] == s[i + 1]);
        }
        lemma_intros_none(s.drop_first(), d);
    }
}

/// A run of branch groups introduces exactly one branch per group, in declared
/// order: the `i`-th introduction is the head entry of the `i`-th group.
pub proof fn lemma_branch_group_intros(bs: Seq<FrameV>, depth: int, fuel: nat)
    ensures
        branch_intros(walk_branches_spec(bs, depth, fuel), depth).len() == bs.len(),
        forall|i: int| 0 <= i < bs.len() ==> #[trigger] branch_intros(walk_branches_spec(bs, depth, fuel), depth)[i]
            == walk_spec(bs[i], depth, true, fuel)[0],
    decreases bs,
{
    if bs.len() > 0 {
        let group = walk_spec(bs[0], depth, true, fuel);
        let rest = walk_branches_spec(bs.drop_first(), depth, fuel);
        lemma_walk_depths(bs[0], depth, true, fuel);
        lemma_intros_concat(group, rest, depth);
        assert(group =~= seq![group[0]] + group.drop_first());
        lemma_intros_concat(seq![group[0]], group.drop_first(), depth);
        assert forall|i: int| 0 <= i < group.drop_first().len() implies #[trigger] group.drop_first()[i].depth != depth by {
            assert(group.drop_first()[i] == group[i + 1]);
        }
        lemma_intros_none(group.drop_first(), depth);
        assert(seq![group[0]].drop_first() =~= Seq::<EntryV>::empty());
        assert(branch_intros(seq![group[0]], depth) =~= seq![group[0]]);
        assert(branch_intros(group, depth) =~= seq![group[0]]);
        lemma_branch_group_intros(bs.drop_first(), depth, fuel);
        assert forall|i: int| 0 <= i < bs.len() implies #[trigger] branch_intros(walk_branches_spec(bs, depth, fuel), depth)[i]
            == walk_spec(bs[i], depth, true, fuel)[0] by {
            if i == 0 {
                assert(branch_intros(walk_branches_spec(bs, depth, fuel), depth)[0] == group[0]);
            } else {
                assert(branch_intros(walk_branches_spec(bs, depth, fuel), depth)[i] == branch_intros(rest, depth)[i - 1]);
                assert(bs.drop_first()[i - 1] == bs[i]);
            }
        }
    }
}

/// For a combinator frame over `K` branches with depth budget to spare, the
/// walk emits the selection marker and then exactly `K` branch groups, in
/// declared construction order, regardless of which branch would eventually
/// win: the `i`-th branch introduction is the head entry of branch `i`'s own
/// walk, one level below the marker.
pub proof fn lemma_combinator_branches(f: FrameV, depth: int, arrow: bool, fuel: nat)
    requires
        f.body is Select,
        fuel > 0,
    ensures
        ({
            let out = walk_spec(f, depth, arrow, fuel);
            let bs = f.body->Select_branches;
            &&& out[0].line == (LineV::Marker { kind: f.body->Select_kind })
            &&& branch_intros(out, depth + 1).len() == bs.len()
            &&& forall|i: int| 0 <= i < bs.len() ==> #[trigger] branch_intros(out, depth + 1)[i]
                == walk_spec(bs[i], depth + 1, true, (fuel - 1) as nat)[0]
        }),
{
    let out = walk_spec(f, depth, arrow, fuel);
    let bs = f.body->Select_branches;
    let marker = seq![EntryV { depth, arrow, line: LineV::Marker { kind: f.body->Select_kind } }];
    let groups = walk_branches_spec(bs, depth + 1, (fuel - 1) as nat);
    assert(out == marker + groups);
    lemma_intros_concat(marker, groups, depth + 1);
    assert(marker.drop_first() =~= Seq::<EntryV>::empty());
    assert(branch_intros(Seq::<EntryV>::empty(), depth + 1) =~= Seq::<EntryV>::empty());
    assert(marker[0].depth == depth && depth != depth + 1);
    assert(branch_intros(marker, depth + 1) =~= Seq::<EntryV>::empty());
    lemma_branch_group_intros(bs, depth + 1, (fuel - 1) as nat);
    assert(branch_intros(out, depth + 1) =~= branch_intros(groups, depth + 1));
}


/// A combinator branch that has not begun executing appears in the report as a
/// distinguishable placeholder entry, never as an error: its branch
/// introduction is the not-yet-started placeholder line, at one level below
/// the selection marker.
pub proof fn lemma_not_started_placeholder(n: NodeV, i: int, depth: int, arrow: bool, fuel: nat)
    requires
        n is Combinator,
        0 <= i < n->branches.len(),
        n->branches[i] is NotStarted,
        fuel > 1,
    ensures
        ({
            let out = walk_spec(synth_spec(n), depth, arrow, fuel);
            let intro = branch_intros(out, depth + 1)[i];
            &&& branch_intros(out, depth + 1).len() == n->branches.len()
            &&& intro == (EntryV { depth: depth + 1, arrow: true, line: LineV::Leaf { tag: LeafTag::NotStarted, text: Seq::<char>::empty() } })
            &&& out.contains(intro)
        }),
{
    let f = synth_spec(n);
    let bs = f.body->Select_branches;
    lemma_synth_branches_index(n->branches);
    assert(bs[i] == placeholder_not_started());
    lemma_combinator_branches(f, depth, arrow, fuel);
    let out = walk_spec(f, depth, arrow, fuel);
    let ph = walk_spec(placeholder_not_started(), depth + 1, true, (fuel - 1) as nat);
    assert(ph[0] == (EntryV { depth: depth + 1, arrow: true, line: LineV::Leaf { tag: LeafTag::NotStarted, text: Seq::<char>::empty() } }));
    lemma_intros_subset(out, depth + 1);
}

/// Every branch introduction is an entry of the report it was taken from.
pub proof fn lemma_intros_subset(s: Seq<EntryV>, d: int)
    ensures
        forall|j: int| 0 <= j < branch_intros(s, d).len() ==> s.contains(#[trigger] branch_intros(s, d)[j]),
    decreases s,
{
    if s.len() > 0 {
        lemma_intros_subset(s.drop_first(), d);
        assert forall|j: int| 0 <= j < branch_intros(s, d).len() implies s.contains(#[trigger] branch_intros(s, d)[j]) by {
            if s[0].arrow && s[0].depth == d {
                if j == 0 {
                    assert(branch_intros(s, d)[0] == s[0]);
                    assert(s.contains(s[0]));
                } else {
                    let x = branch_intros(s, d)[j];
                    assert(x == branch_intros(s.drop_first(), d)[j - 1]);
                    assert(s.drop_first().contains(x));
                    let k = choose|k: int| 0 <= k < s.drop_first().len() && s.drop_first()[k] == x;
                    assert(s[k + 1] == x);
                    assert(s.contains(x));
                }
            } else {
                let x = branch_intros(s, d)[j];
                assert(x == branch_intros(s.drop_first(), d)[j]);
                assert(s.drop_first().contains(x));
                let k = choose|k: int| 0 <= k < s.drop_first().len() && s.drop_first()[k] == x;
                assert(s[k + 1] == x);
                assert(s.contains(x));
            }
        }
    }
}

/// A state-node tree that is a purely sequential chain: nested awaited calls
/// ending in a leaf, with no combinator anywhere.
pub open spec fn is_sequential_chain(n: NodeV) -> bool
    decreases n,
{
    match n {
        NodeV::Leaf { .. } => true,
        NodeV::Opaque { .. } => true,
        NodeV::Sequential { callee, .. } => is_sequential_chain(*callee),
        NodeV::Combinator { .. } => false,
    }
}

/// Number of nested awaits in a sequential chain of state nodes.
pub open spec fn chain_length(n: NodeV) -> nat
    decreases n,
{
    match n {
        NodeV::Sequential { callee, .. } => 1 + chain_length(*callee),
        _ => 0,
    }
}

/// Synthesis turns a sequential chain of state nodes into a sequential chain
/// of frames of the same length.
pub proof fn lemma_synth_chain(n: NodeV)
    requires
        is_sequential_chain(n),
    ensures
        is_await_chain(synth_spec(n)),
        chain_awaits(synth_spec(n)) == chain_length(n),
    decreases n,
{
    match n {
        NodeV::Sequential { callee, .. } => {
            lemma_synth_chain(*callee);
        },
        _ => {},
    }
}

/// For a purely sequential chain of `k` nested awaits with no combinator, and
/// depth budget to spare, the report contains exactly `k + 1` entries, in
/// strict caller-to-callee order: the `i`-th nested call sits `i` levels below
/// the root.
pub proof fn lemma_sequential_chain_report(n: NodeV, depth: int, arrow: bool, fuel: nat)
    requires
        is_sequential_chain(n),
        chain_length(n) < fuel,
    ensures
        walk_spec(synth_spec(n), depth, arrow, fuel).len() == chain_length(n) + 1,
        forall|i: int| 0 <= i <= chain_length(n) ==> #[trigger] walk_spec(synth_spec(n), depth, arrow, fuel)[i].depth == depth + i,
{
    lemma_synth_chain(n);
    lemma_sequential_chain(synth_spec(n), depth, arrow, fuel);
}

/// For a combinator node over `K` branches with depth budget to spare, the
/// report shows the selection marker and exactly `K` branch groups, in
/// declared construction order, regardless of which branch would eventually
/// win: the `i`-th branch introduction is the head entry of the walk of branch
/// `i`'s synthesized frame.
pub proof fn lemma_combinator_report(n: NodeV, depth: int, arrow: bool, fuel: nat)
    requires
        n is Combinator,
        fuel > 0,
    ensures
        ({
            let out = walk_spec(synth_spec(n), depth, arrow, fuel);
            &&& out[0].line == (LineV::Marker { kind: n->kind })
            &&& branch_intros(out, depth + 1).len() == n->branches.len()
            &&& forall|i: int| 0 <= i < n->branches.len() ==> #[trigger] branch_intros(out, depth + 1)[i]
                == walk_spec(synth_branch(n->branches[i]), depth + 1, true, (fuel - 1) as nat)[0]
        }),
{
    lemma_synth_branches_index(n->branches);
    lemma_combinator_branches(synth_spec(n), depth, arrow, fuel);
}

/// The line the `i`-th call of a sequential chain renders as: its frame name
/// and captured locals, or for the chain's end its leaf text.
pub open spec fn chain_line(n: NodeV, i: int) -> LineV
    decreases n,
{
    match n {
        NodeV::Sequential { name, locals, callee } => if i <= 0 {
            LineV::Frame { name, locals }
        } else {
            chain_line(*callee, i - 1)
        },
        NodeV::Leaf { description } => LineV::Leaf { tag: LeafTag::Event, text: description },
        NodeV::Opaque { raw_name } => LineV::Leaf { tag: LeafTag::Opaque, text: raw_name },
        NodeV::Combinator { .. } => arbitrary(),
    }
}

/// In the report of a sequential chain, the `i`-th entry is exactly the `i`-th
/// call's own line: callers above callees, each with its own name and captured
/// locals.
pub proof fn lemma_sequential_chain_lines(n: NodeV, depth: int, arrow: bool, fuel: nat)
    requires
        is_sequential_chain(n),
        chain_length(n) < fuel,
    ensures
        forall|i: int| 0 <= i <= chain_length(n) ==> #[trigger] walk_spec(synth_spec(n), depth, arrow, fuel)[i].line == chain_line(n, i),
    decreases n,
{
    lemma_synth_chain(n);
    lemma_sequential_chain(synth_spec(n), depth, arrow, fuel);
    let out = walk_spec(synth_spec(n), depth, arrow, fuel);
    match n {
        NodeV::Sequential { name, locals, callee } => {
            lemma_sequential_chain_lines(*callee, depth + 1, false, (fuel - 1) as nat);
            lemma_synth_chain(*callee);
            lemma_sequential_chain(synth_spec(*callee), depth + 1, false, (fuel - 1) as nat);
            let tail = walk_spec(synth_spec(*callee), depth + 1, false, (fuel - 1) as nat);
            assert forall|i: int| 0 <= i <= chain_length(n) implies #[trigger] out[i].line == chain_line(n, i) by {
                if i >= 1 {
                    assert(out[i] == tail[i - 1]);
                    assert(tail[i - 1].line == chain_line(*callee, i - 1));
                }
            }
        },
        _ => {},
    }
}

} // verus!

