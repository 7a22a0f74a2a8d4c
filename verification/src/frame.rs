//! The frame synthesizer: converts a classified state-node tree into a tree of
//! printable logical frames.
//!
//! A combinator branch that has not begun executing, or that completed before
//! the snapshot, becomes a placeholder frame rather than an error, so the rest
//! of the walk is unaffected.
use vstd::prelude::*;

use crate::node::{StateNode, BranchState, CombinatorKind, LocalBinding, LocalV, NodeV, BranchV, locals_view};

verus! {

broadcast use vstd::std_specs::vec::axiom_vec_index_decreases, vstd::std_specs::vec::axiom_vec_decreases_to_view, vstd::seq::axiom_seq_index_decreases, vstd::seq::axiom_seq_subrange_decreases;

/// What kind of leaf line a frame renders as.
#[derive(Clone, Copy, PartialEq, Eq, Structural)]
pub enum LeafTag {
    /// A computation pending on an external event; shows its description.
    Event,
    /// A region whose memory matched no known shape; shows its raw type name.
    Opaque,
    /// Placeholder for a combinator branch that has not begun executing.
    NotStarted,
    /// Placeholder for a branch that completed but was not yet observed.
    Complete,
}

/// A rendering-ready unit: a function-like name, the captured locals visible
/// at the suspension point, and the frame's children.
pub struct LogicalFrame {
    pub name: String,
    pub locals: Vec<LocalBinding>,
    pub body: FrameBody,
}

/// The children of a logical frame.
pub enum FrameBody {
    /// No children; the frame is a leaf line of the given kind.
    Leaf { tag: LeafTag },
    /// The single sequential continuation.
    Call { callee: Box<LogicalFrame> },
    /// One child group per combinator branch, in declared order.
    Select { kind: CombinatorKind, branches: Vec<LogicalFrame> },
}

/// Mathematical image of a logical frame.
pub struct FrameV {
    pub name: Seq<char>,
    pub locals: Seq<LocalV>,
    pub body: BodyV,
}

/// Mathematical image of a frame body.
pub enum BodyV {
    Leaf { tag: LeafTag },
    Call { callee: Box<FrameV> },
    Select { kind: CombinatorKind, branches: Seq<FrameV> },
}

/// Image of a logical frame.
pub open spec fn frame_view(f: LogicalFrame) -> FrameV
    decreases f,
{
    FrameV { name: f.name@, locals: locals_view(f.locals@), body: body_view(f.body) }
}

/// Image of a frame body.
pub open spec fn body_view(b: FrameBody) -> BodyV
    decreases b,
{
    match b {
        FrameBody::Leaf { tag } => BodyV::Leaf { tag },
        FrameBody::Call { callee } => BodyV::Call { callee: Box::new(frame_view(*callee)) },
        FrameBody::Select { kind, branches } => BodyV::Select {
            kind,
            branches: frame_seq_view(branches@),
        },
    }
}

/// Image of a sequence of frames, in order.
pub open spec fn frame_seq_view(s: Seq<LogicalFrame>) -> Seq<FrameV>
    decreases s,
{
    if s.len() == 0 {
        Seq::empty()
    } else {
        seq![frame_view(s[0])] + frame_seq_view(s.drop_first())
    }
}

impl View for LogicalFrame {
    type V = FrameV;

    open spec fn view(&self) -> FrameV {
        frame_view(*self)
    }
}

/// Appending one frame appends its image.
pub proof fn lemma_frame_seq_view_snoc(s: Seq<LogicalFrame>, f: LogicalFrame)
    ensures
        frame_seq_view(s.push(f)) == frame_seq_view(s).push(frame_view(f)),
    decreases s,
{
    assert(s.push(f).len() == s.len() + 1);
    assert(s.push(f)[0] == if s.len() == 0 { f } else { s[0] });
    if s.len() == 0 {
        assert(s.push(f).drop_first() =~= Seq::<LogicalFrame>::empty());
        assert(frame_seq_view(Seq::<LogicalFrame>::empty()) =~= Seq::<FrameV>::empty());
        assert(frame_seq_view(s.push(f)) =~= frame_seq_view(s).push(frame_view(f)));
    } else {
        lemma_frame_seq_view_snoc(s.drop_first(), f);
        assert(s.push(f).drop_first() =~= s.drop_first().push(f));
        assert(frame_seq_view(s.push(f)) == seq![frame_view(s[0])] + frame_seq_view(s.drop_first().push(f)));
        assert(frame_seq_view(s) == seq![frame_view(s[0])] + frame_seq_view(s.drop_first()));
        assert(frame_seq_view(s.push(f)) =~= frame_seq_view(s).push(frame_view(f)));
    }
}

/// The placeholder frame of a branch that has not begun executing.
pub open spec fn placeholder_not_started() -> FrameV {
    FrameV { name: Seq::empty(), locals: Seq::empty(), body: BodyV::Leaf { tag: LeafTag::NotStarted } }
}

/// The placeholder frame of a branch that completed but was not yet observed.
pub open spec fn placeholder_complete() -> FrameV {
    FrameV { name: Seq::empty(), locals: Seq::empty(), body: BodyV::Leaf { tag: LeafTag::Complete } }
}

/// The frame synthesized for one state node.
pub open spec fn synth_spec(n: NodeV) -> FrameV
    decreases n,
{
    match n {
        NodeV::Leaf { description } => FrameV {
            name: description,
            locals: Seq::empty(),
            body: BodyV::Leaf { tag: LeafTag::Event },
        },
        NodeV::Opaque { raw_name } => FrameV {
            name: raw_name,
            locals: Seq::empty(),
            body: BodyV::Leaf { tag: LeafTag::Opaque },
        },
        NodeV::Sequential { name, locals, callee } => FrameV {
            name: name,
            locals: locals,
            body: BodyV::Call { callee: Box::new(synth_spec(*callee)) },
        },
        NodeV::Combinator { kind, branches } => FrameV {
            name: Seq::empty(),
            locals: Seq::empty(),
            body: BodyV::Select { kind, branches: synth_branches(branches) },
        },
    }
}

/// The frames synthesized for a run of combinator branches, in declared order.
pub open spec fn synth_branches(bs: Seq<BranchV>) -> Seq<FrameV>
    decreases bs,
{
    if bs.len() == 0 {
        Seq::empty()
    } else {
        seq![synth_branch(bs[0])] + synth_branches(bs.drop_first())
    }
}

/// The frame synthesized for one branch: its own frame when it is an active
/// suspended value, a placeholder otherwise.
pub open spec fn synth_branch(b: BranchV) -> FrameV
    decreases b,
{
    match b {
        BranchV::Active(n) => synth_spec(n),
        BranchV::NotStarted => placeholder_not_started(),
        BranchV::Complete => placeholder_complete(),
    }
}

/// Convert one classified state node into a printable logical frame.
/// Read-only with respect to the snapshot: works on the classified tree alone.
pub fn synthesize(node: StateNode) -> (f: LogicalFrame)
    ensures
        f@ == synth_spec(node@),
    decreases node,
{
    let ghost n0 = node;
    proof {
        assert(locals_view(Seq::<LocalBinding>::empty()) =~= Seq::<LocalV>::empty());
    }
    match node {
        StateNode::Leaf { description } => LogicalFrame {
            name: description,
            locals: Vec::new(),
            body: FrameBody::Leaf { tag: LeafTag::Event },
        },
        StateNode::Opaque { raw_name } => LogicalFrame {
            name: raw_name,
            locals: Vec::new(),
            body: FrameBody::Leaf { tag: LeafTag::Opaque },
        },
        StateNode::Sequential { name, locals, callee } => {
            proof {
                assert(decreases_to!(n0 => n0->Sequential_callee));
            }
            let child = synthesize(*callee);
            LogicalFrame {
                name: name,
                locals: locals,
                body: FrameBody::Call { callee: Box::new(child) },
            }
        },
        StateNode::Combinator { kind, branches } => {
            let ghost v0 = branches;
            let mut cs = branches;
            let mut out: Vec<LogicalFrame> = Vec::new();
            let mut k: usize = 0;
            let n0len: usize = cs.len();
            proof {
                assert(cs@ =~= v0@.subrange(0, v0@.len() as int));
                assert(frame_seq_view(out@) =~= Seq::<FrameV>::empty());
                assert(frame_seq_view(out@) + synth_branches(crate::node::branch_seq_view(cs@)) =~= synth_branches(crate::node::branch_seq_view(v0@)));
            }
            #[verifier::loop_isolation(false)]
            while cs.len() > 0
                invariant
                    v0@.len() == n0len,
                    v0@.len() == k + cs@.len(),
                    cs@ == v0@.subrange(k as int, v0@.len() as int),
                    n0 == (StateNode::Combinator { kind, branches: v0 }),
                    frame_seq_view(out@) + synth_branches(crate::node::branch_seq_view(cs@)) == synth_branches(crate::node::branch_seq_view(v0@)),
                decreases cs@.len(),
            {
                let ghost rest = cs@;
                let b = cs.remove(0);
                proof {
                    assert(b == v0@[k as int]);
                    assert(decreases_to!(n0 => n0->Combinator_branches));
                    assert(n0->Combinator_branches == v0);
                    assert(decreases_to!(v0 => v0@));
                    assert(decreases_to!(v0@ => v0@[k as int]));
                    assert(decreases_to!(n0 => b));
                }
                let bf: LogicalFrame = match b {
                    BranchState::Active(inner) => {
                        proof {
                            assert(decreases_to!(b => b->Active_0));
                        }
                        synthesize(inner)
                    },
                    BranchState::NotStarted => LogicalFrame {
                        name: String::new(),
                        locals: Vec::new(),
                        body: FrameBody::Leaf { tag: LeafTag::NotStarted },
                    },
                    BranchState::Complete => LogicalFrame {
                        name: String::new(),
                        locals: Vec::new(),
                        body: FrameBody::Leaf { tag: LeafTag::Complete },
                    },
                };
                let ghost out_old = out@;
                out.push(bf);
                k = k + 1;
                proof {
                    assert(locals_view(Seq::<LocalBinding>::empty()) =~= Seq::<LocalV>::empty());
                    assert(frame_view(bf) == synth_branch(crate::node::branch_view(b)));
                    lemma_frame_seq_view_snoc(out_old, bf);
                    assert(rest.subrange(1, rest.len() as int) =~= v0@.subrange(k as int, v0@.len() as int));
                    let restv = crate::node::branch_seq_view(rest);
                    assert(restv[0] == crate::node::branch_view(b) && restv.drop_first() =~= crate::node::branch_seq_view(rest.drop_first()));
                    assert(synth_branches(restv) == seq![synth_branch(restv[0])] + synth_branches(restv.drop_first()));
                    assert(frame_seq_view(out@) + synth_branches(crate::node::branch_seq_view(cs@)) =~= frame_seq_view(out_old) + synth_branches(restv));
                }
            }
            proof {
                assert(crate::node::branch_seq_view(cs@).len() == 0);
                assert(synth_branches(crate::node::branch_seq_view(cs@)) =~= Seq::<FrameV>::empty());
                assert(frame_seq_view(out@) + Seq::<FrameV>::empty() =~= frame_seq_view(out@));
            }
            LogicalFrame {
                name: String::new(),
                locals: Vec::new(),
                body: FrameBody::Select { kind, branches: out },
            }
        },
    }
}

/// Synthesis keeps branch count and declared order: branch `i`'s frame is the
/// synthesis of branch `i`.
pub proof fn lemma_synth_branches_index(bs: Seq<BranchV>)
    ensures
        synth_branches(bs).len() == bs.len(),
        forall|i: int| 0 <= i < bs.len() ==> #[trigger] synth_branches(bs)[i] == synth_branch(bs[i]),
    decreases bs,
{
    if bs.len() > 0 {
        lemma_synth_branches_index(bs.drop_first());
        assert forall|i: int| 0 <= i < bs.len() implies #[trigger] synth_branches(bs)[i] == synth_branch(bs[i]) by {
            if i > 0 {
                assert(synth_branches(bs)[i] == synth_branches(bs.drop_first())[i - 1]);
                assert(bs.drop_first()[i - 1] == bs[i]);
            }
        }
    }
}

} // verus!
