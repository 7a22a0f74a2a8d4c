//! The classified interpretation of a suspended value: a tree of state nodes,
//! one per nested suspended computation, rooted at the inspected value.
use vstd::prelude::*;

verus! {

broadcast use vstd::std_specs::vec::axiom_vec_index_decreases, vstd::std_specs::vec::axiom_vec_decreases_to_view, vstd::seq::axiom_seq_index_decreases, vstd::seq::axiom_seq_subrange_decreases;

/// The completion policy of a combinator node.  The debugger enumerates the
/// shapes it recognizes ahead of time, so the kind is a closed enum rather
/// than open-ended dispatch.
#[derive(Clone, Copy, PartialEq, Eq, Structural)]
pub enum CombinatorKind {
    /// First completion among the branches wins.
    Race,
}

/// One captured local visible at the current suspension point.
pub struct LocalBinding {
    pub name: String,
    pub value: u64,
}

/// Mathematical image of a captured local.
pub struct LocalV {
    pub name: Seq<char>,
    pub value: u64,
}

impl View for LocalBinding {
    type V = LocalV;

    open spec fn view(&self) -> LocalV {
        LocalV { name: self.name@, value: self.value }
    }
}

/// The classified shape of one suspended value.
pub enum StateNode {
    /// Awaiting an external event; no further logical children.
    Leaf { description: String },
    /// Awaits exactly one child; the captured locals are those visible at the
    /// suspension point.
    Sequential { name: String, locals: Vec<LocalBinding>, callee: Box<StateNode> },
    /// Multiple sub-computations polled concurrently, in construction order.
    Combinator { kind: CombinatorKind, branches: Vec<BranchState> },
    /// Memory matched no known shape; kept as an opaque leaf labeled with the
    /// raw type name so one bad node never aborts the whole walk.
    Opaque { raw_name: String },
}

/// One combinator branch, as found in the frozen snapshot.
pub enum BranchState {
    /// The branch is itself a pending suspended value.
    Active(StateNode),
    /// The branch has never been polled; its memory is uninitialized.
    NotStarted,
    /// The branch completed, but the combinator has not yet observed it.
    Complete,
}

/// Mathematical image of a state node.
pub enum NodeV {
    Leaf { description: Seq<char> },
    Sequential { name: Seq<char>, locals: Seq<LocalV>, callee: Box<NodeV> },
    Combinator { kind: CombinatorKind, branches: Seq<BranchV> },
    Opaque { raw_name: Seq<char> },
}

/// Mathematical image of a combinator branch.
pub enum BranchV {
    Active(NodeV),
    NotStarted,
    Complete,
}

/// Image of a sequence of captured locals.
pub open spec fn locals_view(s: Seq<LocalBinding>) -> Seq<LocalV> {
    s.map_values(|l: LocalBinding| l@)
}

/// Image of a state node.
pub open spec fn node_view(n: StateNode) -> NodeV
    decreases n,
{
    match n {
        StateNode::Leaf { description } => NodeV::Leaf { description: description@ },
        StateNode::Sequential { name, locals, callee } => NodeV::Sequential {
            name: name@,
            locals: locals_view(locals@),
            callee: Box::new(node_view(*callee)),
        },
        StateNode::Combinator { kind, branches } => NodeV::Combinator {
            kind,
            branches: branch_seq_view(branches@),
        },
        StateNode::Opaque { raw_name } => NodeV::Opaque { raw_name: raw_name@ },
    }
}

/// Image of a sequence of branches, in order.
pub open spec fn branch_seq_view(s: Seq<BranchState>) -> Seq<BranchV>
    decreases s,
{
    if s.len() == 0 {
        Seq::empty()
    } else {
        seq![branch_view(s[0])] + branch_seq_view(s.drop_first())
    }
}

/// Image of one branch.
pub open spec fn branch_view(b: BranchState) -> BranchV
    decreases b,
{
    match b {
        BranchState::Active(n) => BranchV::Active(node_view(n)),
        BranchState::NotStarted => BranchV::NotStarted,
        BranchState::Complete => BranchV::Complete,
    }
}

impl View for StateNode {
    type V = NodeV;

    open spec fn view(&self) -> NodeV {
        node_view(*self)
    }
}

impl View for BranchState {
    type V = BranchV;

    open spec fn view(&self) -> BranchV {
        branch_view(*self)
    }
}

/// Appending one branch appends its image.
pub proof fn lemma_branch_seq_view_snoc(s: Seq<BranchState>, b: BranchState)
    ensures
        branch_seq_view(s.push(b)) == branch_seq_view(s).push(branch_view(b)),
    decreases s,
{
    assert(s.push(b).len() == s.len() + 1);
    assert(s.push(b)[0] == if s.len() == 0 { b } else { s[0] });
    if s.len() == 0 {
        assert(s.push(b).drop_first() =~= Seq::<BranchState>::empty());
        assert(branch_seq_view(Seq::<BranchState>::empty()) =~= Seq::<BranchV>::empty());
        assert(branch_seq_view(s.push(b)) =~= branch_seq_view(s).push(branch_view(b)));
    } else {
        lemma_branch_seq_view_snoc(s.drop_first(), b);
        assert(s.push(b).drop_first() =~= s.drop_first().push(b));
        assert(branch_seq_view(s.push(b)) == seq![branch_view(s[0])] + branch_seq_view(s.drop_first().push(b)));
        assert(branch_seq_view(s) == seq![branch_view(s[0])] + branch_seq_view(s.drop_first()));
        assert(branch_seq_view(s.push(b)) =~= branch_seq_view(s).push(branch_view(b)));
    }
}

} // verus!
