//! The inputs of an inspection: a frozen snapshot of target memory and the
//! debug-info description of a suspended computation's captured-state layout.
//!
//! Target memory is modelled word by word: the host debugger hands the
//! reconstructor the region of memory that holds the suspended value, and the
//! type descriptor it recovered from debug info.  A suspended value occupies a
//! contiguous run of words:
//!
//! - a value awaiting an external event is one word, its tag;
//! - a sequential continuation is its tag, one word per captured local (in
//!   declaration order), then the callee's region;
//! - a combinator is its tag, then for each branch (in construction order) a
//!   status word followed by the branch's region, which is reserved whether or
//!   not the branch has begun executing.
use vstd::prelude::*;

verus! {

broadcast use vstd::std_specs::vec::axiom_vec_index_decreases, vstd::std_specs::vec::axiom_vec_decreases_to_view, vstd::seq::axiom_seq_index_decreases, vstd::seq::axiom_seq_subrange_decreases;

/// Tag word of a leaf suspended on an external event.
pub const TAG_EVENT: u64 = 11;

/// Tag word of a sequential continuation suspended on its callee.
pub const TAG_AWAIT: u64 = 12;

/// Tag word of a first-completion-wins combinator.
pub const TAG_SELECT: u64 = 13;

/// Branch status word: the branch has never been polled; its region holds
/// arbitrary, uninitialized words.
pub const STATUS_NOT_STARTED: u64 = 0;

/// Branch status word: the branch is itself a pending suspended value.
pub const STATUS_ACTIVE: u64 = 1;

/// Branch status word: the branch completed but its result has not yet been
/// observed by the combinator.
pub const STATUS_COMPLETE: u64 = 2;

/// The frozen memory of the stopped target process, word-addressed.
/// The reconstructor only ever reads it.
pub struct Snapshot {
    pub words: Vec<u64>,
}

impl View for Snapshot {
    type V = Seq<u64>;

    open spec fn view(&self) -> Seq<u64> {
        self.words@
    }
}

impl Snapshot {
    /// Read one word of target memory; `None` exactly when the address lies
    /// outside the captured region.
    pub fn read(&self, addr: usize) -> (r: Option<u64>)
        ensures
            r is Some <==> addr < self@.len(),
            r matches Some(w) ==> w == self@[addr as int],
    {
        if addr < self.words.len() {
            Some(self.words[addr])
        } else {
            None
        }
    }

    /// Number of words captured.
    pub fn len(&self) -> (n: usize)
        ensures
            n == self@.len(),
    {
        self.words.len()
    }
}

/// What debug info says about the layout of one suspended-computation type.
pub enum Layout {
    /// A leaf: pending on an external event, no nested computation field.
    Event,
    /// A sequential continuation: the named captured locals, then exactly one
    /// nested suspended computation.
    Await { locals: Vec<String>, callee: Box<TypeDesc> },
    /// A fixed-size ordered collection of nested suspended computations with
    /// no single "next" field; first completion selects the outcome.
    Select { branches: Vec<TypeDesc> },
}

/// A type descriptor recovered from debug info: the type's display name and
/// its captured-state layout.
pub struct TypeDesc {
    pub name: String,
    pub layout: Layout,
}

/// A computation paused mid-execution: the address of its region in the
/// snapshot and the descriptor of its type.  Immutable once captured.
pub struct SuspendedValue {
    pub addr: usize,
    pub ty: TypeDesc,
}

/// Number of words a value of layout `l` occupies in target memory.
pub open spec fn layout_size(l: Layout) -> nat
    decreases l,
{
    match l {
        Layout::Event => 1,
        Layout::Await { locals, callee } => 1 + locals@.len() + layout_size(callee.layout),
        Layout::Select { branches } => 1 + branch_sizes(branches@),
    }
}

/// Total number of words the given branch regions occupy, one status word and
/// one region per branch.
pub open spec fn branch_sizes(ts: Seq<TypeDesc>) -> nat
    decreases ts,
{
    if ts.len() == 0 {
        0
    } else {
        1 + layout_size(ts[0].layout) + branch_sizes(ts.drop_first())
    }
}

/// Number of words a value of type `t` occupies in target memory.
pub open spec fn size_of(t: TypeDesc) -> nat {
    layout_size(t.layout)
}

/// Every branch region fits inside the whole collection's region.
pub proof fn lemma_branch_size_le(ts: Seq<TypeDesc>, i: int)
    requires
        0 <= i < ts.len(),
    ensures
        layout_size(ts[i].layout) < branch_sizes(ts),
        branch_sizes(ts.subrange(i, ts.len() as int)) <= branch_sizes(ts),
    decreases ts,
{
    assert(ts.subrange(0, ts.len() as int) =~= ts);
    if i == 0 {
        assert(ts.subrange(0, ts.len() as int).drop_first() =~= ts.drop_first());
    } else {
        lemma_branch_size_le(ts.drop_first(), i - 1);
        assert(ts.drop_first().subrange(i - 1, ts.drop_first().len() as int) =~= ts.subrange(i, ts.len() as int));
    }
}

/// Executable size computation; `None` exactly when the size does not fit in
/// `usize` (such a region can never fit inside a captured snapshot).
pub fn words_of(t: &TypeDesc) -> (r: Option<usize>)
    ensures
        r matches Some(n) ==> n == size_of(*t),
        r is None ==> size_of(*t) > usize::MAX,
    decreases *t,
{
    match &t.layout {
        Layout::Event => Some(1),
        Layout::Await { locals, callee } => {
            match words_of(callee) {
                None => None,
                Some(inner) => {
                    let k = locals.len();
                    if inner <= usize::MAX - 1 && k <= usize::MAX - 1 - inner {
                        Some(1 + k + inner)
                    } else {
                        None
                    }
                },
            }
        },
        Layout::Select { branches } => {
            let mut total: usize = 1;
            let mut i: usize = 0;
            let n = branches.len();
            #[verifier::loop_isolation(false)]
            while i < n
                invariant
                    0 <= i <= n,
                    total == 1 + branch_sizes(branches@.subrange(0, i as int)),
                decreases n - i,
            {
                let ghost pre = branches@.subrange(0, i as int);
                match words_of(&branches[i]) {
                    None => {
                        proof {
                            lemma_branch_size_le(branches@, i as int);
                        }
                        return None;
                    },
                    Some(b) => {
                        if b <= usize::MAX - 1 && total <= usize::MAX - 1 - b {
                            total = total + 1 + b;
                            proof {
                                lemma_branch_sizes_snoc(pre, branches@[i as int]);
                                assert(pre.push(branches@[i as int]) =~= branches@.subrange(0, i + 1));
                            }
                            i = i + 1;
                        } else {
                            proof {
                                lemma_branch_sizes_prefix(branches@, i as int);
                            }
                            return None;
                        }
                    },
                }
            }
            proof {
                assert(branches@.subrange(0, n as int) =~= branches@);
            }
            Some(total)
        },
    }
}

/// Appending one branch region adds its status word and its size.
pub proof fn lemma_branch_sizes_snoc(ts: Seq<TypeDesc>, t: TypeDesc)
    ensures
        branch_sizes(ts.push(t)) == branch_sizes(ts) + 1 + layout_size(t.layout),
    decreases ts,
{
    assert(ts.push(t).len() == ts.len() + 1);
    assert(ts.push(t)[0] == if ts.len() == 0 { t } else { ts[0] });
    if ts.len() == 0 {
        assert(ts.push(t).drop_first() =~= Seq::<TypeDesc>::empty());
        assert(branch_sizes(ts.push(t)) == 1 + layout_size(t.layout) + branch_sizes(ts.push(t).drop_first()));
        assert(branch_sizes(Seq::<TypeDesc>::empty()) == 0);
    } else {
        lemma_branch_sizes_snoc(ts.drop_first(), t);
        assert(ts.push(t).drop_first() =~= ts.drop_first().push(t));
        assert(branch_sizes(ts.push(t)) == 1 + layout_size(ts[0].layout) + branch_sizes(ts.drop_first().push(t)));
        assert(branch_sizes(ts) == 1 + layout_size(ts[0].layout) + branch_sizes(ts.drop_first()));
    }
}

/// A prefix of the branch regions, plus the next region with its status word,
/// never exceeds the whole.
pub proof fn lemma_branch_sizes_prefix(ts: Seq<TypeDesc>, i: int)
    requires
        0 <= i < ts.len(),
    ensures
        branch_sizes(ts.subrange(0, i)) + 1 + layout_size(ts[i].layout) <= branch_sizes(ts),
    decreases i,
{
    if i == 0 {
        assert(branch_sizes(ts.subrange(0, 0)) == 0);
    } else {
        lemma_branch_sizes_prefix(ts.drop_first(), i - 1);
        assert(ts.drop_first().subrange(0, i - 1) =~= ts.subrange(1, i));
        assert(ts.subrange(0, i).drop_first() =~= ts.subrange(1, i));
        assert(ts.drop_first()[i - 1] == ts[i]);
    }
}

} // verus!
