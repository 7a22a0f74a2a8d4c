//! The state descriptor reader: classifies a suspended value's memory region
//! against its debug-info layout, yielding a tree of state nodes.
//!
//! A node whose tag word matches no known shape is recovered as an opaque leaf
//! labeled with its raw type name; a combinator branch whose status word is
//! unknown likewise becomes an opaque branch.  Only a region that cannot be
//! read at all (it does not lie inside the captured snapshot) fails the whole
//! inspection.
use vstd::prelude::*;
use vstd::pervasive::unreached;

use crate::model::{Snapshot, SuspendedValue, TypeDesc, Layout, layout_size, branch_sizes, size_of, words_of, lemma_branch_size_le, lemma_branch_sizes_prefix, TAG_EVENT, TAG_AWAIT, TAG_SELECT, STATUS_NOT_STARTED, STATUS_ACTIVE, STATUS_COMPLETE};
use crate::node::{StateNode, BranchState, CombinatorKind, LocalBinding, LocalV, NodeV, BranchV, locals_view, branch_seq_view, branch_view, lemma_branch_seq_view_snoc};

verus! {

broadcast use vstd::std_specs::vec::axiom_vec_index_decreases, vstd::std_specs::vec::axiom_vec_decreases_to_view, vstd::seq::axiom_seq_index_decreases, vstd::seq::axiom_seq_subrange_decreases;

/// The one fatal error of an inspection: the suspended value's region does not
/// lie inside the captured snapshot (for example, the target exited).  Every
/// node-level mismatch is recovered locally instead.
#[derive(Debug)]
pub enum InspectError {
    TargetUnreadable,
}

/// The captured locals of a sequential continuation: `names[i]` bound to the
/// word at `base + i`.
pub open spec fn captured_spec(mem: Seq<u64>, base: int, names: Seq<String>) -> Seq<LocalV> {
    names.map(|i: int, nm: String| LocalV { name: nm@, value: mem[base + i] })
}

/// Classification of the region at `addr` whose type has the given display
/// name and layout.
pub open spec fn classify_layout(mem: Seq<u64>, addr: int, name: Seq<char>, l: Layout) -> NodeV
    decreases l,
{
    match l {
        Layout::Event => if mem[addr] == TAG_EVENT {
            NodeV::Leaf { description: name }
        } else {
            NodeV::Opaque { raw_name: name }
        },
        Layout::Await { locals, callee } => if mem[addr] == TAG_AWAIT {
            NodeV::Sequential {
                name: name,
                locals: captured_spec(mem, addr + 1, locals@),
                callee: Box::new(classify_layout(mem, addr + 1 + locals@.len(), callee.name@, callee.layout)),
            }
        } else {
            NodeV::Opaque { raw_name: name }
        },
        Layout::Select { branches } => if mem[addr] == TAG_SELECT {
            NodeV::Combinator {
                kind: CombinatorKind::Race,
                branches: classify_branches(mem, addr + 1, branches@),
            }
        } else {
            NodeV::Opaque { raw_name: name }
        },
    }
}

/// Classification of a run of combinator branch regions starting at `pos`,
/// in construction order: a status word, then the branch's own region.
pub open spec fn classify_branches(mem: Seq<u64>, pos: int, ts: Seq<TypeDesc>) -> Seq<BranchV>
    decreases ts,
{
    if ts.len() == 0 {
        Seq::empty()
    } else {
        let b = if mem[pos] == STATUS_NOT_STARTED {
            BranchV::NotStarted
        } else if mem[pos] == STATUS_COMPLETE {
            BranchV::Complete
        } else if mem[pos] == STATUS_ACTIVE {
            BranchV::Active(classify_layout(mem, pos + 1, ts[0].name@, ts[0].layout))
        } else {
            BranchV::Active(NodeV::Opaque { raw_name: ts[0].name@ })
        };
        seq![b] + classify_branches(mem, pos + 1 + layout_size(ts[0].layout), ts.drop_first())
    }
}

/// Classification of a whole suspended value.
pub open spec fn classify_spec(mem: Seq<u64>, value: SuspendedValue) -> NodeV {
    classify_layout(mem, value.addr as int, value.ty.name@, value.ty.layout)
}

/// Classify the suspended value against the frozen snapshot.  Succeeds exactly
/// when the value's whole region lies inside the snapshot; the resulting node
/// tree is the classification of that memory.
pub fn classify(snap: &Snapshot, value: &SuspendedValue) -> (r: Result<StateNode, InspectError>)
    ensures
        r is Ok <==> value.addr + size_of(value.ty) <= snap@.len(),
        r matches Ok(node) ==> node@ == classify_spec(snap@, *value),
{
    let n = snap.len();
    match words_of(&value.ty) {
        None => Err(InspectError::TargetUnreadable),
        Some(sz) => {
            if value.addr <= n && sz <= n - value.addr {
                Ok(classify_at(snap, value.addr, &value.ty.name, &value.ty.layout))
            } else {
                Err(InspectError::TargetUnreadable)
            }
        },
    }
}

/// Classify the region at `addr`, known to lie inside the snapshot.
fn classify_at(snap: &Snapshot, addr: usize, name: &String, l: &Layout) -> (node: StateNode)
    requires
        addr + layout_size(*l) <= snap@.len(),
    ensures
        node@ == classify_layout(snap@, addr as int, name@, *l),
    decreases *l,
{
    let snap_len = snap.len();
    let tag = match snap.read(addr) {
        Some(w) => w,
        None => unreached(),
    };
    match l {
        Layout::Event => {
            if tag == TAG_EVENT {
                StateNode::Leaf { description: name.clone() }
            } else {
                StateNode::Opaque { raw_name: name.clone() }
            }
        },
        Layout::Await { locals, callee } => {
            if tag == TAG_AWAIT {
                let k = locals.len();
                let mut lb: Vec<LocalBinding> = Vec::new();
                let mut i: usize = 0;
                #[verifier::loop_isolation(false)]
                while i < k
                    invariant
                        0 <= i <= k,
                        lb@.len() == i,
                        locals_view(lb@) =~= captured_spec(snap@, addr + 1, locals@.subrange(0, i as int)),
                    decreases k - i,
                {
                    let w = match snap.read(addr + 1 + i) {
                        Some(w) => w,
                        None => unreached(),
                    };
                    let ghost lb_old = lb@;
                    lb.push(LocalBinding { name: locals[i].clone(), value: w });
                    i = i + 1;
                    proof {
                        let cur = locals_view(lb@);
                        let tgt = captured_spec(snap@, addr + 1, locals@.subrange(0, i as int));
                        assert(cur.len() == i && tgt.len() == i);
                        assert forall|j: int| 0 <= j < i implies cur[j] == tgt[j] by {
                            if j < i - 1 {
                                assert(lb@[j] == lb_old[j]);
                                assert(cur[j] == locals_view(lb_old)[j]);
                                assert(locals_view(lb_old)[j] == captured_spec(snap@, addr + 1, locals@.subrange(0, i - 1))[j]);
                                assert(locals@.subrange(0, i - 1)[j] == locals@[j]);
                                assert(locals@.subrange(0, i as int)[j] == locals@[j]);
                            } else {
                                assert(lb@[j] == LocalBinding { name: lb@[j].name, value: w });
                                assert(locals@.subrange(0, i as int)[j] == locals@[j]);
                            }
                        }
                        assert(cur =~= tgt);
                    }
                }
                proof {
                    assert(locals@.subrange(0, k as int) =~= locals@);
                    assert(addr + 1 + k + layout_size(callee.layout) <= snap_len);
                }
                let child = classify_at(snap, addr + 1 + k, &callee.name, &callee.layout);
                StateNode::Sequential { name: name.clone(), locals: lb, callee: Box::new(child) }
            } else {
                StateNode::Opaque { raw_name: name.clone() }
            }
        },
        Layout::Select { branches } => {
            if tag == TAG_SELECT {
                let ghost l0 = *l;
                let n = branches.len();
                let mut bs: Vec<BranchState> = Vec::new();
                let mut pos: usize = addr + 1;
                let mut i: usize = 0;
                proof {
                    assert(layout_size(*l) == 1 + branch_sizes(branches@));
                    assert(branches@.subrange(0, 0) =~= Seq::<TypeDesc>::empty());
                    assert(branches@.subrange(0, n as int) =~= branches@);
                    assert(branch_seq_view(bs@) =~= Seq::<BranchV>::empty());
                    assert(branch_seq_view(bs@) + classify_branches(snap@, pos as int, branches@) =~= classify_branches(snap@, addr + 1 as int, branches@));
                }
                #[verifier::loop_isolation(false)]
                while i < n
                    invariant
                        0 <= i <= n,
                        bs@.len() == i,
                        pos == addr + 1 + branch_sizes(branches@.subrange(0, i as int)),
                        pos + branch_sizes(branches@.subrange(i as int, n as int)) <= snap@.len(),
                        classify_branches(snap@, addr + 1 as int, branches@) == branch_seq_view(bs@) + classify_branches(snap@, pos as int, branches@.subrange(i as int, n as int)),
                    decreases n - i,
                {
                    let ghost rem = branches@.subrange(i as int, n as int);
                    proof {
                        assert(rem[0] == branches@[i as int]);
                        assert(rem.drop_first() =~= branches@.subrange(i + 1, n as int));
                        lemma_branch_size_le(rem, 0);
                    }
                    let status = match snap.read(pos) {
                        Some(w) => w,
                        None => unreached(),
                    };
                    let bsz = match words_of(&branches[i]) {
                        Some(s) => s,
                        None => unreached(),
                    };
                    let b: BranchState = if status == STATUS_NOT_STARTED {
                        BranchState::NotStarted
                    } else if status == STATUS_COMPLETE {
                        BranchState::Complete
                    } else if status == STATUS_ACTIVE {
                        proof {
                            assert(decreases_to!(l0 => l0->branches));
                            assert(l0->branches == *branches);
                            assert(decreases_to!(*branches => branches@));
                            assert(decreases_to!(branches@ => branches@[i as int]));
                            assert(decreases_to!(l0 => branches@[i as int].layout));
                        }
                        BranchState::Active(classify_at(snap, pos + 1, &branches[i].name, &branches[i].layout))
                    } else {
                        BranchState::Active(StateNode::Opaque { raw_name: branches[i].name.clone() })
                    };
                    let ghost bs_old = bs@;
                    bs.push(b);
                    proof {
                        lemma_branch_seq_view_snoc(bs_old, b);
                        assert(branch_view(b) == classify_branches(snap@, pos as int, rem)[0]);
                        assert(branch_seq_view(bs@) =~= branch_seq_view(bs_old).push(branch_view(b)));
                        assert(branch_seq_view(bs@) + classify_branches(snap@, pos + 1 + layout_size(rem[0].layout), rem.drop_first()) =~= branch_seq_view(bs_old) + classify_branches(snap@, pos as int, rem));
                        assert(branches@.subrange(0, i + 1) =~= branches@.subrange(0, i as int).push(branches@[i as int]));
                        crate::model::lemma_branch_sizes_snoc(branches@.subrange(0, i as int), branches@[i as int]);
                    }
                    pos = pos + 1 + bsz;
                    i = i + 1;
                }
                proof {
                    assert(branches@.subrange(i as int, n as int).len() == 0);
                    assert(classify_branches(snap@, pos as int, branches@.subrange(i as int, n as int)) =~= Seq::<BranchV>::empty());
                    assert(branch_seq_view(bs@) + Seq::<BranchV>::empty() =~= branch_seq_view(bs@));
                }
                StateNode::Combinator { kind: CombinatorKind::Race, branches: bs }
            } else {
                StateNode::Opaque { raw_name: name.clone() }
            }
        },
    }
}

/// Captured-local fidelity: in a well-tagged sequential node, the classified
/// locals are exactly the named debug-info bindings paired, in declaration
/// order, with the live words of target memory at the suspension point.
pub proof fn lemma_locals_match_memory(mem: Seq<u64>, addr: int, name: Seq<char>, l: Layout)
    requires
        l is Await,
        mem[addr] == TAG_AWAIT,
    ensures
        ({
            let node = classify_layout(mem, addr, name, l);
            let names = l->locals@;
            &&& node is Sequential
            &&& node->locals.len() == names.len()
            &&& forall|i: int| 0 <= i < names.len() ==> node->locals[i].value == mem[addr + 1 + i]
                && node->locals[i].name == names[i]@
        }),
{
}

} // verus!
