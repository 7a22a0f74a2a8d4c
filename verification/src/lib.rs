//! A logical-stack reconstructor for suspended asynchronous computations.
//!
//! Given a frozen snapshot of a stopped target process and the debug-info
//! description of a suspended computation's type, the library recovers the
//! nested chain of logical calls that produced the paused value and renders it
//! as a human-readable report: the reader classifies the captured-state
//! layout, the synthesizer turns classified nodes into printable logical
//! frames, the walker flattens the frame tree depth-first in call order, and
//! the printer renders the result deterministically.
//!
//! The reconstructor never mutates target memory: it works on an immutable
//! snapshot and either returns a complete report or fails outright when the
//! inspected region cannot be read at all.  Node-level mismatches are
//! recovered locally (an opaque leaf, a placeholder branch, a truncation
//! marker) and never abort the walk.
use vstd::prelude::*;

pub mod model;
pub mod node;
pub mod reader;
pub mod frame;
pub mod walker;
pub mod printer;

use crate::model::{Snapshot, SuspendedValue, size_of};
use crate::reader::{classify, classify_spec, InspectError};
use crate::frame::{synthesize, synth_spec};
use crate::walker::{walk, walk_spec, EntryV};
use crate::printer::{render, render_spec};

verus! {

/// The depth budget of one inspection: deep enough for any realistic nesting,
/// small enough to stop a misclassified cycle quickly.
pub const DEPTH_LIMIT: usize = 256;

/// The report entries reconstructed from a snapshot: classify the suspended
/// value, synthesize its logical frames, walk them in call order.
pub open spec fn report_spec(mem: Seq<u64>, value: SuspendedValue, limit: nat) -> Seq<EntryV> {
    walk_spec(synth_spec(classify_spec(mem, value)), 0, false, limit)
}

/// The text an inspection of `value` against `mem` produces, with `limit`
/// levels of depth budget.
pub open spec fn inspect_spec(mem: Seq<u64>, value: SuspendedValue, limit: nat) -> Seq<char> {
    render_spec(report_spec(mem, value, limit))
}

/// One whole inspection command: reconstruct and render the logical stack of
/// the suspended value.  Succeeds exactly when the value's region lies inside
/// the snapshot; the text is a pure function of the frozen snapshot.
pub fn inspect(snap: &Snapshot, value: &SuspendedValue) -> (r: Result<String, InspectError>)
    ensures
        r is Ok <==> value.addr + size_of(value.ty) <= snap@.len(),
        r matches Ok(text) ==> text@ == inspect_spec(snap@, *value, DEPTH_LIMIT as nat),
{
    match classify(snap, value) {
        Err(e) => Err(e),
        Ok(node) => {
            let root = synthesize(node);
            let report = walk(root, DEPTH_LIMIT);
            Ok(render(&report))
        },
    }
}

/// Determinism of rendering: any two inspection texts reconstructed from the
/// same frozen snapshot, the same suspended value and the same depth budget
/// are byte-identical.
pub proof fn lemma_inspect_deterministic(mem: Seq<u64>, value: SuspendedValue, limit: nat, t1: Seq<char>, t2: Seq<char>)
    requires
        t1 == inspect_spec(mem, value, limit),
        t2 == inspect_spec(mem, value, limit),
    ensures
        t1 == t2,
{
}

} // verus!
