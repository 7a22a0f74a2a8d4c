//! The pretty printer: renders walked report entries as text, one line per
//! entry.
//!
//! A frame line is its name followed by the captured locals as `name=value`
//! pairs in capture order; a combinator renders as a marker line, each branch
//! introduced by an arrow, nested one level deeper per depth unit.  The text is
//! a pure function of the report, so two renderings of the same frozen
//! snapshot are byte-identical.
use vstd::prelude::*;
use vstd::string::StringExecFns;

use crate::node::{CombinatorKind, LocalBinding, LocalV, locals_view};
use crate::frame::LeafTag;
use crate::walker::{Report, ReportEntry, LineKind, EntryV, LineV};

verus! {

broadcast use vstd::std_specs::vec::axiom_vec_index_decreases, vstd::std_specs::vec::axiom_vec_decreases_to_view, vstd::seq::axiom_seq_index_decreases, vstd::seq::axiom_seq_subrange_decreases;

/// The decimal digit character of `d` (a single digit).
pub open spec fn digit_char(d: nat) -> char {
    if d == 0 { '0' }
    else if d == 1 { '1' }
    else if d == 2 { '2' }
    else if d == 3 { '3' }
    else if d == 4 { '4' }
    else if d == 5 { '5' }
    else if d == 6 { '6' }
    else if d == 7 { '7' }
    else if d == 8 { '8' }
    else { '9' }
}

/// The decimal rendering of `n`, most significant digit first, no leading
/// zeros (a single `0` for zero).
pub open spec fn dec_seq(n: nat) -> Seq<char>
    decreases n,
{
    if n < 10 {
        seq![digit_char(n)]
    } else {
        dec_seq(n / 10).push(digit_char(n % 10))
    }
}

/// Two spaces of indentation per depth unit.
pub open spec fn indent(d: int) -> Seq<char>
    decreases d,
{
    if d <= 0 {
        Seq::empty()
    } else {
        indent(d - 1) + "  "@
    }
}

/// One captured local as `name=value`.
pub open spec fn local_text(l: LocalV) -> Seq<char> {
    l.name + "="@ + dec_seq(l.value as nat)
}

/// The captured locals joined with `, `, in capture order.
pub open spec fn locals_text(ls: Seq<LocalV>) -> Seq<char>
    decreases ls,
{
    if ls.len() == 0 {
        Seq::empty()
    } else if ls.len() == 1 {
        local_text(ls[0])
    } else {
        local_text(ls[0]) + ", "@ + locals_text(ls.drop_first())
    }
}

/// The text of one report line, without indentation or arrow.
pub open spec fn line_text(l: LineV) -> Seq<char> {
    match l {
        LineV::Frame { name, locals } => if locals.len() == 0 {
            name
        } else {
            name + " ["@ + locals_text(locals) + "]"@
        },
        LineV::Leaf { tag, text } => match tag {
            LeafTag::Event => text,
            LeafTag::Opaque => text,
            LeafTag::NotStarted => "<not yet started>"@,
            LeafTag::Complete => "(complete, not yet observed)"@,
        },
        LineV::Marker { kind } => match kind {
            CombinatorKind::Race => "(race)"@,
        },
        LineV::Truncated => "(truncated: depth limit reached)"@,
    }
}

/// One rendered report line: indentation, branch arrow if any, the line's
/// text, and a line break.
pub open spec fn render_line(e: EntryV) -> Seq<char> {
    indent(e.depth) + (if e.arrow { "=> "@ } else { Seq::<char>::empty() }) + line_text(e.line) + "\n"@
}

/// The rendered report: every line in emission order.
pub open spec fn render_spec(es: Seq<EntryV>) -> Seq<char>
    decreases es,
{
    if es.len() == 0 {
        Seq::empty()
    } else {
        render_line(es[0]) + render_spec(es.drop_first())
    }
}

/// The decimal digit string of a single digit.
fn digit_str(d: u64) -> (r: &'static str)
    requires
        d < 10,
    ensures
        r@ == seq![digit_char(d as nat)],
{
    proof {
        reveal_strlit("0");
        reveal_strlit("1");
        reveal_strlit("2");
        reveal_strlit("3");
        reveal_strlit("4");
        reveal_strlit("5");
        reveal_strlit("6");
        reveal_strlit("7");
        reveal_strlit("8");
        reveal_strlit("9");
    }
    if d == 0 { proof { assert("0"@ =~= seq![digit_char(0)]); } "0" }
    else if d == 1 { proof { assert("1"@ =~= seq![digit_char(1)]); } "1" }
    else if d == 2 { proof { assert("2"@ =~= seq![digit_char(2)]); } "2" }
    else if d == 3 { proof { assert("3"@ =~= seq![digit_char(3)]); } "3" }
    else if d == 4 { proof { assert("4"@ =~= seq![digit_char(4)]); } "4" }
    else if d == 5 { proof { assert("5"@ =~= seq![digit_char(5)]); } "5" }
    else if d == 6 { proof { assert("6"@ =~= seq![digit_char(6)]); } "6" }
    else if d == 7 { proof { assert("7"@ =~= seq![digit_char(7)]); } "7" }
    else if d == 8 { proof { assert("8"@ =~= seq![digit_char(8)]); } "8" }
    else { proof { assert("9"@ =~= seq![digit_char(9)]); } "9" }
}

/// The decimal rendering of a value.
fn u64_to_dec(v: u64) -> (s: String)
    ensures
        s@ == dec_seq(v as nat),
    decreases v,
{
    if v < 10 {
        digit_str(v).to_owned()
    } else {
        let mut s = u64_to_dec(v / 10);
        s.append(digit_str(v % 10));
        proof {
            assert(dec_seq((v / 10) as nat) + seq![digit_char((v % 10) as nat)] =~= dec_seq((v / 10) as nat).push(digit_char((v % 10) as nat)));
            assert(dec_seq(v as nat) == dec_seq((v / 10) as nat).push(digit_char((v % 10) as nat)));
        }
        s
    }
}

/// Append the captured locals as `name=value, name=value` to `line`.
fn append_locals(line: &mut String, locals: &Vec<LocalBinding>)
    ensures
        final(line)@ == old(line)@ + locals_text(locals_view(locals@)),
{
    let ghost base = line@;
    let ghost lv = locals_view(locals@);
    let m = locals.len();
    let mut k: usize = 0;
    proof {
        assert(lv.subrange(0, m as int) =~= lv);
        assert(base + locals_text(lv.subrange(0, m as int)) =~= base + locals_text(lv));
    }
    #[verifier::loop_isolation(false)]
    while k < m
        invariant
            0 <= k <= m,
            lv.len() == m,
            line@ + locals_text(lv.subrange(k as int, m as int)) == base + locals_text(lv),
        decreases m - k,
    {
        let ghost at = line@;
        let ghost rem = lv.subrange(k as int, m as int);
        line.append(locals[k].name.as_str());
        line.append("=");
        let dv = u64_to_dec(locals[k].value);
        line.append(dv.as_str());
        proof {
            assert(rem[0] == lv[k as int]);
            assert(lv[k as int] == locals@[k as int]@);
            assert(line@ =~= at + local_text(rem[0]));
        }
        if k + 1 < m {
            line.append(", ");
            proof {
                assert(rem.drop_first() =~= lv.subrange(k + 1, m as int));
                assert(locals_text(rem) == local_text(rem[0]) + ", "@ + locals_text(rem.drop_first()));
                assert(line@ + locals_text(lv.subrange(k + 1, m as int)) =~= at + locals_text(rem));
            }
        } else {
            proof {
                assert(rem.len() == 1);
                assert(locals_text(rem) == local_text(rem[0]));
                assert(lv.subrange(k + 1, m as int).len() == 0);
                assert(locals_text(lv.subrange(k + 1, m as int)) == Seq::<char>::empty());
                assert(line@ + locals_text(lv.subrange(k + 1, m as int)) =~= at + locals_text(rem));
            }
        }
        k = k + 1;
    }
    proof {
        assert(lv.subrange(m as int, m as int).len() == 0);
        assert(locals_text(lv.subrange(m as int, m as int)) == Seq::<char>::empty());
        assert(line@ + Seq::<char>::empty() =~= line@);
    }
}

/// Append one rendered report line to `s`.
fn append_line(s: &mut String, e: &ReportEntry)
    ensures
        final(s)@ == old(s)@ + render_line(e@),
{
    let ghost base = s@;
    let mut j: usize = 0;
    let d = e.depth;
    proof {
        assert(indent(0) =~= Seq::<char>::empty());
        assert(base + indent(0) =~= base);
    }
    let mut line = String::new();
    #[verifier::loop_isolation(false)]
    while j < d
        invariant
            0 <= j <= d,
            line@ == indent(j as int),
        decreases d - j,
    {
        line.append("  ");
        j = j + 1;
        proof {
            assert(indent(j as int) == indent(j - 1) + "  "@);
        }
    }
    if e.arrow {
        line.append("=> ");
    }
    let ghost head = line@;
    proof {
        assert(head =~= indent(e@.depth) + (if e@.arrow { "=> "@ } else { Seq::<char>::empty() }));
    }
    match &e.line {
        LineKind::Frame { name, locals } => {
            line.append(name.as_str());
            if locals.len() > 0 {
                line.append(" [");
                append_locals(&mut line, locals);
                line.append("]");
                proof {
                    assert(locals_view(locals@).len() == locals@.len());
                    assert(line@ =~= head + line_text(e@.line));
                }
            } else {
                proof {
                    assert(locals_view(locals@).len() == 0);
                    assert(line@ =~= head + line_text(e@.line));
                }
            }
        },
        LineKind::Leaf { tag, text } => {
            match tag {
                LeafTag::Event => line.append(text.as_str()),
                LeafTag::Opaque => line.append(text.as_str()),
                LeafTag::NotStarted => line.append("<not yet started>"),
                LeafTag::Complete => line.append("(complete, not yet observed)"),
            }
            proof {
                assert(line@ =~= head + line_text(e@.line));
            }
        },
        LineKind::Marker { kind } => {
            match kind {
                CombinatorKind::Race => line.append("(race)"),
            }
            proof {
                assert(line@ =~= head + line_text(e@.line));
            }
        },
        LineKind::Truncated => {
            line.append("(truncated: depth limit reached)");
            proof {
                assert(line@ =~= head + line_text(e@.line));
            }
        },
    }
    line.append("\n");
    s.append(line.as_str());
    proof {
        assert(final(s)@ =~= base + render_line(e@));
    }
}

/// Render the walked report as text, one line per entry.  The result is a
/// function of the report alone: rendering the same report twice yields
/// byte-identical text.
pub fn render(report: &Report) -> (s: String)
    ensures
        s@ == render_spec(report@),
{
    let mut s = String::new();
    let n = report.entries.len();
    let mut i: usize = 0;
    proof {
        assert(report@.subrange(0, n as int) =~= report@);
        assert(s@ + render_spec(report@) =~= render_spec(report@));
    }
    #[verifier::loop_isolation(false)]
    while i < n
        invariant
            0 <= i <= n,
            report@.len() == n,
            s@ + render_spec(report@.subrange(i as int, n as int)) == render_spec(report@),
        decreases n - i,
    {
        let ghost at = s@;
        let ghost rem = report@.subrange(i as int, n as int);
        append_line(&mut s, &report.entries[i]);
        i = i + 1;
        proof {
            assert(rem[0] == report@[i - 1]);
            assert(report@[i - 1] == report.entries@[i - 1]@);
            assert(rem.drop_first() =~= report@.subrange(i as int, n as int));
            assert(render_spec(rem) == render_line(rem[0]) + render_spec(rem.drop_first()));
            assert(s@ + render_spec(report@.subrange(i as int, n as int)) =~= at + render_spec(rem));
        }
    }
    proof {
        assert(report@.subrange(n as int, n as int).len() == 0);
        assert(render_spec(report@.subrange(n as int, n as int)) == Seq::<char>::empty());
        assert(s@ + Seq::<char>::empty() =~= s@);
    }
    s
}

} // verus!
