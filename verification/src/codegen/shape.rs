//! Backend shape analysis of generated assembly text.

use vstd::prelude::*;
use crate::assembler::parse::lines_view;
use crate::assembler::plan::{plan_matches, plan_outcome, BackendShapeMetrics, MachineLayoutPlan};
use crate::assembler::syntax::{find_char, find_char_exec};
use crate::error::CompileError;
use crate::text::{chars_slice, str_chars, string_from_chars};

verus! {

/// A line without one trailing carriage return.
pub open spec fn strip_cr(s: Seq<char>) -> Seq<char> {
    if s.len() > 0 && s[s.len() - 1] == '\r' {
        s.drop_last()
    } else {
        s
    }
}

/// The lines of a text, as `str::lines` splits them: at each `\n`, with a
/// trailing `\r` removed from each line and no empty line after a final `\n`.
pub open spec fn split_lines(s: Seq<char>, i: int) -> Seq<Seq<char>>
    decreases s.len() - i,
{
    if i < 0 || i >= s.len() {
        Seq::empty()
    } else {
        let k = find_char(s, '\n', i);
        if k >= s.len() || k < i {
            seq![strip_cr(s.subrange(i, s.len() as int))]
        } else {
            seq![strip_cr(s.subrange(i, k))] + split_lines(s, k + 1)
        }
    }
}

fn strip_cr_chars(s: &Vec<char>) -> (r: Vec<char>)
    ensures
        r@ == strip_cr(s@),
{
    let n = s.len();
    if n > 0 && s[n - 1] == '\r' {
        let r = chars_slice(s.as_slice(), 0, n - 1);
        assert(r@ =~= s@.drop_last());
        r
    } else {
        chars_slice(s.as_slice(), 0, n)
    }
}

/// The lines of `text`.
pub fn text_lines(text: &str) -> (r: Vec<String>)
    ensures
        lines_view(r@) == split_lines(text@, 0),
{
    let s = str_chars(text);
    let n = s.len();
    let mut out: Vec<String> = Vec::new();
    let mut i: usize = 0;
    assert(lines_view(out@) + split_lines(s@, 0) =~= split_lines(s@, 0));
    while i < n
        invariant
            i <= n,
            n == s@.len(),
            s@ == text@,
            lines_view(out@) + split_lines(s@, i as int) == split_lines(s@, 0),
        decreases n - i,
    {
        let k = find_char_exec(s.as_slice(), '\n', i);
        let piece = chars_slice(s.as_slice(), i, k);
        let line = string_from_chars(strip_cr_chars(&piece).as_slice());
        let ghost before = out@;
        out.push(line);
        assert(lines_view(out@) =~= lines_view(before).push(line@));
        if k >= n {
            assert(split_lines(s@, n as int) =~= Seq::<Seq<char>>::empty());
            assert(lines_view(out@) + split_lines(s@, n as int) =~= split_lines(s@, 0));
            i = n;
        } else {
            assert(lines_view(out@) + split_lines(s@, k + 1) =~= split_lines(s@, 0));
            i = k + 1;
        }
    }
    assert(split_lines(s@, i as int) =~= Seq::<Seq<char>>::empty());
    assert(lines_view(out@) =~= split_lines(s@, 0));
    out
}

/// Measures the machine layout of assembly text: its sections, blocks,
/// edges, branch relaxation and reachability.
pub fn analyze_backend_shape(assembly: &str) -> (r: Result<BackendShapeMetrics, CompileError>)
    ensures
        r matches Ok(m) ==> plan_outcome(split_lines(assembly@, 0)) is Ok && exists|plan: MachineLayoutPlan|
            #[trigger] plan_matches(split_lines(assembly@, 0), plan) && plan.metrics == m,
        r matches Err(e) ==> plan_outcome(split_lines(assembly@, 0)) == Err::<(), Seq<char>>(e.message@),
{
    let lines = text_lines(assembly);
    let plan = MachineLayoutPlan::build(lines.as_slice())?;
    assert(plan_matches(split_lines(assembly@, 0), plan));
    Ok(plan.metrics)
}

} // verus!
