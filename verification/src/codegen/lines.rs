//! The textual shape of emitted assembly lines, and the rewriting of memory
//! accesses and `addi` whose immediates do not fit a 12-bit field.

use vstd::prelude::*;
use crate::assembler::syntax::{
    find_ws_exec, memory_operand_chars, opcode_chars, operands_chars, parse_immediate_chars,
    parse_register_chars, scratch_register_avoiding_chars, small_signed, small_signed_immediate,
    spec_memory_operand, spec_opcode, spec_operands, spec_parse_immediate, spec_register,
    spec_scratch_avoiding, spec_strip_comment, strip_comment_chars, skip_ws, back_ws, find_char, find_ws,
    is_ws, trim, split_commas, spec_operand_text, digits_value, all_digits, is_digit,
};
use crate::text::{dec_int, push_decimal_i128, string_from_chars, string_push, string_push_str};

verus! {

/// An instruction line: four spaces of indentation before the instruction text.
pub open spec fn ins(body: Seq<char>) -> Seq<char> {
    "    "@ + body
}

/// `li rd, imm`
pub open spec fn li_body(rd: Seq<char>, imm: int) -> Seq<char> {
    "li "@ + rd + ", "@ + dec_int(imm)
}

/// `op a, b, c` for a three-operand instruction whose operands are all text.
pub open spec fn rrr_body(op: Seq<char>, a: Seq<char>, b: Seq<char>, c: Seq<char>) -> Seq<char> {
    op + " "@ + a + ", "@ + b + ", "@ + c
}

/// `op a, b, imm` for a register-register-immediate instruction.
pub open spec fn rri_body(op: Seq<char>, a: Seq<char>, b: Seq<char>, imm: int) -> Seq<char> {
    op + " "@ + a + ", "@ + b + ", "@ + dec_int(imm)
}

/// `op reg, offset(base)` for a load or store.
pub open spec fn mem_body(op: Seq<char>, reg: Seq<char>, offset: int, base: Seq<char>) -> Seq<char> {
    op + " "@ + reg + ", "@ + dec_int(offset) + "("@ + base + ")"@
}

pub open spec fn is_load_op(op: Seq<char>) -> bool {
    op =~= seq!['l', 'd'] || op =~= seq!['l', 'b', 'u']
}

pub open spec fn is_store_op(op: Seq<char>) -> bool {
    op =~= seq!['s', 'b'] || op =~= seq!['s', 'h'] || op =~= seq!['s', 'w'] || op =~= seq!['s', 'd']
}

pub open spec fn is_addi_op(op: Seq<char>) -> bool {
    op =~= seq!['a', 'd', 'd', 'i']
}

/// The lines that replace a memory access `op reg, offset(base)` whose offset
/// is outside the 12-bit range: the offset goes through a scratch register.
pub open spec fn large_mem_lines(op: Seq<char>, reg: Seq<char>, offset: int, base: Seq<char>) -> Seq<Seq<char>> {
    let scr = spec_scratch_avoiding(seq![reg, base]);
    seq![ins(li_body(scr, offset)), ins(rrr_body("add"@, scr, base, scr)), ins(mem_body(op, reg, 0, scr))]
}

/// The lines that replace `addi rd, rs, imm` when `imm` is outside the 12-bit range.
pub open spec fn large_addi_lines(rd: Seq<char>, rs: Seq<char>, imm: int) -> Seq<Seq<char>> {
    let scr = spec_scratch_avoiding(seq![rd, rs]);
    seq![ins(li_body(scr, imm)), ins(rrr_body("add"@, rd, rs, scr))]
}

/// The rewrite applied to an instruction before it is emitted, if any.
pub open spec fn spec_rewrite(instr: Seq<char>) -> Option<Seq<Seq<char>>> {
    match spec_strip_comment(instr) {
        None => None,
        Some(clean) => {
            if clean.len() == 0 || clean[0] == '.' || clean[clean.len() - 1] == ':' {
                None
            } else {
                let op = spec_opcode(clean);
                let args = spec_operands(clean);
                if (is_load_op(op) || is_store_op(op)) && args.len() == 2 {
                    match spec_memory_operand(args[1]) {
                        None => None,
                        Some((off, base)) => {
                            if spec_register(args[0]) is Some && spec_register(base) is Some
                                && !small_signed(off) {
                                Some(large_mem_lines(op, args[0], off, base))
                            } else {
                                None
                            }
                        },
                    }
                } else if is_addi_op(op) && args.len() == 3 {
                    match spec_parse_immediate(args[2]) {
                        None => None,
                        Some(off) => {
                            if spec_register(args[0]) is Some && spec_register(args[1]) is Some
                                && !small_signed(off) {
                                Some(large_addi_lines(args[0], args[1], off))
                            } else {
                                None
                            }
                        },
                    }
                } else {
                    None
                }
            }
        },
    }
}

/// The lines that emitting `instr` appends.
pub open spec fn spec_emit_lines(instr: Seq<char>) -> Seq<Seq<char>> {
    match spec_rewrite(instr) {
        Some(lines) => lines,
        None => seq![ins(instr)],
    }
}

// ---------------------------------------------------------------------------
// Emitted lines need no second rewrite
// ---------------------------------------------------------------------------

/// A lower-case letter or a digit: the characters of register names.
pub open spec fn plain_char(c: char) -> bool {
    ('a' <= c && c <= 'z') || ('0' <= c && c <= '9')
}

pub open spec fn plain(s: Seq<char>) -> bool {
    s.len() > 0 && forall|i: int| 0 <= i < s.len() ==> plain_char(#[trigger] s[i])
}

proof fn lemma_register_plain(r: Seq<char>)
    requires
        spec_register(r) is Some,
    ensures
        plain(r),
{
    if r.len() >= 2 && !(r =~= seq!['z', 'e', 'r', 'o']) && !(r =~= seq!['r', 'a']) && !(r =~= seq!['s', 'p'])
        && !(r =~= seq!['g', 'p']) && !(r =~= seq!['t', 'p']) && !(r =~= seq!['f', 'p']) {
        let t = r.drop_first();
        assert forall|i: int| 0 <= i < r.len() implies plain_char(#[trigger] r[i]) by {
            if i > 0 {
                assert(r[i] == t[i - 1]);
            }
        }
    }
}

proof fn lemma_scratch_plain(avoid: Seq<Seq<char>>)
    ensures
        plain(spec_scratch_avoiding(avoid)),
{
    let r = spec_scratch_avoiding(avoid);
    assert(r.len() == 2 && r[0] == 't' && '0' <= r[1] <= '6');
}

proof fn lemma_scan_bounds(s: Seq<char>, c: char, i: int)
    requires
        0 <= i <= s.len(),
    ensures
        i <= skip_ws(s, i) <= s.len(),
        i <= find_char(s, c, i) <= s.len(),
        i <= find_ws(s, i) <= s.len(),
    decreases s.len() - i,
{
    if i < s.len() {
        lemma_scan_bounds(s, c, i + 1);
    }
}

proof fn lemma_back_ws_range(s: Seq<char>, lo: int, j: int)
    requires
        lo <= j,
    ensures
        lo <= back_ws(s, lo, j) <= j,
    decreases j - lo,
{
    if lo < j && j <= s.len() && is_ws(s[j - 1]) {
        lemma_back_ws_range(s, lo, j - 1);
    }
}

proof fn lemma_find_char_skip(s: Seq<char>, c: char, i: int, k: int)
    requires
        0 <= i <= k <= s.len(),
        forall|j: int| i <= j < k ==> s[j] != c,
    ensures
        find_char(s, c, i) == find_char(s, c, k),
    decreases k - i,
{
    if i < k {
        lemma_find_char_skip(s, c, i + 1, k);
    }
}

proof fn lemma_find_ws_skip(s: Seq<char>, i: int, k: int)
    requires
        0 <= i <= k <= s.len(),
        forall|j: int| i <= j < k ==> !is_ws(#[trigger] s[j]),
    ensures
        find_ws(s, i) == find_ws(s, k),
    decreases k - i,
{
    if i < k {
        lemma_find_ws_skip(s, i + 1, k);
    }
}

proof fn lemma_skip_ws_skip(s: Seq<char>, i: int, k: int)
    requires
        0 <= i <= k <= s.len(),
        forall|j: int| i <= j < k ==> is_ws(#[trigger] s[j]),
    ensures
        skip_ws(s, i) == skip_ws(s, k),
    decreases k - i,
{
    if i < k {
        lemma_skip_ws_skip(s, i + 1, k);
    }
}

proof fn lemma_back_ws_bound(s: Seq<char>, lo: int, j: int, k: int)
    requires
        lo < k <= j <= s.len(),
        !is_ws(s[k - 1]),
    ensures
        k <= back_ws(s, lo, j) <= j,
    decreases j - k,
{
    if j > k {
        if is_ws(s[j - 1]) {
            lemma_back_ws_bound(s, lo, j - 1, k);
        }
    }
}

proof fn lemma_skip_ws_shift(p: Seq<char>, y: Seq<char>, j: int)
    requires
        0 <= j <= y.len(),
    ensures
        skip_ws(p + y, p.len() + j) == p.len() + skip_ws(y, j),
    decreases y.len() - j,
{
    if j < y.len() {
        assert((p + y)[p.len() + j] == y[j]);
        lemma_skip_ws_shift(p, y, j + 1);
    }
}

proof fn lemma_find_char_shift(p: Seq<char>, y: Seq<char>, c: char, j: int)
    requires
        0 <= j <= y.len(),
    ensures
        find_char(p + y, c, p.len() + j) == p.len() + find_char(y, c, j),
    decreases y.len() - j,
{
    if j < y.len() {
        assert((p + y)[p.len() + j] == y[j]);
        lemma_find_char_shift(p, y, c, j + 1);
    }
}

proof fn lemma_back_ws_shift(p: Seq<char>, y: Seq<char>, lo: int, j: int)
    requires
        0 <= lo <= j <= y.len(),
    ensures
        back_ws(p + y, p.len() + lo, p.len() + j) == p.len() + back_ws(y, lo, j),
    decreases j - lo,
{
    if lo < j {
        assert((p + y)[p.len() + j - 1] == y[j - 1]);
        lemma_back_ws_shift(p, y, lo, j - 1);
    }
}

/// Trimming ignores leading indentation.
proof fn lemma_trim_indent(y: Seq<char>)
    ensures
        trim(ins(y)) == trim(y),
{
    let p = "    "@;
    reveal_strlit("    ");
    let s = p + y;
    assert forall|j: int| 0 <= j < 4 implies is_ws(#[trigger] s[j]) by {}
    lemma_skip_ws_skip(s, 0, 4);
    lemma_skip_ws_shift(p, y, 0);
    let a = skip_ws(y, 0);
    lemma_scan_bounds(y, '#', 0);
    lemma_back_ws_range(y, a, y.len() as int);
    lemma_back_ws_shift(p, y, a, y.len() as int);
    assert(s.subrange(4 + a, 4 + back_ws(y, a, y.len() as int)) =~= y.subrange(a, back_ws(y, a, y.len() as int)));
}

/// Indentation changes neither where a comment starts nor the cleaned text.
proof fn lemma_strip_indent(x: Seq<char>)
    ensures
        spec_strip_comment(ins(x)) == spec_strip_comment(x),
{
    let p = "    "@;
    reveal_strlit("    ");
    let s = p + x;
    assert forall|j: int| 0 <= j < 4 implies is_ws(#[trigger] s[j]) by {}
    lemma_skip_ws_skip(s, 0, 4);
    lemma_skip_ws_shift(p, x, 0);
    let a = skip_ws(x, 0);
    lemma_scan_bounds(x, '#', 0);
    if a < x.len() {
        assert(s[4 + a] == x[a]);
    }
    lemma_find_char_skip(s, '#', 0, 4);
    lemma_find_char_shift(p, x, '#', 0);
    let f = find_char(x, '#', 0);
    assert(s.subrange(0, 4 + f) =~= ins(x.subrange(0, f)));
    lemma_trim_indent(x.subrange(0, f));
}

proof fn lemma_plain_not_ws(c: char)
    requires
        plain_char(c),
    ensures
        !is_ws(c),
        c != '#',
        c != ',',
        c != '(',
        c != ')',
{
}

/// The mnemonic of an indented `op rest` line is `op`, whatever follows.
proof fn lemma_line_opcode(op: Seq<char>, rest: Seq<char>)
    requires
        plain(op),
    ensures
        spec_strip_comment(ins(op + " "@ + rest)) matches Some(clean) && spec_opcode(clean) == op,
{
    reveal_strlit(" ");
    let body = op + " "@ + rest;
    let n = op.len() as int;
    assert forall|j: int| 0 <= j < n implies !is_ws(#[trigger] body[j]) && body[j] != '#' by {
        assert(body[j] == op[j]);
        lemma_plain_not_ws(op[j]);
    }
    assert(body[n] == ' ');
    lemma_strip_indent(body);
    lemma_plain_not_ws(op[0]);
    assert(skip_ws(body, 0) == 0);
    lemma_find_char_skip(body, '#', 0, n + 1);
    lemma_scan_bounds(body, '#', n + 1);
    let f = find_char(body, '#', 0);
    let t = body.subrange(0, f);
    assert(skip_ws(t, 0) == 0) by {
        assert(t[0] == op[0]);
    }
    lemma_plain_not_ws(op[n - 1]);
    assert(t[n - 1] == op[n - 1]);
    lemma_back_ws_bound(t, 0, f, n);
    let b = back_ws(t, 0, f);
    let clean = t.subrange(0, b);
    assert(trim(t) == clean);
    assert forall|j: int| 0 <= j < n implies !is_ws(#[trigger] clean[j]) by {
        assert(clean[j] == op[j]);
        lemma_plain_not_ws(op[j]);
    }
    lemma_find_ws_skip(clean, 0, n);
    if n < clean.len() {
        assert(clean[n] == ' ');
    }
    assert(find_ws(clean, 0) == n);
    assert(spec_opcode(clean) =~= op);
}

/// An indented line whose mnemonic is neither a load, a store nor `addi`
/// is never rewritten.
proof fn lemma_other_line_kept(op: Seq<char>, rest: Seq<char>)
    requires
        plain(op),
        !is_load_op(op),
        !is_store_op(op),
        !is_addi_op(op),
    ensures
        spec_rewrite(ins(op + " "@ + rest)) is None,
{
    lemma_line_opcode(op, rest);
}

proof fn lemma_trim_plain_edges(t: Seq<char>)
    requires
        t.len() > 0,
        !is_ws(t[0]),
        !is_ws(t[t.len() - 1]),
    ensures
        trim(t) == t,
{
    lemma_back_ws_bound(t, 0, t.len() as int, t.len() as int);
    assert(t.subrange(0, t.len() as int) =~= t);
}

pub open spec fn access_operands(reg: Seq<char>, scr: Seq<char>) -> Seq<char> {
    reg + seq![',', ' ', '0', '('] + scr + seq![')']
}

pub open spec fn zero_offset_operand(scr: Seq<char>) -> Seq<char> {
    seq!['0', '('] + scr + seq![')']
}

proof fn lemma_access_line_clean(op: Seq<char>, reg: Seq<char>, scr: Seq<char>)
    requires
        plain(op),
        plain(reg),
        plain(scr),
    ensures
        spec_strip_comment(ins(op + " "@ + access_operands(reg, scr))) == Some(op + " "@ + access_operands(reg, scr)),
{
    reveal_strlit(" ");
    let rest = access_operands(reg, scr);
    let m = op + " "@ + rest;
    let n = op.len() as int;
    let r = reg.len() as int;
    lemma_strip_indent(m);
    assert forall|j: int| 0 <= j < m.len() implies #[trigger] m[j] != '#' by {
        if j < n {
            assert(m[j] == op[j]);
            lemma_plain_not_ws(op[j]);
        } else if j == n {
        } else if j < n + 1 + r {
            assert(m[j] == reg[j - n - 1]);
            lemma_plain_not_ws(reg[j - n - 1]);
        } else if j < n + 1 + r + 4 {
        } else if j < m.len() - 1 {
            assert(m[j] == scr[j - n - r - 5]);
            lemma_plain_not_ws(scr[j - n - r - 5]);
        }
    }
    lemma_find_char_skip(m, '#', 0, m.len() as int);
    assert(m.subrange(0, m.len() as int) =~= m);
    lemma_plain_not_ws(op[0]);
    assert(m[0] == op[0]);
    lemma_skip_ws_skip(m, 0, 0);
    lemma_trim_plain_edges(m);
}

proof fn lemma_access_operands(op: Seq<char>, reg: Seq<char>, scr: Seq<char>)
    requires
        plain(op),
        plain(reg),
        plain(scr),
    ensures
        spec_operands(op + " "@ + access_operands(reg, scr)) == seq![reg, zero_offset_operand(scr)],
{
    reveal_strlit(" ");
    let rest = access_operands(reg, scr);
    let clean = op + " "@ + rest;
    let n = op.len() as int;
    let r = reg.len() as int;
    assert forall|j: int| 0 <= j < n implies !is_ws(#[trigger] clean[j]) by {
        assert(clean[j] == op[j]);
        lemma_plain_not_ws(op[j]);
    }
    lemma_find_ws_skip(clean, 0, n);
    assert(clean[n] == ' ');
    assert(find_ws(clean, 0) == n);
    assert(clean.subrange(n + 1, clean.len() as int) =~= rest);
    lemma_plain_not_ws(reg[0]);
    assert(rest[0] == reg[0]);
    lemma_trim_plain_edges(rest);
    assert(spec_operand_text(clean) == rest);
    assert forall|j: int| 0 <= j < r implies #[trigger] rest[j] != ',' by {
        assert(rest[j] == reg[j]);
        lemma_plain_not_ws(reg[j]);
    }
    lemma_find_char_skip(rest, ',', 0, r);
    assert(find_char(rest, ',', 0) == r);
    assert(rest.subrange(0, r) =~= reg);
    lemma_plain_not_ws(reg[r - 1]);
    lemma_trim_plain_edges(reg);
    assert forall|j: int| r + 1 <= j < rest.len() implies #[trigger] rest[j] != ',' by {
        if r + 4 <= j < rest.len() - 1 {
            assert(rest[j] == scr[j - r - 4]);
            lemma_plain_not_ws(scr[j - r - 4]);
        }
    }
    lemma_find_char_skip(rest, ',', r + 1, rest.len() as int);
    let w0 = rest.subrange(r + 1, rest.len() as int);
    let w = zero_offset_operand(scr);
    assert(w0 =~= seq![' '] + w);
    lemma_skip_ws_skip(w0, 0, 1);
    assert(skip_ws(w0, 0) == 1);
    lemma_back_ws_bound(w0, 1, w0.len() as int, w0.len() as int);
    assert(trim(w0) =~= w);
    assert(split_commas(rest, r + 1) =~= seq![w]);
    assert(split_commas(rest, 0) =~= seq![reg, w]);
}

proof fn lemma_zero_offset_operand(scr: Seq<char>)
    requires
        plain(scr),
    ensures
        spec_memory_operand(zero_offset_operand(scr)) matches Some((o, _)) && o == 0,
{
    let w = zero_offset_operand(scr);
    lemma_find_char_skip(w, '(', 0, 1);
    assert(find_char(w, '(', 0) == 1);
    let off = w.subrange(0, 1);
    assert(off =~= seq!['0']);
    lemma_trim_plain_edges(off);
    assert(all_digits(off, 0, 1));
    assert(digits_value(off, 0, 1) == 0) by {
        assert(digits_value(off, 0, 0) == 0);
    }
    assert(spec_parse_immediate(off) == Some(0int));
}

/// A load or store at offset 0 through registers named plainly is never
/// rewritten: its offset reads back as 0.
proof fn lemma_zero_offset_access_kept(op: Seq<char>, reg: Seq<char>, scr: Seq<char>)
    requires
        plain(op),
        plain(reg),
        plain(scr),
    ensures
        spec_rewrite(ins(mem_body(op, reg, 0, scr))) is None,
{
    reveal_strlit(" ");
    reveal_strlit(", ");
    reveal_strlit("(");
    reveal_strlit(")");
    assert(dec_int(0) =~= seq!['0']);
    let m = op + " "@ + access_operands(reg, scr);
    assert(mem_body(op, reg, 0, scr) =~= m);
    lemma_access_line_clean(op, reg, scr);
    lemma_line_opcode(op, access_operands(reg, scr));
    lemma_access_operands(op, reg, scr);
    lemma_zero_offset_operand(scr);
}

/// A line that emitting would rewrite: a load, store or `addi` with valid
/// registers whose offset or immediate lies outside the signed 12-bit range.
pub open spec fn has_wide_offset(line: Seq<char>) -> bool {
    spec_rewrite(line) is Some
}

proof fn lemma_li_line_kept(rd: Seq<char>, imm: int)
    ensures
        spec_rewrite(ins(li_body(rd, imm))) is None,
{
    reveal_strlit("li ");
    reveal_strlit("li");
    reveal_strlit(" ");
    let op = "li"@;
    assert(li_body(rd, imm) =~= op + " "@ + (rd + ", "@ + dec_int(imm)));
    assert(op =~= seq!['l', 'i']);
    lemma_other_line_kept(op, rd + ", "@ + dec_int(imm));
}

proof fn lemma_add_line_kept(a: Seq<char>, b: Seq<char>, c: Seq<char>)
    ensures
        spec_rewrite(ins(rrr_body("add"@, a, b, c))) is None,
{
    reveal_strlit("add");
    reveal_strlit(" ");
    let op = "add"@;
    assert(rrr_body(op, a, b, c) =~= op + " "@ + (a + ", "@ + b + ", "@ + c));
    assert(op =~= seq!['a', 'd', 'd']);
    lemma_other_line_kept(op, a + ", "@ + b + ", "@ + c);
}

/// No line that emitting an instruction appends has a wide offset: an
/// instruction kept as written had none (its indentation changes nothing),
/// and a replacement materializes the value with `li`, adds it with `add`
/// and accesses memory at offset 0.
pub proof fn lemma_emitted_offsets_small(instr: Seq<char>)
    ensures
        forall|k: int| 0 <= k < spec_emit_lines(instr).len() ==> !has_wide_offset(#[trigger] spec_emit_lines(instr)[k]),
{
    match spec_rewrite(instr) {
        None => {
            lemma_strip_indent(instr);
            assert(spec_rewrite(ins(instr)) == spec_rewrite(instr));
        },
        Some(lines) => {
            let clean = spec_strip_comment(instr)->0;
            let op = spec_opcode(clean);
            let args = spec_operands(clean);
            if (is_load_op(op) || is_store_op(op)) && args.len() == 2 && spec_memory_operand(args[1]) is Some {
                let (off, base) = spec_memory_operand(args[1])->0;
                let scr = spec_scratch_avoiding(seq![args[0], base]);
                assert(lines == large_mem_lines(op, args[0], off, base));
                lemma_li_line_kept(scr, off);
                lemma_add_line_kept(scr, base, scr);
                lemma_register_plain(args[0]);
                lemma_scratch_plain(seq![args[0], base]);
                assert(plain(op));
                lemma_zero_offset_access_kept(op, args[0], scr);
            } else {
                let off = spec_parse_immediate(args[2])->0;
                let scr = spec_scratch_avoiding(seq![args[0], args[1]]);
                assert(lines == large_addi_lines(args[0], args[1], off));
                lemma_li_line_kept(scr, off);
                lemma_add_line_kept(args[0], args[1], scr);
            }
        },
    }
}

/// Emitting keeps a listing free of wide offsets: if no line written so far
/// has a load, store or `addi` whose offset lies outside the signed 12-bit
/// range, none does after the lines for one more instruction.
pub proof fn lemma_emit_keeps_offsets_small(before: Seq<Seq<char>>, instr: Seq<char>)
    requires
        forall|k: int| 0 <= k < before.len() ==> !has_wide_offset(#[trigger] before[k]),
    ensures
        forall|k: int| 0 <= k < (before + spec_emit_lines(instr)).len() ==>
            !has_wide_offset(#[trigger] (before + spec_emit_lines(instr))[k]),
{
    lemma_emitted_offsets_small(instr);
    let after = before + spec_emit_lines(instr);
    assert forall|k: int| 0 <= k < after.len() implies !has_wide_offset(#[trigger] after[k]) by {
        if k >= before.len() {
            assert(after[k] == spec_emit_lines(instr)[k - before.len()]);
        }
    }
}

// ---------------------------------------------------------------------------
// Builders
// ---------------------------------------------------------------------------

pub fn mk_ins(body: &str) -> (r: String)
    ensures
        r@ == ins(body@),
{
    let mut s = String::new();
    string_push_str(&mut s, "    ");
    string_push_str(&mut s, body);
    assert(s@ =~= ins(body@));
    s
}

pub fn mk_li(rd: &str, imm: i128) -> (r: String)
    ensures
        r@ == li_body(rd@, imm as int),
{
    let mut s = String::new();
    string_push_str(&mut s, "li ");
    string_push_str(&mut s, rd);
    string_push_str(&mut s, ", ");
    push_decimal_i128(&mut s, imm);
    assert(s@ =~= li_body(rd@, imm as int));
    s
}

pub fn mk_rrr(op: &str, a: &str, b: &str, c: &str) -> (r: String)
    ensures
        r@ == rrr_body(op@, a@, b@, c@),
{
    let mut s = String::new();
    string_push_str(&mut s, op);
    string_push_str(&mut s, " ");
    string_push_str(&mut s, a);
    string_push_str(&mut s, ", ");
    string_push_str(&mut s, b);
    string_push_str(&mut s, ", ");
    string_push_str(&mut s, c);
    assert(s@ =~= rrr_body(op@, a@, b@, c@));
    s
}

pub fn mk_rri(op: &str, a: &str, b: &str, imm: i128) -> (r: String)
    ensures
        r@ == rri_body(op@, a@, b@, imm as int),
{
    let mut s = String::new();
    string_push_str(&mut s, op);
    string_push_str(&mut s, " ");
    string_push_str(&mut s, a);
    string_push_str(&mut s, ", ");
    string_push_str(&mut s, b);
    string_push_str(&mut s, ", ");
    push_decimal_i128(&mut s, imm);
    assert(s@ =~= rri_body(op@, a@, b@, imm as int));
    s
}

pub fn mk_mem(op: &str, reg: &str, offset: i128, base: &str) -> (r: String)
    ensures
        r@ == mem_body(op@, reg@, offset as int, base@),
{
    let mut s = String::new();
    string_push_str(&mut s, op);
    string_push_str(&mut s, " ");
    string_push_str(&mut s, reg);
    string_push_str(&mut s, ", ");
    push_decimal_i128(&mut s, offset);
    string_push_str(&mut s, "(");
    string_push_str(&mut s, base);
    string_push_str(&mut s, ")");
    assert(s@ =~= mem_body(op@, reg@, offset as int, base@));
    s
}

fn is_load_chars(op: &[char]) -> (r: bool)
    ensures
        r == is_load_op(op@),
{
    let ld = op.len() == 2 && op[0] == 'l' && op[1] == 'd';
    let lbu = op.len() == 3 && op[0] == 'l' && op[1] == 'b' && op[2] == 'u';
    assert(ld == (op@ =~= seq!['l', 'd']));
    assert(lbu == (op@ =~= seq!['l', 'b', 'u']));
    ld || lbu
}

fn is_store_chars(op: &[char]) -> (r: bool)
    ensures
        r == is_store_op(op@),
{
    let ok = op.len() == 2 && op[0] == 's' && (op[1] == 'b' || op[1] == 'h' || op[1] == 'w' || op[1] == 'd');
    assert(ok == (op@ =~= seq!['s', 'b'] || op@ =~= seq!['s', 'h'] || op@ =~= seq!['s', 'w'] || op@ =~= seq!['s', 'd']));
    ok
}

fn is_addi_chars(op: &[char]) -> (r: bool)
    ensures
        r == is_addi_op(op@),
{
    let ok = op.len() == 4 && op[0] == 'a' && op[1] == 'd' && op[2] == 'd' && op[3] == 'i';
    assert(ok == (op@ =~= seq!['a', 'd', 'd', 'i']));
    ok
}

fn vec_of_lines(a: String, b: String) -> (r: Vec<String>)
    ensures
        r@.map_values(|s: String| s@) == seq![a@, b@],
{
    let mut v: Vec<String> = Vec::new();
    v.push(a);
    v.push(b);
    assert(v@.map_values(|s: String| s@) =~= seq![a@, b@]);
    v
}

/// The rewrite that `emit` applies to `instr`, as owned lines.
pub fn rewrite_large_immediate(instr: &[char]) -> (r: Option<Vec<String>>)
    ensures
        r matches Some(v) ==> spec_rewrite(instr@) == Some(v@.map_values(|s: String| s@)),
        r is None ==> spec_rewrite(instr@) is None,
{
    let clean = match strip_comment_chars(instr) {
        None => return None,
        Some(c) => c,
    };
    if clean.len() == 0 || clean[0] == '.' || clean[clean.len() - 1] == ':' {
        return None;
    }
    let op = opcode_chars(clean.as_slice());
    let args = operands_chars(clean.as_slice());
    let ghost sargs = spec_operands(clean@);
    if (is_load_chars(op.as_slice()) || is_store_chars(op.as_slice())) && args.len() == 2 {
        let (off, base) = match memory_operand_chars(args[1].as_slice()) {
            None => return None,
            Some(p) => p,
        };
        if parse_register_chars(args[0].as_slice()).is_some() && parse_register_chars(base.as_slice()).is_some()
            && !small_signed_immediate(off) {
            let mut avoid: Vec<Vec<char>> = Vec::new();
            avoid.push(args[0].clone());
            avoid.push(base.clone());
            assert(avoid@.map_values(|v: Vec<char>| v@) =~= seq![sargs[0], base@]);
            let scr = scratch_register_avoiding_chars(&avoid);
            let scr_s = string_from_chars(scr.as_slice());
            let base_s = string_from_chars(base.as_slice());
            let reg_s = string_from_chars(args[0].as_slice());
            let op_s = string_from_chars(op.as_slice());
            let l1 = mk_ins(mk_li(scr_s.as_str(), off).as_str());
            let l2 = mk_ins(mk_rrr("add", scr_s.as_str(), base_s.as_str(), scr_s.as_str()).as_str());
            let l3 = mk_ins(mk_mem(op_s.as_str(), reg_s.as_str(), 0, scr_s.as_str()).as_str());
            let mut v: Vec<String> = Vec::new();
            v.push(l1);
            v.push(l2);
            v.push(l3);
            assert(v@.map_values(|s: String| s@) =~= large_mem_lines(op@, sargs[0], off as int, base@));
            return Some(v);
        }
        return None;
    } else if is_addi_chars(op.as_slice()) && args.len() == 3 {
        let off = match parse_immediate_chars(args[2].as_slice()) {
            None => return None,
            Some(v) => v,
        };
        if parse_register_chars(args[0].as_slice()).is_some() && parse_register_chars(args[1].as_slice()).is_some()
            && !small_signed_immediate(off) {
            let mut avoid: Vec<Vec<char>> = Vec::new();
            avoid.push(args[0].clone());
            avoid.push(args[1].clone());
            assert(avoid@.map_values(|v: Vec<char>| v@) =~= seq![sargs[0], sargs[1]]);
            let scr = scratch_register_avoiding_chars(&avoid);
            let scr_s = string_from_chars(scr.as_slice());
            let rd_s = string_from_chars(args[0].as_slice());
            let rs_s = string_from_chars(args[1].as_slice());
            let l1 = mk_ins(mk_li(scr_s.as_str(), off).as_str());
            let l2 = mk_ins(mk_rrr("add", rd_s.as_str(), rs_s.as_str(), scr_s.as_str()).as_str());
            let v = vec_of_lines(l1, l2);
            assert(seq![l1@, l2@] =~= large_addi_lines(sargs[0], sargs[1], off as int));
            return Some(v);
        }
        return None;
    }
    None
}

} // verus!

verus! {

/// Appending pieces one after another appends their concatenation.
pub proof fn lemma_join2<A>(l0: Seq<A>, a: Seq<A>, b: Seq<A>)
    ensures
        l0 + a + b == l0 + (a + b),
{
    vstd::seq_lib::lemma_concat_associative(l0, a, b);
}

/// Appending three pieces one after another appends their concatenation.
pub proof fn lemma_join3<A>(l0: Seq<A>, a: Seq<A>, b: Seq<A>, c: Seq<A>)
    ensures
        l0 + a + b + c == l0 + (a + b + c),
{
    lemma_join2(l0, a, b);
    lemma_join2(l0, a + b, c);
}

/// Appending four pieces one after another appends their concatenation.
pub proof fn lemma_join4<A>(l0: Seq<A>, a: Seq<A>, b: Seq<A>, c: Seq<A>, d: Seq<A>)
    ensures
        l0 + a + b + c + d == l0 + (a + b + c + d),
{
    lemma_join3(l0, a, b, c);
    lemma_join2(l0, a + b + c, d);
}

/// Appending five pieces one after another appends their concatenation.
pub proof fn lemma_join5<A>(l0: Seq<A>, a: Seq<A>, b: Seq<A>, c: Seq<A>, d: Seq<A>, e: Seq<A>)
    ensures
        l0 + a + b + c + d + e == l0 + (a + b + c + d + e),
{
    lemma_join4(l0, a, b, c, d);
    lemma_join2(l0, a + b + c + d, e);
}

/// Appending six pieces one after another appends their concatenation.
pub proof fn lemma_join6<A>(l0: Seq<A>, a: Seq<A>, b: Seq<A>, c: Seq<A>, d: Seq<A>, e: Seq<A>, f: Seq<A>)
    ensures
        l0 + a + b + c + d + e + f == l0 + (a + b + c + d + e + f),
{
    lemma_join5(l0, a, b, c, d, e);
    lemma_join2(l0, a + b + c + d + e, f);
}

} // verus!
