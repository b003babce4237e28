//! Lexical layer of the RISC-V assembly dialect emitted by the code
//! generator: comments, whitespace, operand lists, register names,
//! integer immediates and `offset(base)` memory operands.

use vstd::prelude::*;
use crate::text::{chars_eq, chars_slice, str_chars, string_from_chars};

verus! {

/// Unicode `White_Space` characters, as Rust's `char::is_whitespace` sees them.
pub open spec fn is_ws(c: char) -> bool {
    ('\u{9}' <= c && c <= '\u{d}') || c == ' ' || c == '\u{85}' || c == '\u{a0}' || c == '\u{1680}'
        || ('\u{2000}' <= c && c <= '\u{200a}') || c == '\u{2028}' || c == '\u{2029}' || c == '\u{202f}'
        || c == '\u{205f}' || c == '\u{3000}'
}

pub open spec fn is_digit(c: char) -> bool {
    '0' <= c && c <= '9'
}

/// First index at or after `i` whose character is not whitespace (or the length).
pub open spec fn skip_ws(s: Seq<char>, i: int) -> int
    decreases s.len() - i,
{
    if 0 <= i < s.len() && is_ws(s[i]) {
        skip_ws(s, i + 1)
    } else {
        i
    }
}

/// Largest end `j' <= j`, not below `lo`, such that the character before it is not whitespace.
pub open spec fn back_ws(s: Seq<char>, lo: int, j: int) -> int
    decreases j - lo,
{
    if lo < j && j <= s.len() && is_ws(s[j - 1]) {
        back_ws(s, lo, j - 1)
    } else {
        j
    }
}

/// `s` without leading and trailing whitespace.
pub open spec fn trim(s: Seq<char>) -> Seq<char> {
    let a = skip_ws(s, 0);
    s.subrange(a, back_ws(s, a, s.len() as int))
}

/// First index at or after `i` holding `c` (or the length).
pub open spec fn find_char(s: Seq<char>, c: char, i: int) -> int
    decreases s.len() - i,
{
    if 0 <= i < s.len() && s[i] != c {
        find_char(s, c, i + 1)
    } else {
        i
    }
}

/// First index at or after `i` holding whitespace (or the length).
pub open spec fn find_ws(s: Seq<char>, i: int) -> int
    decreases s.len() - i,
{
    if 0 <= i < s.len() && !is_ws(s[i]) {
        find_ws(s, i + 1)
    } else {
        i
    }
}

/// A line with its `#` comment removed and whitespace trimmed; `None` when
/// the line is nothing but a comment.
pub open spec fn spec_strip_comment(s: Seq<char>) -> Option<Seq<char>> {
    let a = skip_ws(s, 0);
    if a < s.len() && s[a] == '#' {
        None
    } else {
        Some(trim(s.subrange(0, find_char(s, '#', 0))))
    }
}

/// The mnemonic of a cleaned instruction: everything before the first whitespace.
pub open spec fn spec_opcode(clean: Seq<char>) -> Seq<char> {
    clean.subrange(0, find_ws(clean, 0))
}

/// The trimmed operand text of a cleaned instruction.
pub open spec fn spec_operand_text(clean: Seq<char>) -> Seq<char> {
    let e = find_ws(clean, 0);
    if e < clean.len() {
        trim(clean.subrange(e + 1, clean.len() as int))
    } else {
        Seq::empty()
    }
}

/// Comma separated pieces of `s` from index `i`, each trimmed.
pub open spec fn split_commas(s: Seq<char>, i: int) -> Seq<Seq<char>>
    decreases s.len() - i,
{
    let k = find_char(s, ',', i);
    if i < 0 || i > s.len() || k >= s.len() || k < i {
        seq![trim(s.subrange(i, s.len() as int))]
    } else {
        seq![trim(s.subrange(i, k))] + split_commas(s, k + 1)
    }
}

/// The operands of a cleaned instruction.
pub open spec fn spec_operands(clean: Seq<char>) -> Seq<Seq<char>> {
    let t = spec_operand_text(clean);
    if t.len() == 0 {
        Seq::empty()
    } else {
        split_commas(t, 0)
    }
}

/// Value of the decimal digits `s[i..j]`.
pub open spec fn digits_value(s: Seq<char>, i: int, j: int) -> int
    decreases j - i,
{
    if j <= i {
        0
    } else {
        digits_value(s, i, j - 1) * 10 + (s[j - 1] as int - 48)
    }
}

pub open spec fn all_digits(s: Seq<char>, i: int, j: int) -> bool {
    forall|k: int| i <= k < j ==> is_digit(#[trigger] s[k])
}

/// Largest accepted immediate: the unsigned 64-bit maximum.
pub open spec fn imm_max() -> int {
    0xffff_ffff_ffff_ffffint
}

/// Smallest accepted immediate: the signed 64-bit minimum.
pub open spec fn imm_min() -> int {
    -0x8000_0000_0000_0000int
}

/// A decimal immediate with an optional leading `-`, within the range of a
/// 64-bit register read as signed or unsigned.
pub open spec fn spec_parse_immediate(s: Seq<char>) -> Option<int> {
    let neg = s.len() > 0 && s[0] == '-';
    let start: int = if neg { 1 } else { 0 };
    if start >= s.len() || !all_digits(s, start, s.len() as int) {
        None
    } else {
        let v = digits_value(s, start, s.len() as int);
        let value = if neg { -v } else { v };
        if imm_min() <= value <= imm_max() {
            Some(value)
        } else {
            None
        }
    }
}

/// Immediates encodable in a signed 12-bit I/S-type field.
pub open spec fn small_signed(v: int) -> bool {
    -2048 <= v <= 2047
}

/// A memory operand `offset(base)`; an empty offset reads as zero.
pub open spec fn spec_memory_operand(s: Seq<char>) -> Option<(int, Seq<char>)> {
    let p = find_char(s, '(', 0);
    if p >= s.len() || s.len() < 2 || s[s.len() - 1] != ')' || p >= s.len() - 1 {
        None
    } else {
        let off = trim(s.subrange(0, p));
        let base = trim(s.subrange(p + 1, s.len() - 1));
        if off.len() == 0 {
            Some((0, base))
        } else {
            match spec_parse_immediate(off) {
                Some(v) => Some((v, base)),
                None => None,
            }
        }
    }
}

/// Numeric value of a one- or two-digit decimal register suffix.
pub open spec fn small_number(s: Seq<char>) -> Option<int> {
    if s.len() == 1 && is_digit(s[0]) {
        Some(s[0] as int - 48)
    } else if s.len() == 2 && is_digit(s[0]) && is_digit(s[1]) && s[0] != '0' {
        Some((s[0] as int - 48) * 10 + (s[1] as int - 48))
    } else {
        None
    }
}

/// The architectural register number of an ABI or `x`-numbered register name.
pub open spec fn spec_register(s: Seq<char>) -> Option<int> {
    if s =~= seq!['z', 'e', 'r', 'o'] {
        Some(0)
    } else if s =~= seq!['r', 'a'] {
        Some(1)
    } else if s =~= seq!['s', 'p'] {
        Some(2)
    } else if s =~= seq!['g', 'p'] {
        Some(3)
    } else if s =~= seq!['t', 'p'] {
        Some(4)
    } else if s =~= seq!['f', 'p'] {
        Some(8)
    } else if s.len() >= 2 {
        let n = small_number(s.drop_first());
        match n {
            None => None,
            Some(k) => {
                if s[0] == 'x' && k <= 31 {
                    Some(k)
                } else if s[0] == 't' && k <= 2 {
                    Some(k + 5)
                } else if s[0] == 't' && 3 <= k <= 6 {
                    Some(k + 25)
                } else if s[0] == 's' && k <= 1 {
                    Some(k + 8)
                } else if s[0] == 's' && 2 <= k <= 11 {
                    Some(k + 16)
                } else if s[0] == 'a' && k <= 7 {
                    Some(k + 10)
                } else {
                    None
                }
            },
        }
    } else {
        None
    }
}

/// Scratch registers tried, in order, when an immediate must be materialized.
pub open spec fn scratch_candidate(i: int) -> Seq<char> {
    if i == 0 {
        seq!['t', '6']
    } else if i == 1 {
        seq!['t', '5']
    } else if i == 2 {
        seq!['t', '4']
    } else if i == 3 {
        seq!['t', '3']
    } else if i == 4 {
        seq!['t', '2']
    } else if i == 5 {
        seq!['t', '1']
    } else {
        seq!['t', '0']
    }
}

/// Index of the first scratch candidate at or after `i` that `avoid` does not name.
pub open spec fn scratch_index(avoid: Seq<Seq<char>>, i: int) -> int
    decreases 7 - i,
{
    if 0 <= i < 6 && avoid.contains(scratch_candidate(i)) {
        scratch_index(avoid, i + 1)
    } else {
        i
    }
}

/// The first scratch register (`t6`, `t5`, ..., `t0`) not named in `avoid`.
pub open spec fn spec_scratch_avoiding(avoid: Seq<Seq<char>>) -> Seq<char> {
    scratch_candidate(scratch_index(avoid, 0))
}

// ---------------------------------------------------------------------------
// Executable counterparts
// ---------------------------------------------------------------------------

pub fn is_ws_char(c: char) -> (r: bool)
    ensures
        r == is_ws(c),
{
    ('\u{9}' <= c && c <= '\u{d}') || c == ' ' || c == '\u{85}' || c == '\u{a0}' || c == '\u{1680}'
        || ('\u{2000}' <= c && c <= '\u{200a}') || c == '\u{2028}' || c == '\u{2029}' || c == '\u{202f}'
        || c == '\u{205f}' || c == '\u{3000}'
}

pub fn skip_ws_exec(s: &[char], i: usize) -> (r: usize)
    requires
        i <= s@.len(),
    ensures
        r as int == skip_ws(s@, i as int),
        i <= r <= s@.len(),
{
    let mut j = i;
    while j < s.len() && is_ws_char(s[j])
        invariant
            i <= j <= s@.len(),
            skip_ws(s@, i as int) == skip_ws(s@, j as int),
        decreases s@.len() - j,
    {
        j = j + 1;
    }
    j
}

pub fn back_ws_exec(s: &[char], lo: usize, j: usize) -> (r: usize)
    requires
        lo <= j <= s@.len(),
    ensures
        r as int == back_ws(s@, lo as int, j as int),
        lo <= r <= j,
{
    let mut k = j;
    while lo < k && is_ws_char(s[k - 1])
        invariant
            lo <= k <= j <= s@.len(),
            back_ws(s@, lo as int, j as int) == back_ws(s@, lo as int, k as int),
        decreases k - lo,
    {
        k = k - 1;
    }
    k
}

/// `s` without leading and trailing whitespace.
pub fn trim_chars(s: &[char]) -> (r: Vec<char>)
    ensures
        r@ == trim(s@),
{
    let a = skip_ws_exec(s, 0);
    let b = back_ws_exec(s, a, s.len());
    chars_slice(s, a, b)
}

pub fn find_char_exec(s: &[char], c: char, i: usize) -> (r: usize)
    requires
        i <= s@.len(),
    ensures
        r as int == find_char(s@, c, i as int),
        i <= r <= s@.len(),
        r < s@.len() ==> s@[r as int] == c,
        forall|k: int| i <= k < r ==> s@[k] != c,
{
    let mut j = i;
    while j < s.len() && s[j] != c
        invariant
            i <= j <= s@.len(),
            find_char(s@, c, i as int) == find_char(s@, c, j as int),
            forall|k: int| i <= k < j ==> s@[k] != c,
        decreases s@.len() - j,
    {
        j = j + 1;
    }
    j
}

pub fn find_ws_exec(s: &[char], i: usize) -> (r: usize)
    requires
        i <= s@.len(),
    ensures
        r as int == find_ws(s@, i as int),
        i <= r <= s@.len(),
{
    let mut j = i;
    while j < s.len() && !is_ws_char(s[j])
        invariant
            i <= j <= s@.len(),
            find_ws(s@, i as int) == find_ws(s@, j as int),
        decreases s@.len() - j,
    {
        j = j + 1;
    }
    j
}

/// A line with its `#` comment removed and surrounding whitespace trimmed;
/// `None` for a comment-only line.
pub fn strip_comment_chars(s: &[char]) -> (r: Option<Vec<char>>)
    ensures
        r matches Some(v) ==> spec_strip_comment(s@) == Some(v@),
        r is None ==> spec_strip_comment(s@) is None,
{
    let a = skip_ws_exec(s, 0);
    if a < s.len() && s[a] == '#' {
        return None;
    }
    let h = find_char_exec(s, '#', 0);
    let body = chars_slice(s, 0, h);
    Some(trim_chars(body.as_slice()))
}

/// `strip_comment` on a string slice, returning an owned `String`.
pub fn strip_comment(line: &str) -> (r: Option<String>)
    ensures
        r matches Some(v) ==> spec_strip_comment(line@) == Some(v@),
        r is None ==> spec_strip_comment(line@) is None,
{
    let chars = str_chars(line);
    match strip_comment_chars(chars.as_slice()) {
        Some(v) => Some(string_from_chars(v.as_slice())),
        None => None,
    }
}

pub fn opcode_chars(clean: &[char]) -> (r: Vec<char>)
    ensures
        r@ == spec_opcode(clean@),
{
    let e = find_ws_exec(clean, 0);
    chars_slice(clean, 0, e)
}

pub fn operand_text_chars(clean: &[char]) -> (r: Vec<char>)
    ensures
        r@ == spec_operand_text(clean@),
{
    let e = find_ws_exec(clean, 0);
    if e < clean.len() {
        let rest = chars_slice(clean, e + 1, clean.len());
        trim_chars(rest.as_slice())
    } else {
        Vec::new()
    }
}

pub fn split_commas_exec(s: &[char], i: usize) -> (r: Vec<Vec<char>>)
    requires
        i <= s@.len(),
    ensures
        r@.len() == split_commas(s@, i as int).len(),
        forall|k: int| 0 <= k < r@.len() ==> #[trigger] r@[k]@ == split_commas(s@, i as int)[k],
    decreases s@.len() - i,
{
    let k = find_char_exec(s, ',', i);
    let piece = chars_slice(s, i, k);
    let first = trim_chars(piece.as_slice());
    if k >= s.len() {
        let mut r: Vec<Vec<char>> = Vec::new();
        r.push(first);
        r
    } else {
        let rest = split_commas_exec(s, k + 1);
        let mut r: Vec<Vec<char>> = Vec::new();
        r.push(first);
        let mut j: usize = 0;
        let ghost spec_rest = split_commas(s@, k + 1);
        while j < rest.len()
            invariant
                j <= rest@.len(),
                rest@.len() == spec_rest.len(),
                forall|m: int| 0 <= m < rest@.len() ==> #[trigger] rest@[m]@ == spec_rest[m],
                r@.len() == j + 1,
                r@[0]@ == trim(s@.subrange(i as int, k as int)),
                forall|m: int| 1 <= m < r@.len() ==> #[trigger] r@[m]@ == spec_rest[m - 1],
            decreases rest@.len() - j,
        {
            r.push(rest[j].clone());
            j = j + 1;
        }
        r
    }
}

/// The comma separated operands of a cleaned instruction.
pub fn operands_chars(clean: &[char]) -> (r: Vec<Vec<char>>)
    ensures
        r@.len() == spec_operands(clean@).len(),
        forall|k: int| 0 <= k < r@.len() ==> #[trigger] r@[k]@ == spec_operands(clean@)[k],
{
    let t = operand_text_chars(clean);
    if t.len() == 0 {
        Vec::new()
    } else {
        split_commas_exec(t.as_slice(), 0)
    }
}

pub fn is_digit_char(c: char) -> (r: bool)
    ensures
        r == is_digit(c),
{
    '0' <= c && c <= '9'
}

/// Parses a decimal immediate with an optional leading `-`.
pub fn parse_immediate_chars(s: &[char]) -> (r: Option<i128>)
    ensures
        r matches Some(v) ==> spec_parse_immediate(s@) == Some(v as int),
        r is None ==> spec_parse_immediate(s@) is None,
{
    let neg = s.len() > 0 && s[0] == '-';
    let start: usize = if neg { 1 } else { 0 };
    assert(neg == (s@.len() > 0 && s@[0] == '-'));
    if start >= s.len() {
        return None;
    }
    let mut v: u128 = 0;
    let mut j = start;
    let mut big = false;
    while j < s.len()
        invariant
            start <= j <= s@.len(),
            start < s@.len(),
            all_digits(s@, start as int, j as int),
            !big ==> v as int == digits_value(s@, start as int, j as int),
            big ==> digits_value(s@, start as int, j as int) > imm_max(),
            v <= 0x1_0000_0000_0000_0000,
            !big ==> v <= 0xffff_ffff_ffff_ffff,
            neg == (s@.len() > 0 && s@[0] == '-'),
            start == (if neg { 1usize } else { 0usize }),
        decreases s@.len() - j,
    {
        let c = s[j];
        if !is_digit_char(c) {
            assert(!all_digits(s@, start as int, s@.len() as int));
            return None;
        }
        let d = (c as u32 - 48) as u128;
        proof {
            assert(digits_value(s@, start as int, j + 1) == digits_value(s@, start as int, j as int) * 10 + (s@[j as int] as int - 48));
            if big {
                assert(digits_value(s@, start as int, j as int) * 10 + (s@[j as int] as int - 48) > imm_max()) by (nonlinear_arith)
                    requires digits_value(s@, start as int, j as int) > imm_max(), 0 <= s@[j as int] as int - 48;
            }
        }
        if !big {
            let nv = v * 10 + d;
            if nv > 0xffff_ffff_ffff_ffff {
                big = true;
                v = 0x1_0000_0000_0000_0000;
            } else {
                v = nv;
            }
        }
        j = j + 1;
    }
    if big {
        return None;
    }
    assert(all_digits(s@, start as int, s@.len() as int));
    assert(v as int == digits_value(s@, start as int, s@.len() as int));
    if neg {
        if v > 0x8000_0000_0000_0000 {
            return None;
        }
        Some(-(v as i128))
    } else {
        Some(v as i128)
    }
}

/// Parses a decimal immediate with an optional leading `-`.
pub fn parse_immediate(s: &str) -> (r: Option<i128>)
    ensures
        r matches Some(v) ==> spec_parse_immediate(s@) == Some(v as int),
        r is None ==> spec_parse_immediate(s@) is None,
{
    let chars = str_chars(s);
    parse_immediate_chars(chars.as_slice())
}

/// Whether `v` fits a signed 12-bit immediate field.
pub fn small_signed_immediate(v: i128) -> (r: bool)
    ensures
        r == small_signed(v as int),
{
    -2048 <= v && v <= 2047
}

/// Splits a memory operand `offset(base)` into its offset and base register text.
pub fn memory_operand_chars(s: &[char]) -> (r: Option<(i128, Vec<char>)>)
    ensures
        r matches Some((off, base)) ==> spec_memory_operand(s@) == Some((off as int, base@)),
        r is None ==> spec_memory_operand(s@) is None,
{
    let p = find_char_exec(s, '(', 0);
    if p >= s.len() || s.len() < 2 || s[s.len() - 1] != ')' || p >= s.len() - 1 {
        return None;
    }
    let off_raw = chars_slice(s, 0, p);
    let off = trim_chars(off_raw.as_slice());
    let base_raw = chars_slice(s, p + 1, s.len() - 1);
    let base = trim_chars(base_raw.as_slice());
    if off.len() == 0 {
        Some((0, base))
    } else {
        match parse_immediate_chars(off.as_slice()) {
            Some(v) => Some((v, base)),
            None => None,
        }
    }
}

/// `memory_operand_offset_and_base` on a string slice.
pub fn memory_operand_offset_and_base(s: &str) -> (r: Option<(i128, String)>)
    ensures
        r matches Some((off, base)) ==> spec_memory_operand(s@) == Some((off as int, base@)),
        r is None ==> spec_memory_operand(s@) is None,
{
    let chars = str_chars(s);
    match memory_operand_chars(chars.as_slice()) {
        Some((off, base)) => Some((off, string_from_chars(base.as_slice()))),
        None => None,
    }
}

fn small_number_exec(s: &[char]) -> (r: Option<u32>)
    ensures
        r matches Some(k) ==> small_number(s@) == Some(k as int),
        r is None ==> small_number(s@) is None,
{
    if s.len() == 1 && is_digit_char(s[0]) {
        Some(s[0] as u32 - 48)
    } else if s.len() == 2 && is_digit_char(s[0]) && is_digit_char(s[1]) && s[0] != '0' {
        Some((s[0] as u32 - 48) * 10 + (s[1] as u32 - 48))
    } else {
        None
    }
}

fn is_two(s: &[char], a: char, b: char) -> (r: bool)
    ensures
        r == (s@ =~= seq![a, b]),
{
    s.len() == 2 && s[0] == a && s[1] == b
}

/// The architectural number of a register name such as `a0`, `sp` or `x31`.
pub fn parse_register_chars(s: &[char]) -> (r: Option<u32>)
    ensures
        r matches Some(k) ==> spec_register(s@) == Some(k as int),
        r is None ==> spec_register(s@) is None,
{
    if s.len() == 4 && s[0] == 'z' && s[1] == 'e' && s[2] == 'r' && s[3] == 'o' {
        assert(s@ =~= seq!['z', 'e', 'r', 'o']);
        return Some(0);
    }
    assert(!(s@ =~= seq!['z', 'e', 'r', 'o']));
    if is_two(s, 'r', 'a') {
        return Some(1);
    }
    if is_two(s, 's', 'p') {
        return Some(2);
    }
    if is_two(s, 'g', 'p') {
        return Some(3);
    }
    if is_two(s, 't', 'p') {
        return Some(4);
    }
    if is_two(s, 'f', 'p') {
        return Some(8);
    }
    if s.len() < 2 {
        return None;
    }
    let tail = chars_slice(s, 1, s.len());
    assert(tail@ =~= s@.drop_first());
    let n = small_number_exec(tail.as_slice());
    match n {
        None => None,
        Some(k) => {
            if s[0] == 'x' && k <= 31 {
                Some(k)
            } else if s[0] == 't' && k <= 2 {
                Some(k + 5)
            } else if s[0] == 't' && 3 <= k && k <= 6 {
                Some(k + 25)
            } else if s[0] == 's' && k <= 1 {
                Some(k + 8)
            } else if s[0] == 's' && 2 <= k && k <= 11 {
                Some(k + 16)
            } else if s[0] == 'a' && k <= 7 {
                Some(k + 10)
            } else {
                None
            }
        },
    }
}

/// The architectural number of a register name.
pub fn parse_register(s: &str) -> (r: Option<u32>)
    ensures
        r matches Some(k) ==> spec_register(s@) == Some(k as int),
        r is None ==> spec_register(s@) is None,
{
    let chars = str_chars(s);
    parse_register_chars(chars.as_slice())
}

fn scratch_candidate_exec(i: usize) -> (r: Vec<char>)
    ensures
        r@ == scratch_candidate(i as int),
{
    let d: char = if i == 0 {
        '6'
    } else if i == 1 {
        '5'
    } else if i == 2 {
        '4'
    } else if i == 3 {
        '3'
    } else if i == 4 {
        '2'
    } else if i == 5 {
        '1'
    } else {
        '0'
    };
    let mut r: Vec<char> = Vec::new();
    r.push('t');
    r.push(d);
    assert(r@ =~= scratch_candidate(i as int));
    r
}

fn contains_chars(avoid: &Vec<Vec<char>>, x: &Vec<char>) -> (r: bool)
    ensures
        r == avoid@.map_values(|v: Vec<char>| v@).contains(x@),
{
    let ghost names = avoid@.map_values(|v: Vec<char>| v@);
    let mut i: usize = 0;
    while i < avoid.len()
        invariant
            i <= avoid@.len(),
            names == avoid@.map_values(|v: Vec<char>| v@),
            forall|k: int| 0 <= k < i ==> names[k] != x@,
        decreases avoid@.len() - i,
    {
        if chars_eq(avoid[i].as_slice(), x.as_slice()) {
            assert(names[i as int] == x@);
            return true;
        }
        i = i + 1;
    }
    false
}

/// The first scratch register (`t6`, `t5`, ..., `t0`) that `avoid` does not name.
pub fn scratch_register_avoiding_chars(avoid: &Vec<Vec<char>>) -> (r: Vec<char>)
    ensures
        r@ == spec_scratch_avoiding(avoid@.map_values(|v: Vec<char>| v@)),
{
    let ghost names = avoid@.map_values(|v: Vec<char>| v@);
    let mut i: usize = 0;
    loop
        invariant
            i <= 6,
            names == avoid@.map_values(|v: Vec<char>| v@),
            scratch_index(names, 0) == scratch_index(names, i as int),
        decreases 6 - i,
    {
        let cand = scratch_candidate_exec(i);
        if i == 6 || !contains_chars(avoid, &cand) {
            return cand;
        }
        i = i + 1;
    }
}

/// The first scratch register (`t6`, `t5`, ..., `t0`) not named in `avoid`.
pub fn scratch_register_avoiding(avoid: &[&str]) -> (r: String)
    ensures
        r@ == spec_scratch_avoiding(avoid@.map_values(|s: &str| s@)),
{
    let mut names: Vec<Vec<char>> = Vec::new();
    let mut i: usize = 0;
    while i < avoid.len()
        invariant
            i <= avoid@.len(),
            names@.len() == i,
            forall|k: int| 0 <= k < i ==> #[trigger] names@[k]@ == avoid@[k]@,
        decreases avoid@.len() - i,
    {
        names.push(str_chars(avoid[i]));
        i = i + 1;
    }
    assert(names@.map_values(|v: Vec<char>| v@) =~= avoid@.map_values(|s: &str| s@));
    let r = scratch_register_avoiding_chars(&names);
    string_from_chars(r.as_slice())
}

} // verus!
