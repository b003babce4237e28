//! Reading assembly lines into per-section operation lists: labels,
//! decoded instructions, data bytes and alignment requests.

use vstd::prelude::*;
use crate::assembler::instr::{decode_instruction, form_of, is_symbol, spec_decode, spec_form, valid_symbol, InstView, Instruction};
use crate::assembler::syntax::{
    imm_max, imm_min, opcode_chars, operand_text_chars, operands_chars, parse_immediate_chars, spec_opcode,
    spec_operand_text, spec_operands, spec_parse_immediate, spec_strip_comment, strip_comment_chars,
};
use crate::error::CompileError;
use crate::text::{chars_eq, chars_eq_str, string_from_chars, string_push_str, str_chars};

verus! {

broadcast use vstd::std_specs::vec::group_vec_axioms;

#[derive(Clone, Copy, Debug, PartialEq, Eq, Structural)]
pub enum SectionKind {
    Text,
    Rodata,
    Data,
}

/// One operation of a section.
#[derive(Clone, Debug, PartialEq, Eq)]
pub enum AsmOp {
    Label(String),
    Instr(Instruction),
    Bytes(Vec<u8>),
    /// Pad to a multiple of `1 << n`.
    Align(u32),
}

pub enum OpView {
    Label(Seq<char>),
    Instr(InstView),
    Bytes(Seq<u8>),
    Align(int),
}

impl AsmOp {
    pub open spec fn view(&self) -> OpView {
        match *self {
            AsmOp::Label(s) => OpView::Label(s@),
            AsmOp::Instr(i) => OpView::Instr(i.view()),
            AsmOp::Bytes(b) => OpView::Bytes(b@),
            AsmOp::Align(n) => OpView::Align(n as int),
        }
    }
}

pub open spec fn ops_view(ops: Seq<AsmOp>) -> Seq<OpView> {
    ops.map_values(|o: AsmOp| o.view())
}

/// A whole assembly file, split by section.
pub struct ParsedAssembly {
    pub text: Vec<AsmOp>,
    pub rodata: Vec<AsmOp>,
    pub data: Vec<AsmOp>,
    /// Symbols named by `.global`, in order.
    pub globals: Vec<String>,
    /// The first global symbol: where execution starts.
    pub entry_label: Option<String>,
}

/// What reading lines has produced so far.
pub struct ParseState {
    pub text: Seq<OpView>,
    pub rodata: Seq<OpView>,
    pub data: Seq<OpView>,
    pub globals: Seq<Seq<char>>,
    pub section: SectionKind,
}

impl ParsedAssembly {
    pub open spec fn state(&self, section: SectionKind) -> ParseState {
        ParseState {
            text: ops_view(self.text@),
            rodata: ops_view(self.rodata@),
            data: ops_view(self.data@),
            globals: self.globals@.map_values(|g: String| g@),
            section,
        }
    }

    /// The operations of one section.
    pub open spec fn section_ops(&self, kind: SectionKind) -> Seq<AsmOp> {
        match kind {
            SectionKind::Text => self.text@,
            SectionKind::Rodata => self.rodata@,
            SectionKind::Data => self.data@,
        }
    }
}

/// The characters of each line.
pub open spec fn lines_view(lines: Seq<String>) -> Seq<Seq<char>> {
    lines.map_values(|l: String| l@)
}

pub open spec fn initial_state() -> ParseState {
    ParseState { text: Seq::empty(), rodata: Seq::empty(), data: Seq::empty(), globals: Seq::empty(), section: SectionKind::Text }
}

/// Whether any section already defines the label `name`.
pub open spec fn has_label(st: ParseState, name: Seq<char>) -> bool {
    st.text.contains(OpView::Label(name)) || st.rodata.contains(OpView::Label(name)) || st.data.contains(OpView::Label(name))
}

/// `st` with `op` appended to its current section.
pub open spec fn with_op(st: ParseState, op: OpView) -> ParseState {
    match st.section {
        SectionKind::Text => ParseState { text: st.text.push(op), ..st },
        SectionKind::Rodata => ParseState { rodata: st.rodata.push(op), ..st },
        SectionKind::Data => ParseState { data: st.data.push(op), ..st },
    }
}

/// The `n` little-endian bytes of `v`, for `0 <= v < 256^n`.
pub open spec fn le_bytes(v: int, n: nat) -> Seq<u8>
    decreases n,
{
    if n == 0 {
        Seq::empty()
    } else {
        seq![(v % 256) as u8] + le_bytes(v / 256, (n - 1) as nat)
    }
}

/// `256^n`.
pub open spec fn byte_power(n: nat) -> int
    decreases n,
{
    if n == 0 {
        1
    } else {
        256 * byte_power((n - 1) as nat)
    }
}

/// The width in bytes of an integer data directive.
pub open spec fn data_width(d: Seq<char>) -> nat {
    if d == ".byte"@ {
        1
    } else if d == ".half"@ {
        2
    } else if d == ".word"@ {
        4
    } else if d == ".dword"@ || d == ".quad"@ {
        8
    } else {
        0
    }
}

/// Values an integer directive of `n` bytes accepts: signed or unsigned `n`-byte integers.
pub open spec fn data_value_ok(v: int, n: nat) -> bool {
    -byte_power(n) / 2 <= v < byte_power(n) && imm_min() <= v <= imm_max()
}

/// The body of an `.ascii` string: printable ASCII other than `"` and `\`.
pub open spec fn ascii_body_ok(s: Seq<char>) -> bool {
    forall|i: int| 0 <= i < s.len() ==> ' ' <= #[trigger] s[i] <= '~' && s[i] != '"' && s[i] != '\\'
}

pub open spec fn ascii_bytes(s: Seq<char>) -> Seq<u8> {
    s.map_values(|c: char| c as u8)
}

/// The largest `.zero` block accepted.
pub open spec fn max_zero_block() -> int {
    0x10000
}

pub open spec fn msg_quoted(prefix: Seq<char>, x: Seq<char>) -> Seq<char> {
    prefix + x + "'"@
}

/// The effect of a directive line `c` whose first word is `d`.
pub open spec fn spec_directive(st: ParseState, c: Seq<char>, d: Seq<char>) -> Result<ParseState, Seq<char>> {
    let ops = spec_operands(c);
    let text = spec_operand_text(c);
    if d == ".section"@ {
        if ops.len() == 1 && ops[0] == ".text"@ {
            Ok(ParseState { section: SectionKind::Text, ..st })
        } else if ops.len() == 1 && ops[0] == ".rodata"@ {
            Ok(ParseState { section: SectionKind::Rodata, ..st })
        } else if ops.len() == 1 && ops[0] == ".data"@ {
            Ok(ParseState { section: SectionKind::Data, ..st })
        } else {
            Err(msg_quoted("unsupported assembly section '"@, text))
        }
    } else if d == ".text"@ && ops.len() == 0 {
        Ok(ParseState { section: SectionKind::Text, ..st })
    } else if d == ".rodata"@ && ops.len() == 0 {
        Ok(ParseState { section: SectionKind::Rodata, ..st })
    } else if d == ".data"@ && ops.len() == 0 {
        Ok(ParseState { section: SectionKind::Data, ..st })
    } else if d == ".global"@ || d == ".globl"@ {
        if ops.len() == 1 && valid_symbol(ops[0]) {
            Ok(ParseState { globals: st.globals.push(ops[0]), ..st })
        } else {
            Err(msg_quoted("invalid assembly directive '"@, c))
        }
    } else if d == ".type"@ || d == ".option"@ || d == ".size"@ {
        Ok(st)
    } else if data_width(d) > 0 || d == ".ascii"@ || d == ".zero"@ || d == ".align"@ {
        if st.section == SectionKind::Text {
            Err(msg_quoted("data directive in the .text section '"@, c))
        } else if data_width(d) > 0 {
            let n = data_width(d);
            if ops.len() == 1 && spec_parse_immediate(ops[0]) is Some && data_value_ok(spec_parse_immediate(ops[0])->0, n) {
                let v = spec_parse_immediate(ops[0])->0;
                Ok(with_op(st, OpView::Bytes(le_bytes(v % byte_power(n), n))))
            } else {
                Err(msg_quoted("invalid assembly directive '"@, c))
            }
        } else if d == ".ascii"@ {
            if text.len() >= 2 && text[0] == '"' && text[text.len() - 1] == '"' && ascii_body_ok(text.subrange(1, text.len() - 1)) {
                Ok(with_op(st, OpView::Bytes(ascii_bytes(text.subrange(1, text.len() - 1)))))
            } else {
                Err(msg_quoted("invalid assembly directive '"@, c))
            }
        } else if d == ".zero"@ {
            if ops.len() == 1 && spec_parse_immediate(ops[0]) is Some && 0 <= spec_parse_immediate(ops[0])->0 <= max_zero_block() {
                Ok(with_op(st, OpView::Bytes(Seq::new(spec_parse_immediate(ops[0])->0 as nat, |i: int| 0u8))))
            } else {
                Err(msg_quoted("invalid assembly directive '"@, c))
            }
        } else {
            if ops.len() == 1 && spec_parse_immediate(ops[0]) is Some && 0 <= spec_parse_immediate(ops[0])->0 <= 12 {
                Ok(with_op(st, OpView::Align(spec_parse_immediate(ops[0])->0)))
            } else {
                Err(msg_quoted("invalid assembly directive '"@, c))
            }
        }
    } else {
        Err(msg_quoted("unsupported assembly directive '"@, d))
    }
}

/// The effect of one source line.
pub open spec fn spec_line(st: ParseState, line: Seq<char>) -> Result<ParseState, Seq<char>> {
    match spec_strip_comment(line) {
        None => Ok(st),
        Some(c) => {
            if c.len() == 0 {
                Ok(st)
            } else if c[c.len() - 1] == ':' {
                let name = c.subrange(0, c.len() - 1);
                if !valid_symbol(name) {
                    Err(msg_quoted("invalid assembly label '"@, name))
                } else if has_label(st, name) {
                    Err(msg_quoted("duplicate assembly label '"@, name))
                } else {
                    Ok(with_op(st, OpView::Label(name)))
                }
            } else if c[0] == '.' {
                spec_directive(st, c, spec_opcode(c))
            } else {
                let mn = spec_opcode(c);
                match spec_form(mn) {
                    None => Err(msg_quoted("unsupported assembly instruction '"@, mn)),
                    Some(form) => match spec_decode(form, spec_operands(c)) {
                        None => Err(msg_quoted("invalid operands for assembly instruction '"@, c)),
                        Some(i) => if st.section != SectionKind::Text {
                            Err(msg_quoted("instruction outside the .text section '"@, c))
                        } else {
                            Ok(with_op(st, OpView::Instr(i)))
                        },
                    },
                }
            }
        },
    }
}

/// The state after reading all lines, or the first error.
pub open spec fn spec_parse_lines(lines: Seq<Seq<char>>) -> Result<ParseState, Seq<char>>
    decreases lines.len(),
{
    if lines.len() == 0 {
        Ok(initial_state())
    } else {
        match spec_parse_lines(lines.drop_last()) {
            Err(m) => Err(m),
            Ok(st) => spec_line(st, lines.last()),
        }
    }
}

// ---------------------------------------------------------------------------
// Executable reader
// ---------------------------------------------------------------------------

fn quoted_message(prefix: &str, x: &[char]) -> (s: String)
    ensures
        s@ == msg_quoted(prefix@, x@),
{
    let mut s = String::new();
    string_push_str(&mut s, prefix);
    let xs = string_from_chars(x);
    string_push_str(&mut s, xs.as_str());
    string_push_str(&mut s, "'");
    assert(s@ =~= msg_quoted(prefix@, x@));
    s
}

fn quoted_error(prefix: &str, x: &[char]) -> (e: CompileError)
    ensures
        e.message@ == msg_quoted(prefix@, x@),
{
    CompileError::without_span(quoted_message(prefix, x))
}

/// The little-endian bytes of `v` modulo `256^n`.
pub fn le_bytes_exec(v: i128, n: u32) -> (r: Vec<u8>)
    requires
        1 <= n <= 8,
        data_value_ok(v as int, n as nat),
    ensures
        r@ == le_bytes(v as int % byte_power(n as nat), n as nat),
{
    let mut m: i128 = 1;
    let mut k: u32 = 0;
    while k < n
        invariant
            k <= n <= 8,
            m as int == byte_power(k as nat),
            1 <= m <= 0x1_0000_0000_0000_0000i128,
        decreases n - k,
    {
        proof {
            lemma_byte_power_bound(k as nat);
        }
        m = m * 256;
        k = k + 1;
        assert(m as int == byte_power(k as nat));
    }
    proof {
        lemma_byte_power_bound(n as nat);
    }
    let mut x: u128 = if v < 0 { (v + m) as u128 } else { v as u128 };
    proof {
        if v < 0 {
            assert(v as int % byte_power(n as nat) == v + m) by {
                vstd::arithmetic::div_mod::lemma_fundamental_div_mod(v as int, m as int);
                assert(byte_power(n as nat) == m as int);
                assert((v + m) as int % (m as int) == (v + m) as int) by {
                    vstd::arithmetic::div_mod::lemma_small_mod((v + m) as nat, m as nat);
                }
                vstd::arithmetic::div_mod::lemma_mod_add_multiples_vanish(v as int, m as int);
            }
        } else {
            vstd::arithmetic::div_mod::lemma_small_mod(v as nat, m as nat);
        }
    }
    let ghost x0 = x as int;
    let mut r: Vec<u8> = Vec::new();
    let mut i: u32 = 0;
    while i < n
        invariant
            i <= n <= 8,
            le_bytes(x0, n as nat) == r@ + le_bytes(x as int, (n - i) as nat),
        decreases n - i,
    {
        assert(le_bytes(x as int, (n - i) as nat) == seq![(x as int % 256) as u8] + le_bytes(x as int / 256, (n - i - 1) as nat));
        r.push((x % 256) as u8);
        x = x / 256;
        i = i + 1;
        assert(le_bytes(x0, n as nat) =~= r@ + le_bytes(x as int, (n - i) as nat));
    }
    assert(le_bytes(x as int, 0) =~= Seq::<u8>::empty());
    assert(r@ =~= le_bytes(x0, n as nat));
    r
}

pub proof fn lemma_byte_power_bound(n: nat)
    requires
        n <= 8,
    ensures
        1 <= byte_power(n) <= 0x1_0000_0000_0000_0000,
        n <= 7 ==> byte_power(n) <= 0x100_0000_0000_0000,
{
    reveal_with_fuel(byte_power, 9);
    if n == 0 {
    } else if n == 1 {
    } else if n == 2 {
    } else if n == 3 {
    } else if n == 4 {
    } else if n == 5 {
    } else if n == 6 {
    } else if n == 7 {
    } else {
    }
}

fn data_width_exec(d: &[char]) -> (r: u32)
    ensures
        r as nat == data_width(d@),
        r <= 8,
{
    if chars_eq_str(d, ".byte") {
        1
    } else if chars_eq_str(d, ".half") {
        2
    } else if chars_eq_str(d, ".word") {
        4
    } else if chars_eq_str(d, ".dword") || chars_eq_str(d, ".quad") {
        8
    } else {
        0
    }
}

fn ascii_body_bytes(s: &[char], lo: usize, hi: usize) -> (r: Option<Vec<u8>>)
    requires
        lo <= hi <= s@.len(),
    ensures
        r is Some <==> ascii_body_ok(s@.subrange(lo as int, hi as int)),
        r matches Some(b) ==> b@ == ascii_bytes(s@.subrange(lo as int, hi as int)),
{
    let ghost body = s@.subrange(lo as int, hi as int);
    let mut out: Vec<u8> = Vec::new();
    let mut i = lo;
    while i < hi
        invariant
            lo <= i <= hi <= s@.len(),
            body == s@.subrange(lo as int, hi as int),
            out@ == ascii_bytes(body.subrange(0, i - lo)),
            forall|k: int| 0 <= k < i - lo ==> ' ' <= #[trigger] body[k] <= '~' && body[k] != '"' && body[k] != '\\',
        decreases hi - i,
    {
        let c = s[i];
        if !(' ' <= c && c <= '~' && c != '"' && c != '\\') {
            assert(body[i - lo] == c);
            return None;
        }
        out.push(c as u8);
        assert(ascii_bytes(body.subrange(0, i + 1 - lo)) =~= ascii_bytes(body.subrange(0, i - lo)).push(c as u8));
        i = i + 1;
    }
    assert(body.subrange(0, hi - lo) =~= body);
    Some(out)
}

impl ParsedAssembly {
    /// Appends an operation to the current section.
    fn push_op(&mut self, section: SectionKind, op: AsmOp)
        ensures
            final(self).state(section) == with_op(old(self).state(section), op.view()),
            final(self).entry_label == old(self).entry_label,
    {
        let ghost v = op.view();
        match section {
            SectionKind::Text => {
                self.text.push(op);
                assert(ops_view(self.text@) =~= ops_view(old(self).text@).push(v));
            },
            SectionKind::Rodata => {
                self.rodata.push(op);
                assert(ops_view(self.rodata@) =~= ops_view(old(self).rodata@).push(v));
            },
            SectionKind::Data => {
                self.data.push(op);
                assert(ops_view(self.data@) =~= ops_view(old(self).data@).push(v));
            },
        }
    }

    /// Whether any section defines the label.
    fn defines_label(&self, name: &[char]) -> (r: bool)
        ensures
            r == has_label(self.state(SectionKind::Text), name@),
    {
        labels_contain(&self.text, name) || labels_contain(&self.rodata, name) || labels_contain(&self.data, name)
    }
}

fn labels_contain(ops: &Vec<AsmOp>, name: &[char]) -> (r: bool)
    ensures
        r == ops_view(ops@).contains(OpView::Label(name@)),
{
    let ghost v = ops_view(ops@);
    let mut i: usize = 0;
    while i < ops.len()
        invariant
            i <= ops@.len(),
            v == ops_view(ops@),
            forall|k: int| 0 <= k < i ==> v[k] != OpView::Label(name@),
        decreases ops@.len() - i,
    {
        if let AsmOp::Label(l) = &ops[i] {
            let lc = str_chars(l.as_str());
            if chars_eq(lc.as_slice(), name) {
                assert(v[i as int] == OpView::Label(name@));
                return true;
            }
        }
        i = i + 1;
    }
    false
}

/// Reads a directive line.
fn parse_directive(p: &mut ParsedAssembly, section: &mut SectionKind, c: &Vec<char>, d: &Vec<char>) -> (r: Result<(), CompileError>)
    requires
        d@ == spec_opcode(c@),
        c@.len() > 0,
    ensures
        r is Ok <==> spec_directive(old(p).state(*old(section)), c@, d@) is Ok,
        r matches Ok(_) ==> spec_directive(old(p).state(*old(section)), c@, d@) == Ok::<ParseState, Seq<char>>(
            final(p).state(*final(section))),
        r matches Err(e) ==> spec_directive(old(p).state(*old(section)), c@, d@) == Err::<ParseState, Seq<char>>(e.message@),
        final(p).entry_label == old(p).entry_label,
{
    let ops = operands_chars(c.as_slice());
    let ghost opsv = spec_operands(c@);
    assert(ops@.map_values(|o: Vec<char>| o@) =~= opsv);
    let text = operand_text_chars(c.as_slice());
    let n = ops.len();
    if chars_eq_str(d.as_slice(), ".section") {
        if n == 1 && chars_eq_str(ops[0].as_slice(), ".text") {
            *section = SectionKind::Text;
            return Ok(());
        } else if n == 1 && chars_eq_str(ops[0].as_slice(), ".rodata") {
            *section = SectionKind::Rodata;
            return Ok(());
        } else if n == 1 && chars_eq_str(ops[0].as_slice(), ".data") {
            *section = SectionKind::Data;
            return Ok(());
        }
        return Err(quoted_error("unsupported assembly section '", text.as_slice()));
    }
    if chars_eq_str(d.as_slice(), ".text") && n == 0 {
        *section = SectionKind::Text;
        return Ok(());
    }
    if chars_eq_str(d.as_slice(), ".rodata") && n == 0 {
        *section = SectionKind::Rodata;
        return Ok(());
    }
    if chars_eq_str(d.as_slice(), ".data") && n == 0 {
        *section = SectionKind::Data;
        return Ok(());
    }
    if chars_eq_str(d.as_slice(), ".global") || chars_eq_str(d.as_slice(), ".globl") {
        if n == 1 && is_symbol(ops[0].as_slice()) {
            let g = string_from_chars(ops[0].as_slice());
            p.globals.push(g);
            assert(p.globals@.map_values(|x: String| x@) =~= old(p).globals@.map_values(|x: String| x@).push(opsv[0]));
            return Ok(());
        }
        return Err(quoted_error("invalid assembly directive '", c.as_slice()));
    }
    if chars_eq_str(d.as_slice(), ".type") || chars_eq_str(d.as_slice(), ".option") || chars_eq_str(d.as_slice(), ".size") {
        return Ok(());
    }
    let width = data_width_exec(d.as_slice());
    let is_ascii = chars_eq_str(d.as_slice(), ".ascii");
    let is_zero = chars_eq_str(d.as_slice(), ".zero");
    let is_align = chars_eq_str(d.as_slice(), ".align");
    if !(width > 0 || is_ascii || is_zero || is_align) {
        return Err(quoted_error("unsupported assembly directive '", d.as_slice()));
    }
    if *section == SectionKind::Text {
        return Err(quoted_error("data directive in the .text section '", c.as_slice()));
    }
    if width > 0 {
        if n == 1 {
            if let Some(v) = parse_immediate_chars(ops[0].as_slice()) {
                proof {
                    lemma_byte_power_bound(width as nat);
                }
                let lo: i128 = if width == 8 { -0x8000_0000_0000_0000i128 } else if width == 4 { -0x8000_0000i128 } else if width == 2 { -0x8000i128 } else { -0x80i128 };
                let hi: i128 = if width == 8 { 0x1_0000_0000_0000_0000i128 } else if width == 4 { 0x1_0000_0000i128 } else if width == 2 { 0x1_0000i128 } else { 0x100i128 };
                proof {
                    reveal_with_fuel(byte_power, 9);
                }
                assert(lo == -byte_power(width as nat) / 2 && hi == byte_power(width as nat));
                if lo <= v && v < hi {
                    let bytes = le_bytes_exec(v, width);
                    p.push_op(*section, AsmOp::Bytes(bytes));
                    return Ok(());
                }
            }
        }
        return Err(quoted_error("invalid assembly directive '", c.as_slice()));
    }
    if is_ascii {
        let tl = text.len();
        if tl >= 2 && text[0] == '"' && text[tl - 1] == '"' {
            if let Some(bytes) = ascii_body_bytes(text.as_slice(), 1, tl - 1) {
                p.push_op(*section, AsmOp::Bytes(bytes));
                return Ok(());
            }
        }
        return Err(quoted_error("invalid assembly directive '", c.as_slice()));
    }
    if is_zero {
        if n == 1 {
            if let Some(v) = parse_immediate_chars(ops[0].as_slice()) {
                if 0 <= v && v <= 0x10000 {
                    let mut bytes: Vec<u8> = Vec::new();
                    let mut k: i128 = 0;
                    while k < v
                        invariant
                            0 <= k <= v,
                            bytes@ == Seq::new(k as nat, |i: int| 0u8),
                        decreases v - k,
                    {
                        bytes.push(0u8);
                        k = k + 1;
                        assert(bytes@ =~= Seq::new(k as nat, |i: int| 0u8));
                    }
                    p.push_op(*section, AsmOp::Bytes(bytes));
                    return Ok(());
                }
            }
        }
        return Err(quoted_error("invalid assembly directive '", c.as_slice()));
    }
    if n == 1 {
        if let Some(v) = parse_immediate_chars(ops[0].as_slice()) {
            if 0 <= v && v <= 12 {
                p.push_op(*section, AsmOp::Align(v as u32));
                return Ok(());
            }
        }
    }
    Err(quoted_error("invalid assembly directive '", c.as_slice()))
}

/// Reads one source line.
fn parse_line(p: &mut ParsedAssembly, section: &mut SectionKind, line: &str) -> (r: Result<(), CompileError>)
    ensures
        r is Ok <==> spec_line(old(p).state(*old(section)), line@) is Ok,
        r matches Ok(_) ==> spec_line(old(p).state(*old(section)), line@) == Ok::<ParseState, Seq<char>>(
            final(p).state(*final(section))),
        r matches Err(e) ==> spec_line(old(p).state(*old(section)), line@) == Err::<ParseState, Seq<char>>(e.message@),
        final(p).entry_label == old(p).entry_label,
{
    let chars = str_chars(line);
    let c = match strip_comment_chars(chars.as_slice()) {
        None => return Ok(()),
        Some(c) => c,
    };
    let len = c.len();
    if len == 0 {
        return Ok(());
    }
    if c[len - 1] == ':' {
        let name = crate::text::chars_slice(c.as_slice(), 0, len - 1);
        if !is_symbol(name.as_slice()) {
            return Err(quoted_error("invalid assembly label '", name.as_slice()));
        }
        if p.defines_label(name.as_slice()) {
            return Err(quoted_error("duplicate assembly label '", name.as_slice()));
        }
        let label = string_from_chars(name.as_slice());
        p.push_op(*section, AsmOp::Label(label));
        return Ok(());
    }
    let mn = opcode_chars(c.as_slice());
    if c[0] == '.' {
        return parse_directive(p, section, &c, &mn);
    }
    let form = match form_of(mn.as_slice()) {
        None => return Err(quoted_error("unsupported assembly instruction '", mn.as_slice())),
        Some(f) => f,
    };
    let ops = operands_chars(c.as_slice());
    assert(ops@.map_values(|o: Vec<char>| o@) =~= spec_operands(c@));
    let inst = match decode_instruction(form, &ops) {
        None => return Err(quoted_error("invalid operands for assembly instruction '", c.as_slice())),
        Some(i) => i,
    };
    if *section != SectionKind::Text {
        return Err(quoted_error("instruction outside the .text section '", c.as_slice()));
    }
    p.push_op(*section, AsmOp::Instr(inst));
    Ok(())
}

impl ParsedAssembly {
    /// Reads assembly lines: `#` comments, labels, the section, global,
    /// integer data, string, zero-fill and alignment directives, and the
    /// instructions the assembler supports.
    pub fn parse(lines: &[String]) -> (r: Result<ParsedAssembly, CompileError>)
        ensures
            r is Ok <==> spec_parse_lines(lines@.map_values(|l: String| l@)) is Ok,
            r matches Ok(p) ==> spec_parse_lines(lines@.map_values(|l: String| l@)) matches Ok(st) && p.state(st.section) == st
                && (p.entry_label matches Some(e) ==> st.globals.len() > 0 && e@ == st.globals[0])
                && (p.entry_label is None ==> st.globals.len() == 0),
            r matches Err(e) ==> spec_parse_lines(lines@.map_values(|l: String| l@)) == Err::<ParseState, Seq<char>>(e.message@),
    {
        let ghost lv = lines@.map_values(|l: String| l@);
        let mut p = ParsedAssembly { text: Vec::new(), rodata: Vec::new(), data: Vec::new(), globals: Vec::new(), entry_label: None };
        let mut section = SectionKind::Text;
        assert(ops_view(p.text@) =~= Seq::<OpView>::empty());
        assert(ops_view(p.rodata@) =~= Seq::<OpView>::empty());
        assert(ops_view(p.data@) =~= Seq::<OpView>::empty());
        assert(p.globals@.map_values(|g: String| g@) =~= Seq::<Seq<char>>::empty());
        assert(lv.subrange(0, 0) =~= Seq::<Seq<char>>::empty());
        let mut i: usize = 0;
        while i < lines.len()
            invariant
                i <= lines@.len(),
                lv == lines@.map_values(|l: String| l@),
                spec_parse_lines(lv.subrange(0, i as int)) == Ok::<ParseState, Seq<char>>(p.state(section)),
                p.entry_label is None,
            decreases lines@.len() - i,
        {
            assert(lv.subrange(0, i + 1).drop_last() =~= lv.subrange(0, i as int));
            if let Err(e) = parse_line(&mut p, &mut section, lines[i].as_str()) {
                proof {
                    lemma_parse_error_persists(lv, i + 1);
                }
                return Err(e);
            }
            i = i + 1;
        }
        assert(lv.subrange(0, lines@.len() as int) =~= lv);
        if p.globals.len() > 0 {
            p.entry_label = Some(p.globals[0].clone());
        }
        Ok(p)
    }
}

/// Once reading a prefix of the lines fails, reading them all fails the same way.
proof fn lemma_parse_error_persists(lines: Seq<Seq<char>>, k: int)
    requires
        0 <= k <= lines.len(),
        spec_parse_lines(lines.subrange(0, k)) is Err,
    ensures
        spec_parse_lines(lines) == spec_parse_lines(lines.subrange(0, k)),
    decreases lines.len() - k,
{
    if k == lines.len() {
        assert(lines.subrange(0, k) =~= lines);
    } else {
        let ys = lines.drop_last();
        assert(ys.subrange(0, k) =~= lines.subrange(0, k));
        lemma_parse_error_persists(ys, k);
    }
}

} // verus!
