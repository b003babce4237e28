//! The instruction forms the assembler accepts and the decoding of an
//! instruction's operand list into registers, immediates and label names.

use vstd::prelude::*;
use crate::assembler::syntax::{
    memory_operand_chars, parse_immediate_chars, parse_register_chars, small_signed, spec_memory_operand,
    spec_parse_immediate, spec_register,
};
use crate::text::{chars_eq_str, string_from_chars};

verus! {

/// How a mnemonic's operands map onto a machine instruction.
#[derive(Clone, Copy, Debug, PartialEq, Eq, Structural)]
pub enum Form {
    /// `op rd, rs1, rs2`
    Reg { f7: u32, f3: u32 },
    /// `op rd, rs1, rs2` assembled with the sources swapped (`sgt`, `sgtu`)
    RegSwap { f7: u32, f3: u32 },
    /// `op rd, rs` assembled as `op rd, zero, rs` (`neg`, `snez`)
    RegFromZero { f7: u32, f3: u32 },
    /// `op rd, rs1, imm12`
    Imm { f3: u32 },
    /// `op rd, rs` assembled with immediate 1 (`seqz`)
    ImmOne { f3: u32 },
    /// `mv rd, rs`
    Move,
    /// `op rd, rs1, shamt`
    Shift { f3: u32 },
    /// `op rd, imm(rs1)`
    Load { f3: u32 },
    /// `op rs2, imm(rs1)`
    Store { f3: u32 },
    /// `op rs1, rs2, label`
    Branch { f3: u32 },
    /// `op rs1, rs2, label` assembled with the sources swapped (`bgt`)
    BranchSwap { f3: u32 },
    /// `op rs, label` assembled against `zero`
    BranchZero { f3: u32 },
    /// `j label` / `call label`
    Jump { rd: u32 },
    Return,
    EnvCall,
    LoadImm,
    LoadAddr,
}

/// The form of each supported mnemonic.
pub open spec fn spec_form(mn: Seq<char>) -> Option<Form> {
    if mn == "add"@ { Some(Form::Reg { f7: 0, f3: 0 }) }
    else if mn == "sub"@ { Some(Form::Reg { f7: 0x20, f3: 0 }) }
    else if mn == "and"@ { Some(Form::Reg { f7: 0, f3: 7 }) }
    else if mn == "or"@ { Some(Form::Reg { f7: 0, f3: 6 }) }
    else if mn == "xor"@ { Some(Form::Reg { f7: 0, f3: 4 }) }
    else if mn == "slt"@ { Some(Form::Reg { f7: 0, f3: 2 }) }
    else if mn == "sltu"@ { Some(Form::Reg { f7: 0, f3: 3 }) }
    else if mn == "mul"@ { Some(Form::Reg { f7: 1, f3: 0 }) }
    else if mn == "div"@ { Some(Form::Reg { f7: 1, f3: 4 }) }
    else if mn == "divu"@ { Some(Form::Reg { f7: 1, f3: 5 }) }
    else if mn == "rem"@ { Some(Form::Reg { f7: 1, f3: 6 }) }
    else if mn == "remu"@ { Some(Form::Reg { f7: 1, f3: 7 }) }
    else if mn == "sgt"@ { Some(Form::RegSwap { f7: 0, f3: 2 }) }
    else if mn == "sgtu"@ { Some(Form::RegSwap { f7: 0, f3: 3 }) }
    else if mn == "neg"@ { Some(Form::RegFromZero { f7: 0x20, f3: 0 }) }
    else if mn == "snez"@ { Some(Form::RegFromZero { f7: 0, f3: 3 }) }
    else if mn == "addi"@ { Some(Form::Imm { f3: 0 }) }
    else if mn == "andi"@ { Some(Form::Imm { f3: 7 }) }
    else if mn == "xori"@ { Some(Form::Imm { f3: 4 }) }
    else if mn == "seqz"@ { Some(Form::ImmOne { f3: 3 }) }
    else if mn == "mv"@ { Some(Form::Move) }
    else if mn == "slli"@ { Some(Form::Shift { f3: 1 }) }
    else if mn == "srli"@ { Some(Form::Shift { f3: 5 }) }
    else if mn == "lbu"@ { Some(Form::Load { f3: 4 }) }
    else if mn == "ld"@ { Some(Form::Load { f3: 3 }) }
    else if mn == "sb"@ { Some(Form::Store { f3: 0 }) }
    else if mn == "sh"@ { Some(Form::Store { f3: 1 }) }
    else if mn == "sw"@ { Some(Form::Store { f3: 2 }) }
    else if mn == "sd"@ { Some(Form::Store { f3: 3 }) }
    else if mn == "beq"@ { Some(Form::Branch { f3: 0 }) }
    else if mn == "bne"@ { Some(Form::Branch { f3: 1 }) }
    else if mn == "blt"@ { Some(Form::Branch { f3: 4 }) }
    else if mn == "bge"@ { Some(Form::Branch { f3: 5 }) }
    else if mn == "bltu"@ { Some(Form::Branch { f3: 6 }) }
    else if mn == "bgeu"@ { Some(Form::Branch { f3: 7 }) }
    else if mn == "bgt"@ { Some(Form::BranchSwap { f3: 4 }) }
    else if mn == "beqz"@ { Some(Form::BranchZero { f3: 0 }) }
    else if mn == "bnez"@ { Some(Form::BranchZero { f3: 1 }) }
    else if mn == "bgez"@ { Some(Form::BranchZero { f3: 5 }) }
    else if mn == "j"@ { Some(Form::Jump { rd: 0 }) }
    else if mn == "call"@ { Some(Form::Jump { rd: 1 }) }
    else if mn == "ret"@ { Some(Form::Return) }
    else if mn == "ecall"@ { Some(Form::EnvCall) }
    else if mn == "li"@ { Some(Form::LoadImm) }
    else if mn == "la"@ { Some(Form::LoadAddr) }
    else { None }
}

/// The form of a mnemonic, or `None` when the assembler does not accept it.
pub fn form_of(mn: &[char]) -> (r: Option<Form>)
    ensures
        r == spec_form(mn@),
{
    if chars_eq_str(mn, "add") { Some(Form::Reg { f7: 0, f3: 0 }) }
    else if chars_eq_str(mn, "sub") { Some(Form::Reg { f7: 0x20, f3: 0 }) }
    else if chars_eq_str(mn, "and") { Some(Form::Reg { f7: 0, f3: 7 }) }
    else if chars_eq_str(mn, "or") { Some(Form::Reg { f7: 0, f3: 6 }) }
    else if chars_eq_str(mn, "xor") { Some(Form::Reg { f7: 0, f3: 4 }) }
    else if chars_eq_str(mn, "slt") { Some(Form::Reg { f7: 0, f3: 2 }) }
    else if chars_eq_str(mn, "sltu") { Some(Form::Reg { f7: 0, f3: 3 }) }
    else if chars_eq_str(mn, "mul") { Some(Form::Reg { f7: 1, f3: 0 }) }
    else if chars_eq_str(mn, "div") { Some(Form::Reg { f7: 1, f3: 4 }) }
    else if chars_eq_str(mn, "divu") { Some(Form::Reg { f7: 1, f3: 5 }) }
    else if chars_eq_str(mn, "rem") { Some(Form::Reg { f7: 1, f3: 6 }) }
    else if chars_eq_str(mn, "remu") { Some(Form::Reg { f7: 1, f3: 7 }) }
    else if chars_eq_str(mn, "sgt") { Some(Form::RegSwap { f7: 0, f3: 2 }) }
    else if chars_eq_str(mn, "sgtu") { Some(Form::RegSwap { f7: 0, f3: 3 }) }
    else if chars_eq_str(mn, "neg") { Some(Form::RegFromZero { f7: 0x20, f3: 0 }) }
    else if chars_eq_str(mn, "snez") { Some(Form::RegFromZero { f7: 0, f3: 3 }) }
    else if chars_eq_str(mn, "addi") { Some(Form::Imm { f3: 0 }) }
    else if chars_eq_str(mn, "andi") { Some(Form::Imm { f3: 7 }) }
    else if chars_eq_str(mn, "xori") { Some(Form::Imm { f3: 4 }) }
    else if chars_eq_str(mn, "seqz") { Some(Form::ImmOne { f3: 3 }) }
    else if chars_eq_str(mn, "mv") { Some(Form::Move) }
    else if chars_eq_str(mn, "slli") { Some(Form::Shift { f3: 1 }) }
    else if chars_eq_str(mn, "srli") { Some(Form::Shift { f3: 5 }) }
    else if chars_eq_str(mn, "lbu") { Some(Form::Load { f3: 4 }) }
    else if chars_eq_str(mn, "ld") { Some(Form::Load { f3: 3 }) }
    else if chars_eq_str(mn, "sb") { Some(Form::Store { f3: 0 }) }
    else if chars_eq_str(mn, "sh") { Some(Form::Store { f3: 1 }) }
    else if chars_eq_str(mn, "sw") { Some(Form::Store { f3: 2 }) }
    else if chars_eq_str(mn, "sd") { Some(Form::Store { f3: 3 }) }
    else if chars_eq_str(mn, "beq") { Some(Form::Branch { f3: 0 }) }
    else if chars_eq_str(mn, "bne") { Some(Form::Branch { f3: 1 }) }
    else if chars_eq_str(mn, "blt") { Some(Form::Branch { f3: 4 }) }
    else if chars_eq_str(mn, "bge") { Some(Form::Branch { f3: 5 }) }
    else if chars_eq_str(mn, "bltu") { Some(Form::Branch { f3: 6 }) }
    else if chars_eq_str(mn, "bgeu") { Some(Form::Branch { f3: 7 }) }
    else if chars_eq_str(mn, "bgt") { Some(Form::BranchSwap { f3: 4 }) }
    else if chars_eq_str(mn, "beqz") { Some(Form::BranchZero { f3: 0 }) }
    else if chars_eq_str(mn, "bnez") { Some(Form::BranchZero { f3: 1 }) }
    else if chars_eq_str(mn, "bgez") { Some(Form::BranchZero { f3: 5 }) }
    else if chars_eq_str(mn, "j") { Some(Form::Jump { rd: 0 }) }
    else if chars_eq_str(mn, "call") { Some(Form::Jump { rd: 1 }) }
    else if chars_eq_str(mn, "ret") { Some(Form::Return) }
    else if chars_eq_str(mn, "ecall") { Some(Form::EnvCall) }
    else if chars_eq_str(mn, "li") { Some(Form::LoadImm) }
    else if chars_eq_str(mn, "la") { Some(Form::LoadAddr) }
    else { None }
}

/// Whether a conditional branch is assembled as one instruction, or relaxed
/// into an inverted branch over a `jal`.
#[derive(Clone, Copy, Debug, PartialEq, Eq, Structural)]
pub enum BranchSizeMode {
    Short,
    Relaxed,
}

/// A decoded instruction; label operands stay as names.
#[derive(Clone, Debug, PartialEq, Eq)]
pub enum Instruction {
    Reg { f7: u32, f3: u32, rd: u32, rs1: u32, rs2: u32 },
    Imm { f3: u32, rd: u32, rs1: u32, imm: i64 },
    Load { f3: u32, rd: u32, rs1: u32, imm: i64 },
    Store { f3: u32, rs1: u32, rs2: u32, imm: i64 },
    Branch { f3: u32, rs1: u32, rs2: u32, target: String, mode: BranchSizeMode },
    Jump { rd: u32, target: String },
    Ret,
    Ecall,
    Li { rd: u32, value: i128 },
    La { rd: u32, target: String },
}

/// An instruction with its label operand as characters.
pub enum InstView {
    Reg { f7: u32, f3: u32, rd: u32, rs1: u32, rs2: u32 },
    Imm { f3: u32, rd: u32, rs1: u32, imm: int },
    Load { f3: u32, rd: u32, rs1: u32, imm: int },
    Store { f3: u32, rs1: u32, rs2: u32, imm: int },
    Branch { f3: u32, rs1: u32, rs2: u32, target: Seq<char>, mode: BranchSizeMode },
    Jump { rd: u32, target: Seq<char> },
    Ret,
    Ecall,
    Li { rd: u32, value: int },
    La { rd: u32, target: Seq<char> },
}

impl Instruction {
    pub open spec fn view(&self) -> InstView {
        match *self {
            Instruction::Reg { f7, f3, rd, rs1, rs2 } => InstView::Reg { f7, f3, rd, rs1, rs2 },
            Instruction::Imm { f3, rd, rs1, imm } => InstView::Imm { f3, rd, rs1, imm: imm as int },
            Instruction::Load { f3, rd, rs1, imm } => InstView::Load { f3, rd, rs1, imm: imm as int },
            Instruction::Store { f3, rs1, rs2, imm } => InstView::Store { f3, rs1, rs2, imm: imm as int },
            Instruction::Branch { f3, rs1, rs2, target, mode } => InstView::Branch { f3, rs1, rs2, target: target@, mode },
            Instruction::Jump { rd, target } => InstView::Jump { rd, target: target@ },
            Instruction::Ret => InstView::Ret,
            Instruction::Ecall => InstView::Ecall,
            Instruction::Li { rd, value } => InstView::Li { rd, value: value as int },
            Instruction::La { rd, target } => InstView::La { rd, target: target@ },
        }
    }

    /// The label that a branch, jump, call or `la` names.
    pub open spec fn target_name(&self) -> Option<Seq<char>> {
        match *self {
            Instruction::Branch { target, .. } => Some(target@),
            Instruction::Jump { target, .. } => Some(target@),
            Instruction::La { target, .. } => Some(target@),
            _ => None,
        }
    }
}

/// Characters a symbol may hold.
pub open spec fn symbol_char(c: char) -> bool {
    ('a' <= c && c <= 'z') || ('A' <= c && c <= 'Z') || ('0' <= c && c <= '9') || c == '_' || c == '.' || c == '$'
}

/// A symbol name: nonempty, not starting with a digit, of symbol characters.
pub open spec fn valid_symbol(s: Seq<char>) -> bool {
    &&& s.len() > 0
    &&& !('0' <= s[0] && s[0] <= '9')
    &&& forall|i: int| 0 <= i < s.len() ==> symbol_char(#[trigger] s[i])
}

pub fn is_symbol(s: &[char]) -> (r: bool)
    ensures
        r == valid_symbol(s@),
{
    if s.len() == 0 || ('0' <= s[0] && s[0] <= '9') {
        return false;
    }
    let mut i: usize = 0;
    while i < s.len()
        invariant
            i <= s@.len(),
            forall|k: int| 0 <= k < i ==> symbol_char(#[trigger] s@[k]),
        decreases s@.len() - i,
    {
        let c = s[i];
        let ok = ('a' <= c && c <= 'z') || ('A' <= c && c <= 'Z') || ('0' <= c && c <= '9') || c == '_' || c == '.'
            || c == '$';
        if !ok {
            assert(!symbol_char(s@[i as int]));
            return false;
        }
        i = i + 1;
    }
    true
}

/// A register operand.
pub open spec fn reg_of(s: Seq<char>) -> Option<u32> {
    match spec_register(s) {
        Some(k) => Some(k as u32),
        None => None,
    }
}

/// A signed 12-bit immediate operand.
pub open spec fn imm12_of(s: Seq<char>) -> Option<int> {
    match spec_parse_immediate(s) {
        Some(v) => if small_signed(v) { Some(v) } else { None },
        None => None,
    }
}

/// A memory operand with a 12-bit offset and a register base.
pub open spec fn mem_of(s: Seq<char>) -> Option<(int, u32)> {
    match spec_memory_operand(s) {
        Some((off, base)) => match reg_of(base) {
            Some(b) => if small_signed(off) { Some((off, b)) } else { None },
            None => None,
        },
        None => None,
    }
}

/// The instruction that a form and operand list decode to, if the operands fit.
pub open spec fn spec_decode(form: Form, ops: Seq<Seq<char>>) -> Option<InstView> {
    match form {
        Form::Reg { f7, f3 } => if ops.len() == 3 && reg_of(ops[0]) is Some && reg_of(ops[1]) is Some && reg_of(ops[2]) is Some {
            Some(InstView::Reg { f7, f3, rd: reg_of(ops[0])->0, rs1: reg_of(ops[1])->0, rs2: reg_of(ops[2])->0 })
        } else {
            None
        },
        Form::RegSwap { f7, f3 } => if ops.len() == 3 && reg_of(ops[0]) is Some && reg_of(ops[1]) is Some && reg_of(ops[2]) is Some {
            Some(InstView::Reg { f7, f3, rd: reg_of(ops[0])->0, rs1: reg_of(ops[2])->0, rs2: reg_of(ops[1])->0 })
        } else {
            None
        },
        Form::RegFromZero { f7, f3 } => if ops.len() == 2 && reg_of(ops[0]) is Some && reg_of(ops[1]) is Some {
            Some(InstView::Reg { f7, f3, rd: reg_of(ops[0])->0, rs1: 0, rs2: reg_of(ops[1])->0 })
        } else {
            None
        },
        Form::Imm { f3 } => if ops.len() == 3 && reg_of(ops[0]) is Some && reg_of(ops[1]) is Some && imm12_of(ops[2]) is Some {
            Some(InstView::Imm { f3, rd: reg_of(ops[0])->0, rs1: reg_of(ops[1])->0, imm: imm12_of(ops[2])->0 })
        } else {
            None
        },
        Form::ImmOne { f3 } => if ops.len() == 2 && reg_of(ops[0]) is Some && reg_of(ops[1]) is Some {
            Some(InstView::Imm { f3, rd: reg_of(ops[0])->0, rs1: reg_of(ops[1])->0, imm: 1 })
        } else {
            None
        },
        Form::Move => if ops.len() == 2 && reg_of(ops[0]) is Some && reg_of(ops[1]) is Some {
            Some(InstView::Imm { f3: 0, rd: reg_of(ops[0])->0, rs1: reg_of(ops[1])->0, imm: 0 })
        } else {
            None
        },
        Form::Shift { f3 } => if ops.len() == 3 && reg_of(ops[0]) is Some && reg_of(ops[1]) is Some
            && spec_parse_immediate(ops[2]) is Some && 0 <= spec_parse_immediate(ops[2])->0 < 64 {
            Some(InstView::Imm { f3, rd: reg_of(ops[0])->0, rs1: reg_of(ops[1])->0, imm: spec_parse_immediate(ops[2])->0 })
        } else {
            None
        },
        Form::Load { f3 } => if ops.len() == 2 && reg_of(ops[0]) is Some && mem_of(ops[1]) is Some {
            Some(InstView::Load { f3, rd: reg_of(ops[0])->0, rs1: (mem_of(ops[1])->0).1, imm: (mem_of(ops[1])->0).0 })
        } else {
            None
        },
        Form::Store { f3 } => if ops.len() == 2 && reg_of(ops[0]) is Some && mem_of(ops[1]) is Some {
            Some(InstView::Store { f3, rs1: (mem_of(ops[1])->0).1, rs2: reg_of(ops[0])->0, imm: (mem_of(ops[1])->0).0 })
        } else {
            None
        },
        Form::Branch { f3 } => if ops.len() == 3 && reg_of(ops[0]) is Some && reg_of(ops[1]) is Some && valid_symbol(ops[2]) {
            Some(InstView::Branch { f3, rs1: reg_of(ops[0])->0, rs2: reg_of(ops[1])->0, target: ops[2], mode: BranchSizeMode::Short })
        } else {
            None
        },
        Form::BranchSwap { f3 } => if ops.len() == 3 && reg_of(ops[0]) is Some && reg_of(ops[1]) is Some && valid_symbol(ops[2]) {
            Some(InstView::Branch { f3, rs1: reg_of(ops[1])->0, rs2: reg_of(ops[0])->0, target: ops[2], mode: BranchSizeMode::Short })
        } else {
            None
        },
        Form::BranchZero { f3 } => if ops.len() == 2 && reg_of(ops[0]) is Some && valid_symbol(ops[1]) {
            Some(InstView::Branch { f3, rs1: reg_of(ops[0])->0, rs2: 0, target: ops[1], mode: BranchSizeMode::Short })
        } else {
            None
        },
        Form::Jump { rd } => if ops.len() == 1 && valid_symbol(ops[0]) {
            Some(InstView::Jump { rd, target: ops[0] })
        } else {
            None
        },
        Form::Return => if ops.len() == 0 { Some(InstView::Ret) } else { None },
        Form::EnvCall => if ops.len() == 0 { Some(InstView::Ecall) } else { None },
        Form::LoadImm => if ops.len() == 2 && reg_of(ops[0]) is Some && spec_parse_immediate(ops[1]) is Some {
            Some(InstView::Li { rd: reg_of(ops[0])->0, value: spec_parse_immediate(ops[1])->0 })
        } else {
            None
        },
        Form::LoadAddr => if ops.len() == 2 && reg_of(ops[0]) is Some && valid_symbol(ops[1]) {
            Some(InstView::La { rd: reg_of(ops[0])->0, target: ops[1] })
        } else {
            None
        },
    }
}

fn reg_exec(s: &Vec<char>) -> (r: Option<u32>)
    ensures
        r == reg_of(s@),
        r matches Some(k) ==> k < 32,
{
    parse_register_chars(s.as_slice())
}

fn imm12_exec(s: &Vec<char>) -> (r: Option<i64>)
    ensures
        r matches Some(v) ==> imm12_of(s@) == Some(v as int),
        r is None ==> imm12_of(s@) is None,
{
    match parse_immediate_chars(s.as_slice()) {
        Some(v) => if -2048 <= v && v <= 2047 { Some(v as i64) } else { None },
        None => None,
    }
}

fn mem_exec(s: &Vec<char>) -> (r: Option<(i64, u32)>)
    ensures
        r matches Some((off, b)) ==> mem_of(s@) == Some((off as int, b)),
        r is None ==> mem_of(s@) is None,
{
    match memory_operand_chars(s.as_slice()) {
        Some((off, base)) => match parse_register_chars(base.as_slice()) {
            Some(b) => if -2048 <= off && off <= 2047 { Some((off as i64, b)) } else { None },
            None => None,
        },
        None => None,
    }
}

/// Decodes an operand list for a form.
pub fn decode_instruction(form: Form, ops: &Vec<Vec<char>>) -> (r: Option<Instruction>)
    ensures
        r matches Some(i) ==> spec_decode(form, ops@.map_values(|o: Vec<char>| o@)) == Some(i.view()),
        r is None ==> spec_decode(form, ops@.map_values(|o: Vec<char>| o@)) is None,
{
    let ghost v = ops@.map_values(|o: Vec<char>| o@);
    let n = ops.len();
    match form {
        Form::Reg { f7, f3 } | Form::RegSwap { f7, f3 } => {
            if n != 3 {
                return None;
            }
            let (a, b, c) = (reg_exec(&ops[0]), reg_exec(&ops[1]), reg_exec(&ops[2]));
            match (a, b, c) {
                (Some(rd), Some(x), Some(y)) => {
                    if let Form::Reg { .. } = form {
                        Some(Instruction::Reg { f7, f3, rd, rs1: x, rs2: y })
                    } else {
                        Some(Instruction::Reg { f7, f3, rd, rs1: y, rs2: x })
                    }
                },
                _ => None,
            }
        },
        Form::RegFromZero { f7, f3 } => {
            if n != 2 {
                return None;
            }
            match (reg_exec(&ops[0]), reg_exec(&ops[1])) {
                (Some(rd), Some(x)) => Some(Instruction::Reg { f7, f3, rd, rs1: 0, rs2: x }),
                _ => None,
            }
        },
        Form::Imm { f3 } => {
            if n != 3 {
                return None;
            }
            match (reg_exec(&ops[0]), reg_exec(&ops[1]), imm12_exec(&ops[2])) {
                (Some(rd), Some(x), Some(imm)) => Some(Instruction::Imm { f3, rd, rs1: x, imm }),
                _ => None,
            }
        },
        Form::ImmOne { f3 } => {
            if n != 2 {
                return None;
            }
            match (reg_exec(&ops[0]), reg_exec(&ops[1])) {
                (Some(rd), Some(x)) => Some(Instruction::Imm { f3, rd, rs1: x, imm: 1 }),
                _ => None,
            }
        },
        Form::Move => {
            if n != 2 {
                return None;
            }
            match (reg_exec(&ops[0]), reg_exec(&ops[1])) {
                (Some(rd), Some(x)) => Some(Instruction::Imm { f3: 0, rd, rs1: x, imm: 0 }),
                _ => None,
            }
        },
        Form::Shift { f3 } => {
            if n != 3 {
                return None;
            }
            match (reg_exec(&ops[0]), reg_exec(&ops[1]), parse_immediate_chars(ops[2].as_slice())) {
                (Some(rd), Some(x), Some(sh)) => if 0 <= sh && sh < 64 {
                    Some(Instruction::Imm { f3, rd, rs1: x, imm: sh as i64 })
                } else {
                    None
                },
                _ => None,
            }
        },
        Form::Load { f3 } => {
            if n != 2 {
                return None;
            }
            match (reg_exec(&ops[0]), mem_exec(&ops[1])) {
                (Some(rd), Some((off, base))) => Some(Instruction::Load { f3, rd, rs1: base, imm: off }),
                _ => None,
            }
        },
        Form::Store { f3 } => {
            if n != 2 {
                return None;
            }
            match (reg_exec(&ops[0]), mem_exec(&ops[1])) {
                (Some(src), Some((off, base))) => Some(Instruction::Store { f3, rs1: base, rs2: src, imm: off }),
                _ => None,
            }
        },
        Form::Branch { f3 } | Form::BranchSwap { f3 } => {
            if n != 3 {
                return None;
            }
            match (reg_exec(&ops[0]), reg_exec(&ops[1])) {
                (Some(x), Some(y)) => {
                    if !is_symbol(ops[2].as_slice()) {
                        return None;
                    }
                    let target = string_from_chars(ops[2].as_slice());
                    if let Form::Branch { .. } = form {
                        Some(Instruction::Branch { f3, rs1: x, rs2: y, target, mode: BranchSizeMode::Short })
                    } else {
                        Some(Instruction::Branch { f3, rs1: y, rs2: x, target, mode: BranchSizeMode::Short })
                    }
                },
                _ => None,
            }
        },
        Form::BranchZero { f3 } => {
            if n != 2 {
                return None;
            }
            match reg_exec(&ops[0]) {
                Some(x) => {
                    if !is_symbol(ops[1].as_slice()) {
                        return None;
                    }
                    let target = string_from_chars(ops[1].as_slice());
                    Some(Instruction::Branch { f3, rs1: x, rs2: 0, target, mode: BranchSizeMode::Short })
                },
                None => None,
            }
        },
        Form::Jump { rd } => {
            if n != 1 || !is_symbol(ops[0].as_slice()) {
                return None;
            }
            Some(Instruction::Jump { rd, target: string_from_chars(ops[0].as_slice()) })
        },
        Form::Return => if n == 0 { Some(Instruction::Ret) } else { None },
        Form::EnvCall => if n == 0 { Some(Instruction::Ecall) } else { None },
        Form::LoadImm => {
            if n != 2 {
                return None;
            }
            match (reg_exec(&ops[0]), parse_immediate_chars(ops[1].as_slice())) {
                (Some(rd), Some(value)) => Some(Instruction::Li { rd, value }),
                _ => None,
            }
        },
        Form::LoadAddr => {
            if n != 2 {
                return None;
            }
            match reg_exec(&ops[0]) {
                Some(rd) => {
                    if !is_symbol(ops[1].as_slice()) {
                        return None;
                    }
                    Some(Instruction::La { rd, target: string_from_chars(ops[1].as_slice()) })
                },
                None => None,
            }
        },
    }
}

// ---------------------------------------------------------------------------
// Well-formedness of decoded instructions
// ---------------------------------------------------------------------------

/// Funct3 values of the conditional branches.
pub open spec fn branch_f3_ok(f3: u32) -> bool {
    f3 == 0 || f3 == 1 || f3 == 4 || f3 == 5 || f3 == 6 || f3 == 7
}

/// The fields of an instruction fit their encodings.
pub open spec fn inst_ok(i: InstView) -> bool {
    match i {
        InstView::Reg { f7, f3, rd, rs1, rs2 } => f7 < 128 && f3 < 8 && rd < 32 && rs1 < 32 && rs2 < 32,
        InstView::Imm { f3, rd, rs1, imm } => f3 < 8 && rd < 32 && rs1 < 32 && small_signed(imm),
        InstView::Load { f3, rd, rs1, imm } => f3 < 8 && rd < 32 && rs1 < 32 && small_signed(imm),
        InstView::Store { f3, rs1, rs2, imm } => f3 < 8 && rs1 < 32 && rs2 < 32 && small_signed(imm),
        InstView::Branch { f3, rs1, rs2, .. } => branch_f3_ok(f3) && rs1 < 32 && rs2 < 32,
        InstView::Jump { rd, .. } => rd < 32,
        InstView::Li { rd, value } => rd < 32 && crate::assembler::syntax::imm_min() <= value
            <= crate::assembler::syntax::imm_max(),
        InstView::La { rd, .. } => rd < 32,
        _ => true,
    }
}

/// The fields of a form fit their encodings.
pub open spec fn form_ok(f: Form) -> bool {
    match f {
        Form::Reg { f7, f3 } => f7 < 128 && f3 < 8,
        Form::RegSwap { f7, f3 } => f7 < 128 && f3 < 8,
        Form::RegFromZero { f7, f3 } => f7 < 128 && f3 < 8,
        Form::Imm { f3 } => f3 < 8,
        Form::ImmOne { f3 } => f3 < 8,
        Form::Shift { f3 } => f3 < 8,
        Form::Load { f3 } => f3 < 8,
        Form::Store { f3 } => f3 < 8,
        Form::Branch { f3 } => branch_f3_ok(f3),
        Form::BranchSwap { f3 } => branch_f3_ok(f3),
        Form::BranchZero { f3 } => branch_f3_ok(f3),
        Form::Jump { rd } => rd < 32,
        _ => true,
    }
}

pub proof fn lemma_form_ok(mn: Seq<char>)
    ensures
        spec_form(mn) matches Some(f) ==> form_ok(f),
{
}

pub proof fn lemma_register_bound(s: Seq<char>)
    ensures
        spec_register(s) matches Some(k) ==> 0 <= k < 32,
{
}

/// Every decoded instruction of a supported form fits its encoding.
pub proof fn lemma_decode_ok(form: Form, ops: Seq<Seq<char>>)
    requires
        form_ok(form),
    ensures
        spec_decode(form, ops) matches Some(i) ==> inst_ok(i),
{
    if ops.len() >= 1 {
        lemma_register_bound(ops[0]);
    }
    if ops.len() >= 2 {
        lemma_register_bound(ops[1]);
        match spec_memory_operand(ops[1]) {
            Some((off, base)) => lemma_register_bound(base),
            None => {},
        }
    }
    if ops.len() >= 3 {
        lemma_register_bound(ops[2]);
    }
}


// ---------------------------------------------------------------------------
// What each mnemonic computes, against the ISA's encodings
// ---------------------------------------------------------------------------

/// A value reduced into a 64-bit register.
pub open spec fn wrap64(v: int) -> int {
    v % 0x1_0000_0000_0000_0000
}

/// A register value read as a two's-complement signed number.
pub open spec fn signed64(x: int) -> int {
    if x < 0x8000_0000_0000_0000 { x } else { x - 0x1_0000_0000_0000_0000 }
}

/// Division rounded toward zero.
pub open spec fn div_toward_zero(x: int, y: int) -> int {
    let q = (if x < 0 { -x } else { x }) / (if y < 0 { -y } else { y });
    if (x < 0) == (y < 0) { q } else { -q }
}

/// What an OP-opcode (`0x33`) instruction writes to `rd` for sources `a`
/// and `b`, by its funct7 and funct3, as the RV64IM ISA defines it.
pub open spec fn rv_op_result(f7: int, f3: int, a: u64, b: u64) -> Option<int> {
    let sa = signed64(a as int);
    let sb = signed64(b as int);
    if f7 == 0 && f3 == 0 {
        Some(wrap64(a + b))
    } else if f7 == 0x20 && f3 == 0 {
        Some(wrap64(a - b))
    } else if f7 == 0 && f3 == 2 {
        Some(if sa < sb { 1int } else { 0int })
    } else if f7 == 0 && f3 == 3 {
        Some(if a < b { 1int } else { 0int })
    } else if f7 == 0 && f3 == 4 {
        Some((a ^ b) as int)
    } else if f7 == 0 && f3 == 6 {
        Some((a | b) as int)
    } else if f7 == 0 && f3 == 7 {
        Some((a & b) as int)
    } else if f7 == 1 && f3 == 0 {
        Some(wrap64(a * b))
    } else if f7 == 1 && f3 == 4 {
        Some(if b == 0 { wrap64(-1) } else { wrap64(div_toward_zero(sa, sb)) })
    } else if f7 == 1 && f3 == 5 {
        Some(if b == 0 { wrap64(-1) } else { a as int / b as int })
    } else if f7 == 1 && f3 == 6 {
        Some(if b == 0 { a as int } else { wrap64(sa - sb * div_toward_zero(sa, sb)) })
    } else if f7 == 1 && f3 == 7 {
        Some(if b == 0 { a as int } else { a as int % b as int })
    } else {
        None
    }
}

/// What `mn rd, x, y` (or `mn rd, x` for one source) must leave in `rd`,
/// by the meaning of the mnemonic.
pub open spec fn mnemonic_result(mn: Seq<char>, x: u64, y: u64) -> int {
    let sx = signed64(x as int);
    let sy = signed64(y as int);
    if mn == "add"@ { wrap64(x + y) }
    else if mn == "sub"@ { wrap64(x - y) }
    else if mn == "and"@ { (x & y) as int }
    else if mn == "or"@ { (x | y) as int }
    else if mn == "xor"@ { (x ^ y) as int }
    else if mn == "slt"@ { if sx < sy { 1 } else { 0 } }
    else if mn == "sltu"@ { if x < y { 1 } else { 0 } }
    else if mn == "mul"@ { wrap64(x * y) }
    else if mn == "div"@ { if y == 0 { wrap64(-1) } else { wrap64(div_toward_zero(sx, sy)) } }
    else if mn == "divu"@ { if y == 0 { wrap64(-1) } else { x as int / y as int } }
    else if mn == "rem"@ { if y == 0 { x as int } else { wrap64(sx - sy * div_toward_zero(sx, sy)) } }
    else if mn == "remu"@ { if y == 0 { x as int } else { x as int % y as int } }
    else if mn == "sgt"@ { if sy < sx { 1 } else { 0 } }
    else if mn == "sgtu"@ { if y < x { 1 } else { 0 } }
    else if mn == "neg"@ { wrap64(0 - x) }
    else if mn == "snez"@ { if x != 0 { 1 } else { 0 } }
    else { 0 }
}

/// Whether a BRANCH-opcode (`0x63`) instruction with this funct3 is taken
/// for sources `a` and `b`, as the ISA defines it.
pub open spec fn rv_branch_taken(f3: int, a: u64, b: u64) -> Option<bool> {
    if f3 == 0 { Some(a == b) }
    else if f3 == 1 { Some(a != b) }
    else if f3 == 4 { Some(signed64(a as int) < signed64(b as int)) }
    else if f3 == 5 { Some(signed64(a as int) >= signed64(b as int)) }
    else if f3 == 6 { Some(a < b) }
    else if f3 == 7 { Some(a >= b) }
    else { None }
}

/// Whether `mn x, y, label` (or `mn x, label`) must branch.
pub open spec fn mnemonic_branches(mn: Seq<char>, x: u64, y: u64) -> bool {
    if mn == "beq"@ { x == y }
    else if mn == "bne"@ { x != y }
    else if mn == "blt"@ { signed64(x as int) < signed64(y as int) }
    else if mn == "bge"@ { signed64(x as int) >= signed64(y as int) }
    else if mn == "bltu"@ { x < y }
    else if mn == "bgeu"@ { x >= y }
    else if mn == "bgt"@ { signed64(y as int) < signed64(x as int) }
    else if mn == "beqz"@ { x == 0 }
    else if mn == "bnez"@ { x != 0 }
    else if mn == "bgez"@ { signed64(x as int) >= 0 }
    else { false }
}

/// The bytes a LOAD or STORE with this funct3 moves, as the ISA defines it.
pub open spec fn rv_access_bytes(f3: int) -> int {
    if f3 % 4 == 0 { 1 } else if f3 % 4 == 1 { 2 } else if f3 % 4 == 2 { 4 } else { 8 }
}

/// The bytes a load or store mnemonic moves.
pub open spec fn mnemonic_access_bytes(mn: Seq<char>) -> int {
    if mn == "lbu"@ || mn == "sb"@ { 1 }
    else if mn == "sh"@ { 2 }
    else if mn == "sw"@ { 4 }
    else { 8 }
}

/// Every register-to-register mnemonic the assembler accepts is encoded
/// with the funct7/funct3 of an R-type instruction that computes what the
/// mnemonic means, sources swapped or taken from `zero` as its form says;
/// every branch mnemonic with the funct3 of a branch taken exactly when
/// the mnemonic says; every load with funct3 bit 2 set (zero-extending)
/// and the access width the mnemonic names.
pub proof fn lemma_forms_compute_their_mnemonics(mn: Seq<char>, x: u64, y: u64)
    ensures
        spec_form(mn) matches Some(Form::Reg { f7, f3 }) ==> rv_op_result(f7 as int, f3 as int, x, y) == Some(mnemonic_result(mn, x, y)),
        spec_form(mn) matches Some(Form::RegSwap { f7, f3 }) ==> rv_op_result(f7 as int, f3 as int, y, x) == Some(mnemonic_result(mn, x, y)),
        spec_form(mn) matches Some(Form::RegFromZero { f7, f3 }) ==> rv_op_result(f7 as int, f3 as int, 0, x) == Some(mnemonic_result(mn, x, y)),
        spec_form(mn) matches Some(Form::Branch { f3 }) ==> rv_branch_taken(f3 as int, x, y) == Some(mnemonic_branches(mn, x, y)),
        spec_form(mn) matches Some(Form::BranchSwap { f3 }) ==> rv_branch_taken(f3 as int, y, x) == Some(mnemonic_branches(mn, x, y)),
        spec_form(mn) matches Some(Form::BranchZero { f3 }) ==> rv_branch_taken(f3 as int, x, 0) == Some(mnemonic_branches(mn, x, y)),
        spec_form(mn) matches Some(Form::Load { f3 }) ==> f3 >= 3 && rv_access_bytes(f3 as int) == mnemonic_access_bytes(mn) && (f3 == 4 <==> mn == "lbu"@),
        spec_form(mn) matches Some(Form::Store { f3 }) ==> f3 < 4 && rv_access_bytes(f3 as int) == mnemonic_access_bytes(mn),
        spec_form(mn) matches Some(Form::Jump { rd }) ==> (rd == 1 <==> mn == "call"@) && (rd == 0 <==> mn == "j"@),
{
    reveal_strlit("j");
    reveal_strlit("call");
    if spec_form(mn) is Some && spec_form(mn)->0 is Jump {
        assert(mn == "j"@ || mn == "call"@);
        assert("j"@ != "call"@) by {
            assert("j"@.len() != "call"@.len());
        }
    }
    reveal_strlit("ld");
    reveal_strlit("lbu");
    reveal_strlit("sb");
    reveal_strlit("sh");
    reveal_strlit("sw");
    reveal_strlit("sd");
    if spec_form(mn) is Some && spec_form(mn)->0 is Load {
        assert(mn == "ld"@ || mn == "lbu"@);
        assert("ld"@ != "lbu"@) by {
            assert("ld"@.len() != "lbu"@.len());
        }
        assert("ld"@ != "sb"@) by {
            assert("ld"@[0] != "sb"@[0]);
        }
        if mn == "ld"@ {
            assert(mnemonic_access_bytes(mn) == 8);
            assert(rv_access_bytes(3) == 8);
        } else {
            assert(mnemonic_access_bytes(mn) == 1);
            assert(rv_access_bytes(4) == 1);
        }
    }
}


/// What an OP-IMM-opcode (`0x13`) instruction writes to `rd` for source `a`
/// and immediate `imm`, by its funct3, as the RV64IM ISA defines it; the
/// immediate is sign-extended, a shift takes its low six bits.
pub open spec fn rv_op_imm_result(f3: int, a: u64, imm: int) -> Option<int> {
    let i = wrap64(imm) as u64;
    if f3 == 0 {
        Some(wrap64(a + imm))
    } else if f3 == 1 {
        Some((a << ((imm % 64) as u64)) as int)
    } else if f3 == 2 {
        Some(if signed64(a as int) < imm { 1int } else { 0int })
    } else if f3 == 3 {
        Some(if (a as int) < (i as int) { 1int } else { 0int })
    } else if f3 == 4 {
        Some((a ^ i) as int)
    } else if f3 == 5 {
        Some((a >> ((imm % 64) as u64)) as int)
    } else if f3 == 6 {
        Some((a | i) as int)
    } else if f3 == 7 {
        Some((a & i) as int)
    } else {
        None
    }
}

/// What `mn rd, x, imm` (or `mn rd, x` with no immediate) must leave in `rd`.
pub open spec fn mnemonic_imm_result(mn: Seq<char>, x: u64, imm: int) -> int {
    let i = wrap64(imm) as u64;
    if mn == "addi"@ { wrap64(x + imm) }
    else if mn == "andi"@ { (x & i) as int }
    else if mn == "xori"@ { (x ^ i) as int }
    else if mn == "seqz"@ { if x == 0 { 1 } else { 0 } }
    else if mn == "mv"@ { x as int }
    else if mn == "slli"@ { (x << (imm as u64)) as int }
    else if mn == "srli"@ { (x >> (imm as u64)) as int }
    else { 0 }
}

/// Every register-immediate mnemonic the assembler accepts is encoded with
/// the funct3 of an OP-IMM instruction that computes what the mnemonic
/// means: `seqz` as `sltiu` against 1, `mv` as `addi` of 0, shifts by a
/// distance below 64.
pub proof fn lemma_imm_forms_compute_their_mnemonics(mn: Seq<char>, x: u64, imm: int)
    ensures
        spec_form(mn) matches Some(Form::Imm { f3 }) ==> rv_op_imm_result(f3 as int, x, imm) == Some(mnemonic_imm_result(mn, x, imm)),
        spec_form(mn) matches Some(Form::ImmOne { f3 }) ==> rv_op_imm_result(f3 as int, x, 1) == Some(mnemonic_imm_result(mn, x, imm)),
        spec_form(mn) matches Some(Form::Move) ==> rv_op_imm_result(0, x, 0) == Some(mnemonic_imm_result(mn, x, imm)),
        0 <= imm < 64 ==> (spec_form(mn) matches Some(Form::Shift { f3 }) ==> rv_op_imm_result(f3 as int, x, imm) == Some(
            mnemonic_imm_result(mn, x, imm),
        )),
{
    if spec_form(mn) matches Some(Form::ImmOne { f3 }) {
        assert(wrap64(1) == 1);
        assert((wrap64(1) as u64) as int == 1);
    }
    if spec_form(mn) is Some && spec_form(mn)->0 is Move {
        assert(wrap64(x + 0) == x);
    }
    if spec_form(mn) is Some && spec_form(mn)->0 is Shift && 0 <= imm < 64 {
        assert(imm % 64 == imm);
    }
}

} // verus!
