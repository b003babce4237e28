//! Passing arguments under the call ABI: spilling incoming arguments,
//! staging outgoing stack arguments, and loading scalar and pointer
//! arguments into their registers; and tracking the highest variable id a
//! body uses.

use vstd::prelude::*;
use crate::codegen::generator::{stack_access_lines, CodeGenerator};
use crate::codegen::lines::{li_body, mk_li, spec_emit_lines};
use crate::codegen::operands::{operand_load_lines, operand_pool_after};
use crate::codegen::pointers::lookup;
use crate::ir::{IrInstruction, IrOperand, IrTerminator, IrVar};
use crate::text::{dec_int, dec_nat, push_decimal_i128, push_decimal_u128, string_push_str};

verus! {

broadcast use vstd::std_specs::hash::group_hash_axioms;

/// The register of argument `i`: `a0` to `a7`, then `t0`.
pub open spec fn abi_register(i: nat) -> Seq<char> {
    if i < 8 { "a"@ + dec_nat(i) } else { "t0"@ }
}

/// Spilling incoming argument `i` to the stack slot at `offset`; arguments
/// past the eighth are first loaded from the caller's stack.
pub open spec fn spill_lines(i: nat, offset: int) -> Seq<Seq<char>> {
    if i < 8 {
        stack_access_lines("sd"@, "a"@ + dec_nat(i), offset)
    } else {
        let caller = (i - 8) * 8;
        spec_emit_lines("# cellscript abi: arg"@ + dec_nat(i) + " loaded from caller stack +"@ + dec_int(caller))
            + spec_emit_lines("ld t0, "@ + dec_int(caller) + "(fp)"@) + stack_access_lines("sd"@, "t0"@, offset)
    }
}

/// Staging outgoing argument `i` from `reg` into the stack argument area of
/// `area` bytes below the pre-call `sp`; nothing for register arguments.
pub open spec fn outgoing_store_lines(reg: Seq<char>, i: nat, area: int) -> Seq<Seq<char>> {
    if i < 8 {
        Seq::empty()
    } else {
        let offset = (i - 8) * 8 - area;
        spec_emit_lines("# cellscript abi: stage outgoing stack arg"@ + dec_nat(i) + " at pre-call sp"@ + (if offset < 0 {
            ""@
        } else {
            "+"@
        }) + dec_int(offset)) + stack_access_lines("sd"@, reg, offset)
    }
}

/// Which length word a call passes for a pointer argument.
#[derive(Debug, Clone, Copy, PartialEq, Eq)]
pub enum CallLengthKind {
    /// The size word of a schema value's cell buffer.
    Schema,
    /// The length word of a fixed-byte parameter.
    FixedBytes,
}

/// Every offset a map holds can address the stack.
pub open spec fn offsets_fit(m: Map<usize, usize>) -> bool {
    forall|id: usize| #[trigger] m.contains_key(id) ==> m[id] <= i64::MAX
}

/// The stack offset of the length word a call passes for `arg`, if tracked.
pub open spec fn length_arg_offset(g: CodeGenerator, arg: IrOperand, kind: CallLengthKind) -> Option<usize> {
    match arg {
        IrOperand::Var(v) => match kind {
            CallLengthKind::Schema => lookup(g.schema_pointer_size_offsets@, v.id),
            CallLengthKind::FixedBytes => lookup(g.fixed_byte_param_size_offsets@, v.id),
        },
        IrOperand::Const(_) => None,
    }
}

/// The comment before the zero length passed when no length word is tracked.
pub open spec fn untracked_length_comment(func: Seq<char>, label: Seq<char>, arg: IrOperand, kind: CallLengthKind) -> Seq<char> {
    match kind {
        CallLengthKind::FixedBytes => if arg is Const {
            "# cellscript abi: call "@ + func + " fixed-byte const param "@ + label
                + " has no materialized pointer; pass zero length to fail closed"@
        } else {
            "# cellscript abi: call "@ + func + " fixed-byte param "@ + label
                + " has no tracked ABI length; pass zero length to fail closed"@
        },
        CallLengthKind::Schema => "# cellscript abi: call "@ + func + " schema param "@ + label
            + " has no tracked ABI length; pass zero length to fail closed"@,
    }
}

/// Loading a length argument into the register of argument `i`: the tracked
/// length word, or zero after a comment.
pub open spec fn length_arg_lines(g: CodeGenerator, func: Seq<char>, label: Seq<char>, i: nat, arg: IrOperand, kind: CallLengthKind) -> Seq<Seq<char>> {
    match length_arg_offset(g, arg, kind) {
        Some(o) => stack_access_lines("ld"@, abi_register(i), o as int),
        None => spec_emit_lines(untracked_length_comment(func, label, arg, kind)) + spec_emit_lines(li_body(abi_register(i), 0)),
    }
}

/// Loading a schema parameter's type-hash pointer (or length) into the
/// register of argument `i`: the tracked stack word, or zero after a comment.
pub open spec fn type_hash_arg_lines(
    m: Map<usize, usize>,
    func: Seq<char>,
    label: Seq<char>,
    i: nat,
    arg: IrOperand,
    untracked: Seq<char>,
    not_var: Seq<char>,
) -> Seq<Seq<char>> {
    match arg {
        IrOperand::Var(v) => match lookup(m, v.id) {
            Some(o) => stack_access_lines("ld"@, abi_register(i), o as int),
            None => spec_emit_lines("# cellscript abi: call "@ + func + " schema param "@ + label + untracked)
                + spec_emit_lines(li_body(abi_register(i), 0)),
        },
        IrOperand::Const(_) => spec_emit_lines("# cellscript abi: call "@ + func + " schema param "@ + label + not_var)
            + spec_emit_lines(li_body(abi_register(i), 0)),
    }
}

/// The largest of an optional maximum and an id.
pub open spec fn max_with(m: Option<usize>, id: usize) -> Option<usize> {
    match m {
        Some(c) => Some(if c >= id { c } else { id }),
        None => Some(id),
    }
}

/// The largest variable id seen, after an operand.
pub open spec fn max_after_operand(m: Option<usize>, operand: IrOperand) -> Option<usize> {
    match operand {
        IrOperand::Var(v) => max_with(m, v.id),
        IrOperand::Const(_) => m,
    }
}

/// The largest variable id seen, after a terminator.
pub open spec fn max_after_terminator(m: Option<usize>, t: IrTerminator) -> Option<usize> {
    match t {
        IrTerminator::Return(Some(op)) => max_after_operand(m, op),
        IrTerminator::Branch { cond, .. } => max_after_operand(m, cond),
        _ => m,
    }
}

/// The variable an operand reads, if any.
pub open spec fn operand_ids(op: IrOperand) -> Seq<usize> {
    match op {
        IrOperand::Var(v) => seq![v.id],
        IrOperand::Const(_) => Seq::empty(),
    }
}

/// The variables the operands read, in order.
pub open spec fn operands_ids(ops: Seq<IrOperand>) -> Seq<usize>
    decreases ops.len(),
{
    if ops.len() == 0 {
        Seq::empty()
    } else {
        operands_ids(ops.drop_last()) + operand_ids(ops.last())
    }
}

/// The variable ids an instruction contributes to a body's highest id: its
/// destination, then the operands it reads; field, index, length, type-hash,
/// read-ref and create instructions contribute their destination only.
pub open spec fn instruction_ids(inst: IrInstruction) -> Seq<usize> {
    match inst {
        IrInstruction::LoadConst { dest, .. } => seq![dest.id],
        IrInstruction::LoadVar { dest, .. } => seq![dest.id],
        IrInstruction::Unary { dest, .. } => seq![dest.id],
        IrInstruction::FieldAccess { dest, .. } => seq![dest.id],
        IrInstruction::Index { dest, .. } => seq![dest.id],
        IrInstruction::Length { dest, .. } => seq![dest.id],
        IrInstruction::TypeHash { dest, .. } => seq![dest.id],
        IrInstruction::Create { dest, .. } => seq![dest.id],
        IrInstruction::CreateUnique { dest, .. } => seq![dest.id],
        IrInstruction::ReadRef { dest, .. } => seq![dest.id],
        IrInstruction::CollectionNew { dest, capacity, .. } => seq![dest.id] + (match capacity {
            Some(c) => operand_ids(c),
            None => Seq::empty(),
        }),
        IrInstruction::Move { dest, src } => seq![dest.id] + operand_ids(src),
        IrInstruction::Cast { dest, src } => seq![dest.id] + operand_ids(src),
        IrInstruction::Tuple { dest, fields } => seq![dest.id] + operands_ids(fields@),
        IrInstruction::Binary { dest, left, right, .. } => seq![dest.id] + operand_ids(left) + operand_ids(right),
        IrInstruction::StoreVar { src, .. } => operand_ids(src),
        IrInstruction::Call { dest, args, .. } => (match dest {
            Some(d) => seq![d.id],
            None => Seq::empty(),
        }) + operands_ids(args@),
        IrInstruction::Consume { operand } => operand_ids(operand),
        IrInstruction::Destroy { operand, .. } => operand_ids(operand),
        IrInstruction::Transfer { dest, operand, to } => seq![dest.id] + operand_ids(operand) + operand_ids(to),
        IrInstruction::Claim { dest, receipt } => seq![dest.id] + operand_ids(receipt),
        IrInstruction::Settle { dest, operand } => seq![dest.id] + operand_ids(operand),
        IrInstruction::ReplaceUnique { dest, operand, .. } => seq![dest.id] + operand_ids(operand),
        IrInstruction::CellMetadataEquality { left, right, .. } => operand_ids(left) + operand_ids(right),
        IrInstruction::CollectionPush { collection, value } => operand_ids(collection) + operand_ids(value),
        IrInstruction::CollectionCapacity { dest, collection } => seq![dest.id] + operand_ids(collection),
        IrInstruction::CollectionExtend { collection, slice } => operand_ids(collection) + operand_ids(slice),
        IrInstruction::CollectionClear { collection } => operand_ids(collection),
        IrInstruction::CollectionReverse { collection } => operand_ids(collection),
        IrInstruction::CollectionTruncate { collection, len } => operand_ids(collection) + operand_ids(len),
        IrInstruction::CollectionSwap { collection, left, right } => operand_ids(collection) + operand_ids(left) + operand_ids(right),
        IrInstruction::CollectionContains { dest, collection, value } => seq![dest.id] + operand_ids(collection) + operand_ids(value),
        IrInstruction::CollectionRemove { dest, collection, index } => seq![dest.id] + operand_ids(collection) + operand_ids(index),
        IrInstruction::CollectionInsert { collection, index, value } => operand_ids(collection) + operand_ids(index) + operand_ids(value),
        IrInstruction::CollectionSet { collection, index, value } => operand_ids(collection) + operand_ids(index) + operand_ids(value),
        IrInstruction::CollectionPop { dest, collection } => seq![dest.id] + operand_ids(collection),
    }
}

/// The highest id among `m` and the ids.
pub open spec fn max_over(m: Option<usize>, ids: Seq<usize>) -> Option<usize>
    decreases ids.len(),
{
    if ids.len() == 0 {
        m
    } else {
        max_with(max_over(m, ids.drop_last()), ids.last())
    }
}

/// Taking the highest id over two runs of ids is taking it over both in turn.
pub proof fn lemma_max_over_concat(m: Option<usize>, a: Seq<usize>, b: Seq<usize>)
    ensures
        max_over(m, a + b) == max_over(max_over(m, a), b),
    decreases b.len(),
{
    if b.len() == 0 {
        assert(a + b =~= a);
    } else {
        assert((a + b).drop_last() =~= a + b.drop_last());
        lemma_max_over_concat(m, a, b.drop_last());
    }
}

/// Operand loads need their stack slot within reach.
pub open spec fn operand_slot_fits(operand: IrOperand) -> bool {
    operand is Var ==> operand->Var_0.id * 8 <= i64::MAX && operand->Var_0.id * 8 <= usize::MAX
}

impl CodeGenerator {
    /// Spills incoming argument `abi_index` to its stack slot.
    pub fn emit_spill_abi_arg(&mut self, abi_index: usize, stack_offset: usize)
        requires
            stack_offset <= i64::MAX,
            abi_index * 8 <= i64::MAX,
            abi_index * 8 <= usize::MAX,
        ensures
            final(self).text_appended(old(self), spill_lines(abi_index as nat, stack_offset as int)),
    {
        if abi_index < 8 {
            let mut reg = String::new();
            string_push_str(&mut reg, "a");
            push_decimal_u128(&mut reg, abi_index as u128);
            self.emit_stack_store(reg.as_str(), stack_offset);
        } else {
            let caller_stack_offset = (abi_index - 8) * 8;
            let mut comment = String::new();
            string_push_str(&mut comment, "# cellscript abi: arg");
            push_decimal_u128(&mut comment, abi_index as u128);
            string_push_str(&mut comment, " loaded from caller stack +");
            push_decimal_i128(&mut comment, caller_stack_offset as i128);
            self.emit(comment.as_str());
            let mut load = String::new();
            string_push_str(&mut load, "ld t0, ");
            push_decimal_i128(&mut load, caller_stack_offset as i128);
            string_push_str(&mut load, "(fp)");
            self.emit(load.as_str());
            self.emit_stack_store("t0", stack_offset);
        }
        assert(self.lines() =~= old(self).lines() + spill_lines(abi_index as nat, stack_offset as int));
    }

    /// Stores an outgoing argument past the eighth into the stack argument area.
    pub fn emit_outgoing_call_stack_arg_store(&mut self, register: &str, abi_index: usize, outgoing_stack_arg_bytes: usize)
        requires
            abi_index * 8 <= i64::MAX,
            abi_index * 8 <= usize::MAX,
            outgoing_stack_arg_bytes <= i64::MAX,
        ensures
            final(self).text_appended(
                old(self),
                outgoing_store_lines(register@, abi_index as nat, outgoing_stack_arg_bytes as int),
            ),
    {
        if abi_index < 8 {
            assert(self.lines() =~= old(self).lines() + Seq::<Seq<char>>::empty());
            return;
        }
        let stack_slot_offset = (abi_index - 8) * 8;
        let offset: i64 = stack_slot_offset as i64 - outgoing_stack_arg_bytes as i64;
        let mut comment = String::new();
        string_push_str(&mut comment, "# cellscript abi: stage outgoing stack arg");
        push_decimal_u128(&mut comment, abi_index as u128);
        string_push_str(&mut comment, " at pre-call sp");
        if offset >= 0 {
            string_push_str(&mut comment, "+");
        }
        push_decimal_i128(&mut comment, offset as i128);
        let ghost off = (abi_index - 8) * 8 - outgoing_stack_arg_bytes;
        assert(offset as int == off);
        proof {
            reveal_strlit("");
        }
        assert(comment@ =~= "# cellscript abi: stage outgoing stack arg"@ + dec_nat(abi_index as nat) + " at pre-call sp"@ + (if off < 0 {
            ""@
        } else {
            "+"@
        }) + dec_int(off));
        self.emit(comment.as_str());
        self.emit_sp_store_signed(register, offset);
        assert(self.lines() =~= old(self).lines() + outgoing_store_lines(
            register@,
            abi_index as nat,
            outgoing_stack_arg_bytes as int,
        ));
    }

    /// Loads a scalar call argument into its ABI register, staging it on the
    /// stack when it is past the eighth, and moves to the next argument.
    pub fn emit_call_scalar_arg(
        &mut self,
        func: &str,
        label: &str,
        abi_index: &mut usize,
        arg: &IrOperand,
        outgoing_stack_arg_bytes: usize,
    ) -> (r: bool)
        requires
            *old(abi_index) * 8 <= i64::MAX,
            *old(abi_index) * 8 <= usize::MAX,
            outgoing_stack_arg_bytes <= i64::MAX,
            operand_slot_fits(*arg),
        ensures
            r,
            *final(abi_index) == *old(abi_index) + 1,
            final(self).lines() == old(self).lines() + spec_emit_lines(
                "# cellscript abi: call "@ + func@ + " scalar "@ + label@ + " -> "@ + abi_register(*old(abi_index) as nat),
            ) + operand_load_lines(abi_register(*old(abi_index) as nat), *arg, old(self).pool())
                + outgoing_store_lines(abi_register(*old(abi_index) as nat), *old(abi_index) as nat, outgoing_stack_arg_bytes as int),
            final(self).pool() == operand_pool_after(*arg, old(self).pool()),
            final(self).same_state(old(self)),
            final(self).next_runtime_label == old(self).next_runtime_label,
    {
        let register = self.call_abi_register(*abi_index);
        let mut comment = String::new();
        string_push_str(&mut comment, "# cellscript abi: call ");
        string_push_str(&mut comment, func);
        string_push_str(&mut comment, " scalar ");
        string_push_str(&mut comment, label);
        string_push_str(&mut comment, " -> ");
        string_push_str(&mut comment, register.as_str());
        let ghost start = self.lines();
        self.emit(comment.as_str());
        let ghost mid = self.lines();
        self.emit_operand_to_register(register.as_str(), arg);
        let ghost mid2 = self.lines();
        self.emit_outgoing_call_stack_arg_store(register.as_str(), *abi_index, outgoing_stack_arg_bytes);
        *abi_index = *abi_index + 1;
        assert(self.lines() =~= start + spec_emit_lines(
            "# cellscript abi: call "@ + func@ + " scalar "@ + label@ + " -> "@ + abi_register(*old(abi_index) as nat),
        ) + operand_load_lines(abi_register(*old(abi_index) as nat), *arg, old(self).pool())
            + outgoing_store_lines(abi_register(*old(abi_index) as nat), *old(abi_index) as nat, outgoing_stack_arg_bytes as int));
        true
    }

    /// Loads a pointer call argument into its ABI register: a constant where
    /// a fixed-width pointer is expected is not addressable, so a null
    /// pointer is passed instead. Stages it past the eighth argument and
    /// moves to the next argument.
    pub fn emit_call_pointer_arg(
        &mut self,
        func: &str,
        label: &str,
        abi_index: &mut usize,
        arg: &IrOperand,
        const_width: Option<usize>,
        outgoing_stack_arg_bytes: usize,
    ) -> (r: bool)
        requires
            *old(abi_index) * 8 <= i64::MAX,
            *old(abi_index) * 8 <= usize::MAX,
            outgoing_stack_arg_bytes <= i64::MAX,
            operand_slot_fits(*arg),
        ensures
            r,
            *final(abi_index) == *old(abi_index) + 1,
            final(self).lines() == old(self).lines() + (if const_width is Some && *arg is Const {
                spec_emit_lines(
                    "# cellscript abi: call "@ + func@ + " pointer param "@ + label@
                        + " uses a constant unsupported by the call ABI; pass null pointer"@,
                ) + spec_emit_lines(li_body(abi_register(*old(abi_index) as nat), 0))
            } else {
                operand_load_lines(abi_register(*old(abi_index) as nat), *arg, old(self).pool())
            }) + outgoing_store_lines(abi_register(*old(abi_index) as nat), *old(abi_index) as nat, outgoing_stack_arg_bytes as int),
            final(self).pool() == (if const_width is Some && *arg is Const {
                old(self).pool()
            } else {
                operand_pool_after(*arg, old(self).pool())
            }),
            final(self).same_state(old(self)),
            final(self).next_runtime_label == old(self).next_runtime_label,
    {
        let register = self.call_abi_register(*abi_index);
        let ghost start = self.lines();
        let is_const = match arg {
            IrOperand::Const(_) => true,
            IrOperand::Var(_) => false,
        };
        if const_width.is_some() && is_const {
            let mut comment = String::new();
            string_push_str(&mut comment, "# cellscript abi: call ");
            string_push_str(&mut comment, func);
            string_push_str(&mut comment, " pointer param ");
            string_push_str(&mut comment, label);
            string_push_str(&mut comment, " uses a constant unsupported by the call ABI; pass null pointer");
            self.emit(comment.as_str());
            self.emit(mk_li(register.as_str(), 0).as_str());
        } else {
            self.emit_operand_to_register(register.as_str(), arg);
        }
        self.emit_outgoing_call_stack_arg_store(register.as_str(), *abi_index, outgoing_stack_arg_bytes);
        *abi_index = *abi_index + 1;
        assert(self.lines() =~= start + (if const_width is Some && *arg is Const {
            spec_emit_lines(
                "# cellscript abi: call "@ + func@ + " pointer param "@ + label@
                    + " uses a constant unsupported by the call ABI; pass null pointer"@,
            ) + spec_emit_lines(li_body(abi_register(*old(abi_index) as nat), 0))
        } else {
            operand_load_lines(abi_register(*old(abi_index) as nat), *arg, old(self).pool())
        }) + outgoing_store_lines(abi_register(*old(abi_index) as nat), *old(abi_index) as nat, outgoing_stack_arg_bytes as int));
        true
    }

    /// Raises the recorded maximum to the variable's id.
    pub fn record_var(&self, var: &IrVar, max_var_id: &mut Option<usize>)
        ensures
            *final(max_var_id) == max_with(*old(max_var_id), var.id),
    {
        *max_var_id = match *max_var_id {
            Some(current) => Some(if current >= var.id { current } else { var.id }),
            None => Some(var.id),
        };
    }

    /// Records the variable an operand reads, if any.
    pub fn record_operand(&self, operand: &IrOperand, max_var_id: &mut Option<usize>)
        ensures
            *final(max_var_id) == max_after_operand(*old(max_var_id), *operand),
    {
        if let IrOperand::Var(var) = operand {
            self.record_var(var, max_var_id);
        }
    }

    /// Records the variable a terminator reads, if any.
    pub fn record_terminator_var(&self, terminator: &IrTerminator, max_var_id: &mut Option<usize>)
        ensures
            *final(max_var_id) == max_after_terminator(*old(max_var_id), *terminator),
    {
        match terminator {
            IrTerminator::Return(Some(operand)) => self.record_operand(operand, max_var_id),
            IrTerminator::Branch { cond, .. } => self.record_operand(cond, max_var_id),
            IrTerminator::Return(None) | IrTerminator::Jump(_) => {},
        }
    }

    /// Records every variable the operands read.
    fn record_operands(&self, ops: &Vec<IrOperand>, max_var_id: &mut Option<usize>)
        ensures
            *final(max_var_id) == max_over(*old(max_var_id), operands_ids(ops@)),
    {
        let mut i: usize = 0;
        assert(ops@.subrange(0, 0) =~= Seq::<IrOperand>::empty());
        while i < ops.len()
            invariant
                i <= ops@.len(),
                *max_var_id == max_over(*old(max_var_id), operands_ids(ops@.subrange(0, i as int))),
            decreases ops@.len() - i,
        {
            let ghost before = *max_var_id;
            self.record_operand(&ops[i], max_var_id);
            proof {
                assert(ops@.subrange(0, i + 1).drop_last() =~= ops@.subrange(0, i as int));
                lemma_max_over_concat(*old(max_var_id), operands_ids(ops@.subrange(0, i as int)), operand_ids(ops@[i as int]));
                reveal_with_fuel(max_over, 2);
            }
            i = i + 1;
        }
        assert(ops@.subrange(0, ops@.len() as int) =~= ops@);
    }

    /// Raises the recorded maximum to the ids an instruction contributes.
    pub fn record_instruction_var(&self, instruction: &IrInstruction, max_var_id: &mut Option<usize>)
        ensures
            *final(max_var_id) == max_over(*old(max_var_id), instruction_ids(*instruction)),
    {
        let ghost m0 = *max_var_id;
        proof {
            reveal_with_fuel(max_over, 4);
        }
        match instruction {
            IrInstruction::LoadConst { dest, .. }
            | IrInstruction::LoadVar { dest, .. }
            | IrInstruction::Unary { dest, .. }
            | IrInstruction::FieldAccess { dest, .. }
            | IrInstruction::Index { dest, .. }
            | IrInstruction::Length { dest, .. }
            | IrInstruction::TypeHash { dest, .. }
            | IrInstruction::Create { dest, .. }
            | IrInstruction::CreateUnique { dest, .. }
            | IrInstruction::ReadRef { dest, .. } => self.record_var(dest, max_var_id),
            IrInstruction::CollectionNew { dest, capacity, .. } => {
                self.record_var(dest, max_var_id);
                if let Some(capacity) = capacity {
                    self.record_operand(capacity, max_var_id);
                }
            },
            IrInstruction::Move { dest, src } | IrInstruction::Cast { dest, src } => {
                self.record_var(dest, max_var_id);
                self.record_operand(src, max_var_id);
            },
            IrInstruction::Tuple { dest, fields } => {
                self.record_var(dest, max_var_id);
                self.record_operands(fields, max_var_id);
                proof {
                    lemma_max_over_concat(m0, seq![dest.id], operands_ids(fields@));
                }
            },
            IrInstruction::Binary { dest, left, right, .. } => {
                self.record_var(dest, max_var_id);
                self.record_operand(left, max_var_id);
                self.record_operand(right, max_var_id);
                proof {
                    lemma_max_over_concat(m0, seq![dest.id] + operand_ids(*left), operand_ids(*right));
                    lemma_max_over_concat(m0, seq![dest.id], operand_ids(*left));
                }
            },
            IrInstruction::StoreVar { src, .. } => self.record_operand(src, max_var_id),
            IrInstruction::Call { dest, args, .. } => {
                if let Some(dest) = dest {
                    self.record_var(dest, max_var_id);
                }
                self.record_operands(args, max_var_id);
                proof {
                    let head = match dest {
                        Some(d) => seq![d.id],
                        None => Seq::<usize>::empty(),
                    };
                    lemma_max_over_concat(m0, head, operands_ids(args@));
                }
            },
            IrInstruction::Consume { operand } | IrInstruction::Destroy { operand, policy: _ } => {
                self.record_operand(operand, max_var_id)
            },
            IrInstruction::Transfer { dest, operand, to } => {
                self.record_var(dest, max_var_id);
                self.record_operand(operand, max_var_id);
                self.record_operand(to, max_var_id);
                proof {
                    lemma_max_over_concat(m0, seq![dest.id] + operand_ids(*operand), operand_ids(*to));
                    lemma_max_over_concat(m0, seq![dest.id], operand_ids(*operand));
                }
            },
            IrInstruction::Claim { dest, receipt } => {
                self.record_var(dest, max_var_id);
                self.record_operand(receipt, max_var_id);
            },
            IrInstruction::Settle { dest, operand } => {
                self.record_var(dest, max_var_id);
                self.record_operand(operand, max_var_id)
            },
            IrInstruction::ReplaceUnique { dest, operand, .. } => {
                self.record_var(dest, max_var_id);
                self.record_operand(operand, max_var_id)
            },
            IrInstruction::CellMetadataEquality { left, right, .. } => {
                self.record_operand(left, max_var_id);
                self.record_operand(right, max_var_id);
                proof {
                    lemma_max_over_concat(m0, operand_ids(*left), operand_ids(*right));
                }
            },
            IrInstruction::CollectionPush { collection, value } => {
                self.record_operand(collection, max_var_id);
                self.record_operand(value, max_var_id);
                proof {
                    lemma_max_over_concat(m0, operand_ids(*collection), operand_ids(*value));
                }
            },
            IrInstruction::CollectionCapacity { dest, collection } => {
                self.record_var(dest, max_var_id);
                self.record_operand(collection, max_var_id);
            },
            IrInstruction::CollectionExtend { collection, slice } => {
                self.record_operand(collection, max_var_id);
                self.record_operand(slice, max_var_id);
                proof {
                    lemma_max_over_concat(m0, operand_ids(*collection), operand_ids(*slice));
                }
            },
            IrInstruction::CollectionClear { collection } => {
                self.record_operand(collection, max_var_id);
            },
            IrInstruction::CollectionReverse { collection } => {
                self.record_operand(collection, max_var_id);
            },
            IrInstruction::CollectionTruncate { collection, len } => {
                self.record_operand(collection, max_var_id);
                self.record_operand(len, max_var_id);
                proof {
                    lemma_max_over_concat(m0, operand_ids(*collection), operand_ids(*len));
                }
            },
            IrInstruction::CollectionSwap { collection, left, right } => {
                self.record_operand(collection, max_var_id);
                self.record_operand(left, max_var_id);
                self.record_operand(right, max_var_id);
                proof {
                    lemma_max_over_concat(m0, operand_ids(*collection) + operand_ids(*left), operand_ids(*right));
                    lemma_max_over_concat(m0, operand_ids(*collection), operand_ids(*left));
                }
            },
            IrInstruction::CollectionContains { dest, collection, value } => {
                self.record_var(dest, max_var_id);
                self.record_operand(collection, max_var_id);
                self.record_operand(value, max_var_id);
                proof {
                    lemma_max_over_concat(m0, seq![dest.id] + operand_ids(*collection), operand_ids(*value));
                    lemma_max_over_concat(m0, seq![dest.id], operand_ids(*collection));
                }
            },
            IrInstruction::CollectionRemove { dest, collection, index } => {
                self.record_var(dest, max_var_id);
                self.record_operand(collection, max_var_id);
                self.record_operand(index, max_var_id);
                proof {
                    lemma_max_over_concat(m0, seq![dest.id] + operand_ids(*collection), operand_ids(*index));
                    lemma_max_over_concat(m0, seq![dest.id], operand_ids(*collection));
                }
            },
            IrInstruction::CollectionInsert { collection, index, value } => {
                self.record_operand(collection, max_var_id);
                self.record_operand(index, max_var_id);
                self.record_operand(value, max_var_id);
                proof {
                    lemma_max_over_concat(m0, operand_ids(*collection) + operand_ids(*index), operand_ids(*value));
                    lemma_max_over_concat(m0, operand_ids(*collection), operand_ids(*index));
                }
            },
            IrInstruction::CollectionSet { collection, index, value } => {
                self.record_operand(collection, max_var_id);
                self.record_operand(index, max_var_id);
                self.record_operand(value, max_var_id);
                proof {
                    lemma_max_over_concat(m0, operand_ids(*collection) + operand_ids(*index), operand_ids(*value));
                    lemma_max_over_concat(m0, operand_ids(*collection), operand_ids(*index));
                }
            },
            IrInstruction::CollectionPop { dest, collection } => {
                self.record_var(dest, max_var_id);
                self.record_operand(collection, max_var_id);
            },
        }
    }
}

impl CodeGenerator {
    /// Emits `# cellscript abi: call <func> <kind> param <label><tail>`, then
    /// zero into `register`.
    fn emit_untracked_arg(&mut self, register: &str, func: &str, kind: &str, label: &str, tail: &str)
        ensures
            final(self).text_appended(
                old(self),
                spec_emit_lines("# cellscript abi: call "@ + func@ + kind@ + label@ + tail@) + spec_emit_lines(li_body(register@, 0)),
            ),
    {
        let ghost l0 = self.lines();
        let mut comment = String::new();
        string_push_str(&mut comment, "# cellscript abi: call ");
        string_push_str(&mut comment, func);
        string_push_str(&mut comment, kind);
        string_push_str(&mut comment, label);
        string_push_str(&mut comment, tail);
        self.emit(comment.as_str());
        self.emit(mk_li(register, 0).as_str());
        assert(self.lines() =~= l0 + (spec_emit_lines("# cellscript abi: call "@ + func@ + kind@ + label@ + tail@) + spec_emit_lines(
            li_body(register@, 0),
        )));
    }

    /// Loads the length word of a pointer argument into its ABI register,
    /// or zero when none is tracked so that the callee fails closed; stages
    /// it past the eighth argument and moves to the next argument.
    pub fn emit_call_length_arg(
        &mut self,
        func: &str,
        label: &str,
        abi_index: &mut usize,
        arg: &IrOperand,
        kind: CallLengthKind,
        outgoing_stack_arg_bytes: usize,
    ) -> (r: bool)
        requires
            *old(abi_index) * 8 <= i64::MAX,
            *old(abi_index) * 8 <= usize::MAX,
            outgoing_stack_arg_bytes <= i64::MAX,
            offsets_fit(old(self).schema_pointer_size_offsets@),
            offsets_fit(old(self).fixed_byte_param_size_offsets@),
        ensures
            r,
            *final(abi_index) == *old(abi_index) + 1,
            final(self).text_appended(
                old(self),
                length_arg_lines(*old(self), func@, label@, *old(abi_index) as nat, *arg, kind) + outgoing_store_lines(
                    abi_register(*old(abi_index) as nat),
                    *old(abi_index) as nat,
                    outgoing_stack_arg_bytes as int,
                ),
            ),
    {
        let ghost l0 = self.lines();
        let ghost g0 = *self;
        let register = self.call_abi_register(*abi_index);
        let size_offset = match arg {
            IrOperand::Var(var) => match kind {
                CallLengthKind::Schema => match self.schema_pointer_size_offsets.get(&var.id) {
                    Some(o) => Some(*o),
                    None => None,
                },
                CallLengthKind::FixedBytes => match self.fixed_byte_param_size_offsets.get(&var.id) {
                    Some(o) => Some(*o),
                    None => None,
                },
            },
            IrOperand::Const(_) => None,
        };
        assert(size_offset == length_arg_offset(g0, *arg, kind));
        match size_offset {
            Some(o) => {
                self.emit_stack_load(register.as_str(), o);
            },
            None => match kind {
                CallLengthKind::FixedBytes => {
                    let is_const = match arg {
                        IrOperand::Const(_) => true,
                        IrOperand::Var(_) => false,
                    };
                    if is_const {
                        self.emit_untracked_arg(
                            register.as_str(),
                            func,
                            " fixed-byte const param ",
                            label,
                            " has no materialized pointer; pass zero length to fail closed",
                        );
                    } else {
                        self.emit_untracked_arg(
                            register.as_str(),
                            func,
                            " fixed-byte param ",
                            label,
                            " has no tracked ABI length; pass zero length to fail closed",
                        );
                    }
                },
                CallLengthKind::Schema => {
                    self.emit_untracked_arg(
                        register.as_str(),
                        func,
                        " schema param ",
                        label,
                        " has no tracked ABI length; pass zero length to fail closed",
                    );
                },
            },
        }
        let ghost l1 = self.lines();
        self.emit_outgoing_call_stack_arg_store(register.as_str(), *abi_index, outgoing_stack_arg_bytes);
        *abi_index = *abi_index + 1;
        assert(l1 == l0 + length_arg_lines(g0, func@, label@, *old(abi_index) as nat, *arg, kind));
        proof {
            crate::codegen::lines::lemma_join2(
                l0,
                length_arg_lines(g0, func@, label@, *old(abi_index) as nat, *arg, kind),
                outgoing_store_lines(abi_register(*old(abi_index) as nat), *old(abi_index) as nat, outgoing_stack_arg_bytes as int),
            );
        }
        true
    }

    fn emit_call_type_hash_arg(
        &mut self,
        func: &str,
        label: &str,
        abi_index: &mut usize,
        arg: &IrOperand,
        pointer: bool,
        untracked: &str,
        not_var: &str,
        outgoing_stack_arg_bytes: usize,
    )
        requires
            *old(abi_index) * 8 <= i64::MAX,
            *old(abi_index) * 8 <= usize::MAX,
            outgoing_stack_arg_bytes <= i64::MAX,
            offsets_fit(old(self).param_type_hash_pointer_offsets@),
            offsets_fit(old(self).param_type_hash_size_offsets@),
        ensures
            *final(abi_index) == *old(abi_index) + 1,
            final(self).text_appended(
                old(self),
                type_hash_arg_lines(
                    if pointer { old(self).param_type_hash_pointer_offsets@ } else { old(self).param_type_hash_size_offsets@ },
                    func@,
                    label@,
                    *old(abi_index) as nat,
                    *arg,
                    untracked@,
                    not_var@,
                ) + outgoing_store_lines(abi_register(*old(abi_index) as nat), *old(abi_index) as nat, outgoing_stack_arg_bytes as int),
            ),
    {
        let ghost l0 = self.lines();
        let ghost m = if pointer { self.param_type_hash_pointer_offsets@ } else { self.param_type_hash_size_offsets@ };
        let register = self.call_abi_register(*abi_index);
        match arg {
            IrOperand::Var(var) => {
                let found = if pointer {
                    match self.param_type_hash_pointer_offsets.get(&var.id) {
                        Some(o) => Some(*o),
                        None => None,
                    }
                } else {
                    match self.param_type_hash_size_offsets.get(&var.id) {
                        Some(o) => Some(*o),
                        None => None,
                    }
                };
                assert(found == lookup(m, var.id));
                match found {
                    Some(o) => self.emit_stack_load(register.as_str(), o),
                    None => self.emit_untracked_arg(register.as_str(), func, " schema param ", label, untracked),
                }
            },
            IrOperand::Const(_) => {
                self.emit_untracked_arg(register.as_str(), func, " schema param ", label, not_var);
            },
        }
        let ghost l1 = self.lines();
        self.emit_outgoing_call_stack_arg_store(register.as_str(), *abi_index, outgoing_stack_arg_bytes);
        *abi_index = *abi_index + 1;
        proof {
            crate::codegen::lines::lemma_join2(
                l0,
                type_hash_arg_lines(m, func@, label@, *old(abi_index) as nat, *arg, untracked@, not_var@),
                outgoing_store_lines(abi_register(*old(abi_index) as nat), *old(abi_index) as nat, outgoing_stack_arg_bytes as int),
            );
        }
    }

    /// Loads a schema parameter's type-hash pointer into its ABI register, or
    /// a null pointer when none is tracked; stages it past the eighth argument
    /// and moves to the next argument.
    pub fn emit_call_type_hash_pointer_arg(
        &mut self,
        func: &str,
        label: &str,
        abi_index: &mut usize,
        arg: &IrOperand,
        outgoing_stack_arg_bytes: usize,
    ) -> (r: bool)
        requires
            *old(abi_index) * 8 <= i64::MAX,
            *old(abi_index) * 8 <= usize::MAX,
            outgoing_stack_arg_bytes <= i64::MAX,
            offsets_fit(old(self).param_type_hash_pointer_offsets@),
            offsets_fit(old(self).param_type_hash_size_offsets@),
        ensures
            r,
            *final(abi_index) == *old(abi_index) + 1,
            final(self).text_appended(
                old(self),
                type_hash_arg_lines(
                    old(self).param_type_hash_pointer_offsets@,
                    func@,
                    label@,
                    *old(abi_index) as nat,
                    *arg,
                    " has no tracked TypeHash pointer; pass null pointer"@,
                    " TypeHash source is not a variable; pass null pointer"@,
                ) + outgoing_store_lines(abi_register(*old(abi_index) as nat), *old(abi_index) as nat, outgoing_stack_arg_bytes as int),
            ),
    {
        self.emit_call_type_hash_arg(
            func,
            label,
            abi_index,
            arg,
            true,
            " has no tracked TypeHash pointer; pass null pointer",
            " TypeHash source is not a variable; pass null pointer",
            outgoing_stack_arg_bytes,
        );
        true
    }

    /// Loads a schema parameter's type-hash length into its ABI register, or
    /// zero when none is tracked so that the callee fails closed; stages it
    /// past the eighth argument and moves to the next argument.
    pub fn emit_call_type_hash_length_arg(
        &mut self,
        func: &str,
        label: &str,
        abi_index: &mut usize,
        arg: &IrOperand,
        outgoing_stack_arg_bytes: usize,
    ) -> (r: bool)
        requires
            *old(abi_index) * 8 <= i64::MAX,
            *old(abi_index) * 8 <= usize::MAX,
            outgoing_stack_arg_bytes <= i64::MAX,
            offsets_fit(old(self).param_type_hash_pointer_offsets@),
            offsets_fit(old(self).param_type_hash_size_offsets@),
        ensures
            r,
            *final(abi_index) == *old(abi_index) + 1,
            final(self).text_appended(
                old(self),
                type_hash_arg_lines(
                    old(self).param_type_hash_size_offsets@,
                    func@,
                    label@,
                    *old(abi_index) as nat,
                    *arg,
                    " has no tracked TypeHash length; pass zero length to fail closed"@,
                    " TypeHash length source is not a variable; pass zero length"@,
                ) + outgoing_store_lines(abi_register(*old(abi_index) as nat), *old(abi_index) as nat, outgoing_stack_arg_bytes as int),
            ),
    {
        self.emit_call_type_hash_arg(
            func,
            label,
            abi_index,
            arg,
            false,
            " has no tracked TypeHash length; pass zero length to fail closed",
            " TypeHash length source is not a variable; pass zero length",
            outgoing_stack_arg_bytes,
        );
        true
    }
}

} // verus!
