//! The instructions that scalar slot reuse understands, and the scalar
//! variables each of them reads and writes. Anything else keeps the
//! function with one slot per variable.

use vstd::prelude::*;
use std::collections::BTreeSet;
use crate::assembler::layout::strings_eq;
use crate::codegen::abi::CallableAbi;
use crate::ir::{IrBlock, IrConst, IrInstruction, IrOperand, IrParam, IrTerminator, IrType, IrVar};
use crate::names::NameMap;
use super::{union_into, Insts, Variables};

verus! {

broadcast use {
    vstd::std_specs::btree::group_btree_axioms,
    vstd::std_specs::vec::group_vec_axioms,
    vstd::set_lib::group_set_properties,
};

/// A type whose value fits one eight-byte slot.
pub open spec fn is_scalar(ty: IrType) -> bool {
    ty is Bool || ty is U8 || ty is U16 || ty is U32 || ty is U64
}

pub fn scalar(ty: &IrType) -> (r: bool)
    ensures
        r == is_scalar(*ty),
{
    match ty {
        IrType::Bool | IrType::U8 | IrType::U16 | IrType::U32 | IrType::U64 => true,
        _ => false,
    }
}

/// A constant that a scalar slot can hold.
pub open spec fn small_const(c: IrConst) -> bool {
    c is Unit || c is Bool || c is U8 || c is U16 || c is U32 || c is U64
}

/// An operand that is a scalar variable or a small constant.
pub open spec fn operand_ok(v: IrOperand) -> bool {
    match v {
        IrOperand::Var(var) => is_scalar(var.ty),
        IrOperand::Const(c) => small_const(c),
    }
}

/// The variable an operand reads, if it reads a scalar one.
pub open spec fn operand_uses(v: IrOperand) -> Set<usize> {
    match v {
        IrOperand::Var(var) => if is_scalar(var.ty) {
            set![var.id]
        } else {
            Set::empty()
        },
        IrOperand::Const(_) => Set::empty(),
    }
}

/// Records the variable `value` reads in `uses`; `None` when the operand is
/// neither a scalar variable nor a small constant.
pub fn operand(value: &IrOperand, uses: &mut Variables) -> (r: Option<()>)
    ensures
        r is Some <==> operand_ok(*value),
        final(uses)@ == old(uses)@.union(operand_uses(*value)),
{
    match value {
        IrOperand::Var(var) => {
            if scalar(&var.ty) {
                uses.insert(var.id);
                assert(uses@ =~= old(uses)@.union(set![var.id]));
                Some(())
            } else {
                assert(uses@ =~= old(uses)@.union(Set::empty()));
                None
            }
        },
        IrOperand::Const(c) => {
            assert(uses@ =~= old(uses)@.union(Set::empty()));
            match c {
                IrConst::Unit | IrConst::Bool(_) | IrConst::U8(_) | IrConst::U16(_) | IrConst::U32(_)
                | IrConst::U64(_) => Some(()),
                _ => None,
            }
        },
    }
}

/// A callee that takes only scalar arguments by value, with no extra words.
pub open spec fn abi_scalar(abi: CallableAbi) -> bool {
    &&& abi.type_hash_param_indices@.len() == 0
    &&& abi.runtime_bound_param_indices@.len() == 0
    &&& abi.bounded_plan_param_indices@.len() == 0
    &&& params_scalar(abi.params@)
}

/// Every parameter is a scalar passed by value.
pub open spec fn params_scalar(params: Seq<IrParam>) -> bool {
    forall|i: int| 0 <= i < params.len() ==> is_scalar(#[trigger] params[i].ty) && !params[i].is_ref && !params[i].is_read_ref
}

pub fn all_params_scalar(params: &Vec<IrParam>) -> (r: bool)
    ensures
        r == params_scalar(params@),
{
    let mut i: usize = 0;
    while i < params.len()
        invariant
            i <= params@.len(),
            forall|j: int| 0 <= j < i ==> is_scalar(#[trigger] params@[j].ty) && !params@[j].is_ref && !params@[j].is_read_ref,
        decreases params@.len() - i,
    {
        if !scalar(&params[i].ty) || params[i].is_ref || params[i].is_read_ref {
            return false;
        }
        i = i + 1;
    }
    true
}

pub open spec fn names_view(v: Seq<String>) -> Seq<Seq<char>> {
    v.map_values(|s: String| s@)
}

fn contains_name(names: &Vec<String>, name: &String) -> (r: bool)
    ensures
        r == names_view(names@).contains(name@),
{
    let mut i: usize = 0;
    while i < names.len()
        invariant
            i <= names@.len(),
            forall|j: int| 0 <= j < i ==> names@[j]@ != name@,
        decreases names@.len() - i,
    {
        if strings_eq(&names[i], name) {
            assert(names_view(names@)[i as int] == name@);
            return true;
        }
        i = i + 1;
    }
    assert(!names_view(names@).contains(name@)) by {
        if names_view(names@).contains(name@) {
            let j = choose|j: int| 0 <= j < names_view(names@).len() && names_view(names@)[j] == name@;
            assert(names@[j]@ == name@);
        }
    }
    false
}

/// Every argument is a scalar variable or a small constant.
pub open spec fn args_ok(args: Seq<IrOperand>) -> bool {
    forall|i: int| 0 <= i < args.len() ==> operand_ok(#[trigger] args[i])
}

/// The scalar variables the arguments read.
pub open spec fn args_uses(args: Seq<IrOperand>) -> Set<usize>
    decreases args.len(),
{
    if args.len() == 0 {
        Set::empty()
    } else {
        args_uses(args.drop_last()).union(operand_uses(args.last()))
    }
}

/// The effect of an instruction that reads `uses` and writes `dest`.
pub open spec fn with_dest(uses: Set<usize>, dest: Option<IrVar>) -> Option<(Set<usize>, Set<usize>)> {
    match dest {
        Some(d) => if is_scalar(d.ty) {
            Some((uses, set![d.id]))
        } else {
            None
        },
        None => Some((uses, Set::empty())),
    }
}

/// The variables an instruction reads and writes, when slot reuse understands it.
pub open spec fn spec_instruction_effect(inst: IrInstruction, abis: NameMap<CallableAbi>, local: Seq<Seq<char>>) -> Option<
    (Set<usize>, Set<usize>),
> {
    match inst {
        IrInstruction::LoadConst { dest, value } => if small_const(value) {
            with_dest(Set::empty(), Some(dest))
        } else {
            None
        },
        IrInstruction::LoadVar { dest, .. } => with_dest(Set::empty(), Some(dest)),
        IrInstruction::StoreVar { src, .. } => if operand_ok(src) {
            with_dest(operand_uses(src), None)
        } else {
            None
        },
        IrInstruction::Move { dest, src } => if operand_ok(src) {
            with_dest(operand_uses(src), Some(dest))
        } else {
            None
        },
        IrInstruction::Unary { dest, operand, .. } => if operand_ok(operand) {
            with_dest(operand_uses(operand), Some(dest))
        } else {
            None
        },
        IrInstruction::Binary { dest, left, right, .. } => if operand_ok(left) && operand_ok(right) {
            with_dest(operand_uses(left).union(operand_uses(right)), Some(dest))
        } else {
            None
        },
        IrInstruction::Call { dest, func, args } => match abis.lookup(func@) {
            Some(abi) => if local.contains(func@) && abi_scalar(abi) && args_ok(args@) {
                with_dest(args_uses(args@), dest)
            } else {
                None
            },
            None => None,
        },
        _ => None,
    }
}

/// The abstract value of a computed effect.
pub open spec fn effect_view(e: Option<(Variables, Variables)>) -> Option<(Set<usize>, Set<usize>)> {
    match e {
        Some(p) => Some((p.0@, p.1@)),
        None => None,
    }
}

fn call_args(args: &Vec<IrOperand>, uses: &mut Variables) -> (r: bool)
    ensures
        r == args_ok(args@),
        r ==> final(uses)@ == old(uses)@.union(args_uses(args@)),
{
    let mut i: usize = 0;
    assert(old(uses)@.union(args_uses(args@.subrange(0, 0))) =~= old(uses)@) by {
        assert(args@.subrange(0, 0) =~= Seq::<IrOperand>::empty());
    }
    while i < args.len()
        invariant
            i <= args@.len(),
            forall|j: int| 0 <= j < i ==> operand_ok(#[trigger] args@[j]),
            uses@ == old(uses)@.union(args_uses(args@.subrange(0, i as int))),
        decreases args@.len() - i,
    {
        let ghost before = uses@;
        if operand(&args[i], uses).is_none() {
            return false;
        }
        assert(args@.subrange(0, i + 1).drop_last() =~= args@.subrange(0, i as int));
        assert(uses@ =~= old(uses)@.union(args_uses(args@.subrange(0, i + 1))));
        i = i + 1;
    }
    assert(args@.subrange(0, args@.len() as int) =~= args@);
    true
}

/// The scalar variables an instruction reads and writes; `None` for any
/// instruction that slot reuse does not understand.
pub fn instruction_effect(instruction: &IrInstruction, abis: &NameMap<CallableAbi>, local_calls: &Vec<String>) -> (r: Option<
    (Variables, Variables),
>)
    ensures
        effect_view(r) == spec_instruction_effect(*instruction, *abis, names_view(local_calls@)),
{
    let mut uses: Variables = BTreeSet::new();
    let dest: Option<&IrVar> = match instruction {
        IrInstruction::LoadConst { dest, value } => {
            match value {
                IrConst::Unit | IrConst::Bool(_) | IrConst::U8(_) | IrConst::U16(_) | IrConst::U32(_)
                | IrConst::U64(_) => {},
                _ => return None,
            }
            Some(dest)
        },
        IrInstruction::LoadVar { dest, .. } => Some(dest),
        IrInstruction::StoreVar { src, .. } => {
            operand(src, &mut uses)?;
            None
        },
        IrInstruction::Move { dest, src } => {
            operand(src, &mut uses)?;
            Some(dest)
        },
        IrInstruction::Unary { dest, operand: value, .. } => {
            operand(value, &mut uses)?;
            Some(dest)
        },
        IrInstruction::Binary { dest, left, right, .. } => {
            operand(left, &mut uses)?;
            operand(right, &mut uses)?;
            Some(dest)
        },
        IrInstruction::Call { dest, func, args } => {
            let abi = match abis.position(func.as_str()) {
                Some(i) => &abis.entries[i].1,
                None => return None,
            };
            if !contains_name(local_calls, func) || abi.type_hash_param_indices.len() != 0
                || abi.runtime_bound_param_indices.len() != 0 || abi.bounded_plan_param_indices.len() != 0
                || !all_params_scalar(&abi.params) {
                return None;
            }
            if !call_args(args, &mut uses) {
                return None;
            }
            match dest {
                Some(d) => Some(d),
                None => None,
            }
        },
        _ => return None,
    };
    let mut defs: Variables = BTreeSet::new();
    match dest {
        Some(d) => {
            if !scalar(&d.ty) {
                return None;
            }
            defs.insert(d.id);
        },
        None => {},
    }
    proof {
        assert(Set::<usize>::empty().union(Set::<usize>::empty()) =~= Set::<usize>::empty());
    }
    Some((uses, defs))
}

/// The effects of a run of instructions, when each is understood.
pub open spec fn insts_effects(insts: Seq<IrInstruction>, abis: NameMap<CallableAbi>, local: Seq<Seq<char>>) -> Option<Insts>
    decreases insts.len(),
{
    if insts.len() == 0 {
        Some(Seq::empty())
    } else {
        match (insts_effects(insts.drop_last(), abis, local), spec_instruction_effect(insts.last(), abis, local)) {
            (Some(a), Some(x)) => Some(a.push(x)),
            _ => None,
        }
    }
}

/// What a terminator reads, when it reads only a scalar variable or a small constant.
pub open spec fn terminal_effect(t: IrTerminator) -> Option<(Set<usize>, Set<usize>)> {
    match t {
        IrTerminator::Return(Some(v)) => if operand_ok(v) {
            Some((operand_uses(v), Set::empty()))
        } else {
            None
        },
        IrTerminator::Return(None) => Some((Set::empty(), Set::empty())),
        IrTerminator::Jump(_) => Some((Set::empty(), Set::empty())),
        IrTerminator::Branch { cond, .. } => if operand_ok(cond) {
            Some((operand_uses(cond), Set::empty()))
        } else {
            None
        },
    }
}

/// The blocks a terminator passes control to.
pub open spec fn terminal_next(t: IrTerminator) -> Seq<usize> {
    match t {
        IrTerminator::Return(_) => Seq::empty(),
        IrTerminator::Jump(next) => seq![next.0],
        IrTerminator::Branch { then_block, else_block, .. } => seq![then_block.0, else_block.0],
    }
}

/// A block's effects: its instructions', then its terminator's.
pub open spec fn block_effect(b: IrBlock, abis: NameMap<CallableAbi>, local: Seq<Seq<char>>) -> Option<Insts> {
    match (insts_effects(b.instructions@, abis, local), terminal_effect(b.terminator)) {
        (Some(a), Some(t)) => Some(a.push(t)),
        _ => None,
    }
}

/// Every variable an effect list reads or writes.
pub open spec fn insts_vars(insts: Insts) -> Set<usize>
    decreases insts.len(),
{
    if insts.len() == 0 {
        Set::empty()
    } else {
        insts_vars(insts.drop_last()).union(insts.last().0).union(insts.last().1)
    }
}

pub open spec fn effects_view_seq(v: Seq<(Variables, Variables)>) -> Insts {
    v.map_values(|p: (Variables, Variables)| (p.0@, p.1@))
}

/// The effects of a block and the blocks it passes control to, adding every
/// variable it touches to `variables`; `None` when slot reuse does not
/// understand one of its instructions or its terminator.
pub fn block_effects(block: &IrBlock, abis: &NameMap<CallableAbi>, local_calls: &Vec<String>, variables: &mut Variables) -> (r:
    Option<(Vec<(Variables, Variables)>, Vec<usize>)>)
    ensures
        r is Some <==> block_effect(*block, *abis, names_view(local_calls@)) is Some,
        r matches Some(p) ==> effects_view_seq(p.0@) == block_effect(*block, *abis, names_view(local_calls@))->0 && p.1@
            == terminal_next(block.terminator) && final(variables)@ == old(variables)@.union(insts_vars(effects_view_seq(p.0@))),
{
    let ghost local = names_view(local_calls@);
    let mut instructions: Vec<(Variables, Variables)> = Vec::new();
    let mut i: usize = 0;
    assert(block.instructions@.subrange(0, 0) =~= Seq::<IrInstruction>::empty());
    while i < block.instructions.len()
        invariant
            i <= block.instructions@.len(),
            local == names_view(local_calls@),
            insts_effects(block.instructions@.subrange(0, i as int), *abis, local) == Some(effects_view_seq(instructions@)),
            variables@ == old(variables)@.union(insts_vars(effects_view_seq(instructions@))),
        decreases block.instructions@.len() - i,
    {
        let ghost pre = block.instructions@.subrange(0, i as int);
        let ghost now = block.instructions@.subrange(0, i + 1);
        assert(now.drop_last() =~= pre);
        let effect = instruction_effect(&block.instructions[i], abis, local_calls);
        match effect {
            Some(e) => {
                let ghost before = effects_view_seq(instructions@);
                union_into(variables, &e.0);
                union_into(variables, &e.1);
                instructions.push(e);
                assert(effects_view_seq(instructions@) =~= before.push((e.0@, e.1@)));
                assert(effects_view_seq(instructions@).drop_last() =~= before);
                assert(variables@ =~= old(variables)@.union(insts_vars(effects_view_seq(instructions@))));
            },
            None => {
                proof {
                    lemma_insts_effects_prefix(block.instructions@, *abis, local, i as int + 1);
                }
                return None;
            },
        }
        i = i + 1;
    }
    assert(block.instructions@.subrange(0, i as int) =~= block.instructions@);
    let mut terminal: Variables = BTreeSet::new();
    let next: Vec<usize> = match &block.terminator {
        IrTerminator::Return(Some(value)) => {
            operand(value, &mut terminal)?;
            Vec::new()
        },
        IrTerminator::Return(None) => Vec::new(),
        IrTerminator::Jump(n) => {
            let mut v = Vec::new();
            v.push(n.0);
            v
        },
        IrTerminator::Branch { cond, then_block, else_block } => {
            operand(cond, &mut terminal)?;
            let mut v = Vec::new();
            v.push(then_block.0);
            v.push(else_block.0);
            v
        },
    };
    proof {
        assert(Set::<usize>::empty().union(operand_uses(IrOperand::Const(IrConst::Unit))) =~= Set::<usize>::empty());
    }
    assert(next@ =~= terminal_next(block.terminator));
    assert(terminal@ == (terminal_effect(block.terminator)->0).0);
    let ghost before = effects_view_seq(instructions@);
    union_into(variables, &terminal);
    instructions.push((terminal, BTreeSet::new()));
    assert(effects_view_seq(instructions@) =~= before.push((terminal@, Set::<usize>::empty())));
    assert(effects_view_seq(instructions@).drop_last() =~= before);
    assert(variables@ =~= old(variables)@.union(insts_vars(effects_view_seq(instructions@))));
    Some((instructions, next))
}

/// Once a prefix of the instructions is not understood, neither is the whole run.
proof fn lemma_insts_effects_prefix(insts: Seq<IrInstruction>, abis: NameMap<CallableAbi>, local: Seq<Seq<char>>, k: int)
    requires
        0 <= k <= insts.len(),
        insts_effects(insts.subrange(0, k), abis, local) is None,
    ensures
        insts_effects(insts, abis, local) is None,
    decreases insts.len() - k,
{
    if k < insts.len() {
        assert(insts.subrange(0, k + 1).drop_last() =~= insts.subrange(0, k));
        lemma_insts_effects_prefix(insts, abis, local, k + 1);
    } else {
        assert(insts.subrange(0, k) =~= insts);
    }
}

/// Every set an instruction of the list reads or writes lies within the list's variables.
pub proof fn lemma_insts_vars_contains(insts: Insts)
    ensures
        forall|i: int| 0 <= i < insts.len() ==> (#[trigger] insts[i]).0.subset_of(insts_vars(insts)) && insts[i].1.subset_of(
            insts_vars(insts)),
    decreases insts.len(),
{
    if insts.len() > 0 {
        lemma_insts_vars_contains(insts.drop_last());
        assert forall|i: int| 0 <= i < insts.len() implies (#[trigger] insts[i]).0.subset_of(insts_vars(insts)) && insts[i].1.subset_of(
            insts_vars(insts)) by {
            if i < insts.len() - 1 {
                assert(insts[i] == insts.drop_last()[i]);
            }
        }
    }
}


/// The operands an instruction reads, in the order it names them.
pub open spec fn operands_read(inst: IrInstruction) -> Seq<IrOperand> {
    match inst {
        IrInstruction::StoreVar { src, .. } => seq![src],
        IrInstruction::Move { src, .. } => seq![src],
        IrInstruction::Unary { operand, .. } => seq![operand],
        IrInstruction::Binary { left, right, .. } => seq![left, right],
        IrInstruction::Call { args, .. } => args@,
        _ => Seq::empty(),
    }
}

proof fn lemma_args_uses_contains(args: Seq<IrOperand>, i: int, v: IrVar)
    requires
        0 <= i < args.len(),
        args[i] == IrOperand::Var(v),
        is_scalar(v.ty),
    ensures
        args_uses(args).contains(v.id),
    decreases args.len(),
{
    if i < args.len() - 1 {
        assert(args.drop_last()[i] == args[i]);
        lemma_args_uses_contains(args.drop_last(), i, v);
    }
}

/// Whenever slot reuse understands an instruction, every variable operand
/// it reads, left and right alike, is among the variables it uses.
pub proof fn lemma_effect_uses_every_operand(
    inst: IrInstruction,
    abis: NameMap<CallableAbi>,
    local: Seq<Seq<char>>,
    i: int,
    v: IrVar,
)
    requires
        spec_instruction_effect(inst, abis, local) is Some,
        0 <= i < operands_read(inst).len(),
        operands_read(inst)[i] == IrOperand::Var(v),
    ensures
        (spec_instruction_effect(inst, abis, local)->0).0.contains(v.id),
{
    match inst {
        IrInstruction::Call { args, .. } => {
            assert(args_ok(args@));
            assert(operand_ok(args@[i]));
            lemma_args_uses_contains(args@, i, v);
        },
        _ => {},
    }
}

/// The effects of a run of understood instructions are the effects of each.
pub proof fn lemma_insts_effects_at(insts: Seq<IrInstruction>, abis: NameMap<CallableAbi>, local: Seq<Seq<char>>, k: int)
    requires
        insts_effects(insts, abis, local) is Some,
        0 <= k < insts.len(),
    ensures
        spec_instruction_effect(insts[k], abis, local) is Some,
        insts_effects(insts, abis, local)->0.len() == insts.len(),
        insts_effects(insts, abis, local)->0[k] == spec_instruction_effect(insts[k], abis, local)->0,
    decreases insts.len(),
{
    if insts_effects(insts.drop_last(), abis, local) is Some {
        if k < insts.len() - 1 {
            lemma_insts_effects_at(insts.drop_last(), abis, local, k);
            assert(insts.drop_last()[k] == insts[k]);
        } else if insts.len() > 1 {
            lemma_insts_effects_at(insts.drop_last(), abis, local, 0);
        }
    }
    if insts.len() == 1 {
        assert(insts.drop_last().len() == 0);
    }
}


/// The variable an instruction assigns, if any.
pub open spec fn dest_written(inst: IrInstruction) -> Option<IrVar> {
    match inst {
        IrInstruction::LoadConst { dest, .. } => Some(dest),
        IrInstruction::LoadVar { dest, .. } => Some(dest),
        IrInstruction::Move { dest, .. } => Some(dest),
        IrInstruction::Unary { dest, .. } => Some(dest),
        IrInstruction::Binary { dest, .. } => Some(dest),
        IrInstruction::Call { dest, .. } => dest,
        _ => None,
    }
}

/// Whenever slot reuse understands an instruction, it writes exactly the
/// variable the instruction assigns, and nothing when it assigns none.
pub proof fn lemma_effect_defines_dest(inst: IrInstruction, abis: NameMap<CallableAbi>, local: Seq<Seq<char>>)
    requires
        spec_instruction_effect(inst, abis, local) is Some,
    ensures
        (spec_instruction_effect(inst, abis, local)->0).1 == match dest_written(inst) {
            Some(d) => set![d.id],
            None => Set::<usize>::empty(),
        },
{
}

} // verus!
