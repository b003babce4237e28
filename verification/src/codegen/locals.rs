//! Constants, named variables and consumed bindings in the frame.

use vstd::prelude::*;

use crate::codegen::checks::{can_fail, codes_after_fail, fail_lines, operand_fits};
use crate::codegen::generator::{sp_addi_lines, stack_access_lines, CodeGenerator};
use crate::codegen::lines::{lemma_join2, lemma_join3, lemma_join4, li_body, mk_li, spec_emit_lines};
use crate::codegen::operands::{operand_load_lines, operand_pool_after, pool_after, pooled_label, store_bytes_lines};
use crate::codegen::pointers::lookup;
use crate::codegen::widths::{fixed_byte_const_bytes, spec_fixed_byte_const_bytes};
use crate::codegen::runtime::RuntimeFailure;
use crate::error::CompileError;
use crate::ir::{IrConst, IrOperand, IrVar};
use crate::text::string_push_str;

verus! {

broadcast use vstd::std_specs::hash::group_hash_axioms;

/// The note for a variable slot that was never laid out.
pub open spec fn unallocated_note() -> Seq<Seq<char>> {
    spec_emit_lines("# cellscript abi: fail closed because named variable slot was not allocated"@)
}

/// Loading named variable `name` into `dest`'s slot; a name without a slot
/// fails closed.
pub open spec fn load_var_lines(g: CodeGenerator, dest: IrVar, name: Seq<char>, f: RuntimeFailure) -> Seq<Seq<char>> {
    spec_emit_lines("# load var "@ + name) + match g.named_var_offsets.lookup(name) {
        Some(offset) => stack_access_lines("ld"@, "t0"@, offset as int) + stack_access_lines("sd"@, "t0"@, dest.id * 8),
        None => unallocated_note() + fail_lines(g, f),
    }
}

/// Storing `src` into named variable `name`'s slot; a name without a slot
/// fails closed.
pub open spec fn store_var_lines(g: CodeGenerator, name: Seq<char>, src: IrOperand, f: RuntimeFailure) -> Seq<Seq<char>> {
    spec_emit_lines("# store var "@ + name) + match g.named_var_offsets.lookup(name) {
        Some(offset) => operand_load_lines("t0"@, src, g.pool()) + stack_access_lines("sd"@, "t0"@, offset as int),
        None => unallocated_note() + fail_lines(g, f),
    }
}

/// Consuming an operand: a consumed input keeps its pointer for the
/// verifier, a local binding is cleared, and a constant fails closed.
pub open spec fn consume_lines(g: CodeGenerator, operand: IrOperand, f: RuntimeFailure) -> Seq<Seq<char>> {
    spec_emit_lines("# consume"@) + match operand {
        IrOperand::Var(v) => if g.consume_indices@.contains_key(v.id) {
            spec_emit_lines("# cellscript abi: consumed input pointer retained for verifier field checks"@)
        } else {
            stack_access_lines("sd"@, "zero"@, v.id * 8)
        },
        IrOperand::Const(_) => spec_emit_lines("# cellscript abi: fail closed because consume operand is not a variable"@)
            + fail_lines(g, f),
    }
}

/// Every named variable slot offset fits an immediate.
pub open spec fn named_slots_fit(g: CodeGenerator) -> bool {
    forall|k: Seq<char>| #[trigger] g.named_var_offsets.lookup(k) is Some ==> g.named_var_offsets.lookup(k)->0 <= i64::MAX
}

impl CodeGenerator {
    /// `LoadVar`: see `load_var_lines`.
    pub fn emit_load_var(&mut self, dest: &IrVar, name: &str, unallocated: &RuntimeFailure) -> (r: Result<(), CompileError>)
        requires
            can_fail(*old(self)),
            named_slots_fit(*old(self)),
            dest.id * 8 <= i64::MAX,
            dest.id * 8 <= usize::MAX,
        ensures
            r is Ok,
            final(self).lines() == old(self).lines() + load_var_lines(*old(self), *dest, name@, *unallocated),
            final(self).same_but_fail_codes(old(self)),
            final(self).next_runtime_label == old(self).next_runtime_label,
            final(self).const_data_entries == old(self).const_data_entries,
            final(self).fail_handler_codes@ == if old(self).named_var_offsets.lookup(name@) is Some {
                old(self).fail_handler_codes@
            } else {
                codes_after_fail(*old(self), *unallocated)
            },
    {
        let ghost l0 = self.lines();
        let slot = self.named_var_offsets.get(name);
        let mut note = String::new();
        string_push_str(&mut note, "# load var ");
        string_push_str(&mut note, name);
        let ghost head = spec_emit_lines(note@);
        self.emit(note.as_str());
        match slot {
            Some(offset) => {
                let ghost ld = stack_access_lines("ld"@, "t0"@, offset as int);
                let ghost sd = stack_access_lines("sd"@, "t0"@, dest.id * 8);
                self.emit_stack_load("t0", offset);
                self.emit_stack_store("t0", dest.id * 8);
                proof {
                    lemma_join3(l0, head, ld, sd);
                    assert(head + ld + sd =~= head + (ld + sd));
                }
            },
            None => {
                self.emit("# cellscript abi: fail closed because named variable slot was not allocated");
                self.emit_fail(unallocated);
                proof {
                    lemma_join3(l0, head, unallocated_note(), fail_lines(*old(self), *unallocated));
                    assert(head + unallocated_note() + fail_lines(*old(self), *unallocated) =~= head + (unallocated_note()
                        + fail_lines(*old(self), *unallocated)));
                }
            },
        }
        Ok(())
    }

    /// `StoreVar`: see `store_var_lines`.
    pub fn emit_store_var(&mut self, name: &str, src: &IrOperand, unallocated: &RuntimeFailure) -> (r: Result<(), CompileError>)
        requires
            can_fail(*old(self)),
            named_slots_fit(*old(self)),
            operand_fits(*src),
        ensures
            r is Ok,
            final(self).lines() == old(self).lines() + store_var_lines(*old(self), name@, *src, *unallocated),
            final(self).pool() == if old(self).named_var_offsets.lookup(name@) is Some {
                operand_pool_after(*src, old(self).pool())
            } else {
                old(self).pool()
            },
            final(self).same_but_fail_codes(old(self)),
            final(self).next_runtime_label == old(self).next_runtime_label,
            final(self).fail_handler_codes@ == if old(self).named_var_offsets.lookup(name@) is Some {
                old(self).fail_handler_codes@
            } else {
                codes_after_fail(*old(self), *unallocated)
            },
    {
        let ghost l0 = self.lines();
        let slot = self.named_var_offsets.get(name);
        let mut note = String::new();
        string_push_str(&mut note, "# store var ");
        string_push_str(&mut note, name);
        let ghost head = spec_emit_lines(note@);
        self.emit(note.as_str());
        match slot {
            Some(offset) => {
                let ghost ld = operand_load_lines("t0"@, *src, old(self).pool());
                let ghost sd = stack_access_lines("sd"@, "t0"@, offset as int);
                self.emit_operand_to_register("t0", src);
                self.emit_stack_store("t0", offset);
                proof {
                    lemma_join3(l0, head, ld, sd);
                    assert(head + ld + sd =~= head + (ld + sd));
                }
            },
            None => {
                self.emit("# cellscript abi: fail closed because named variable slot was not allocated");
                self.emit_fail(unallocated);
                proof {
                    lemma_join3(l0, head, unallocated_note(), fail_lines(*old(self), *unallocated));
                    assert(head + unallocated_note() + fail_lines(*old(self), *unallocated) =~= head + (unallocated_note()
                        + fail_lines(*old(self), *unallocated)));
                }
            },
        }
        Ok(())
    }

    /// `Consume`: see `consume_lines`.
    pub fn emit_consume(&mut self, operand: &IrOperand, invalid: &RuntimeFailure) -> (r: Result<(), CompileError>)
        requires
            can_fail(*old(self)),
            operand_fits(*operand),
        ensures
            r is Ok,
            final(self).lines() == old(self).lines() + consume_lines(*old(self), *operand, *invalid),
            final(self).same_but_fail_codes(old(self)),
            final(self).next_runtime_label == old(self).next_runtime_label,
            final(self).const_data_entries == old(self).const_data_entries,
            final(self).fail_handler_codes@ == if operand is Var {
                old(self).fail_handler_codes@
            } else {
                codes_after_fail(*old(self), *invalid)
            },
    {
        let ghost l0 = self.lines();
        let ghost head = spec_emit_lines("# consume"@);
        self.emit("# consume");
        match operand {
            IrOperand::Var(var) => {
                if self.consume_indices.contains_key(&var.id) {
                    let ghost kept = spec_emit_lines(
                        "# cellscript abi: consumed input pointer retained for verifier field checks"@,
                    );
                    self.emit("# cellscript abi: consumed input pointer retained for verifier field checks");
                    proof {
                        lemma_join2(l0, head, kept);
                    }
                } else {
                    self.emit_stack_store("zero", var.id * 8);
                    proof {
                        lemma_join2(l0, head, stack_access_lines("sd"@, "zero"@, var.id * 8));
                    }
                }
            },
            IrOperand::Const(_) => {
                let ghost note = spec_emit_lines("# cellscript abi: fail closed because consume operand is not a variable"@);
                self.emit("# cellscript abi: fail closed because consume operand is not a variable");
                self.emit_fail(invalid);
                proof {
                    lemma_join3(l0, head, note, fail_lines(*old(self), *invalid));
                    assert(head + note + fail_lines(*old(self), *invalid) =~= head + (note + fail_lines(*old(self), *invalid)));
                }
            },
        }
        Ok(())
    }
}

/// The immediate a small constant loads as.
pub open spec fn small_const_value(value: IrConst) -> Option<int> {
    match value {
        IrConst::Unit => Some(0),
        IrConst::Bool(b) => Some(if b { 1int } else { 0int }),
        IrConst::U8(n) => Some(n as int),
        IrConst::U16(n) => Some(n as int),
        IrConst::U32(n) => Some(n as int),
        IrConst::U64(n) => Some(n as int),
        _ => None,
    }
}

/// Loading a constant into `dest`'s slot: small constants as immediates; a
/// u128 with fixed-byte storage written byte by byte and addressed there;
/// other byte-block constants addressed in the read-only pool; a constant
/// without bytes fails closed and stores zero.
pub open spec fn load_const_lines(g: CodeGenerator, dest: IrVar, value: IrConst, f: RuntimeFailure) -> Seq<Seq<char>> {
    let store = stack_access_lines("sd"@, "t0"@, dest.id * 8);
    match small_const_value(value) {
        Some(n) => spec_emit_lines(li_body("t0"@, n)) + store,
        None => match (value, lookup(g.fixed_byte_local_offsets@, dest.id)) {
            (IrConst::U128(_), Some(offset)) => store_bytes_lines(spec_fixed_byte_const_bytes(value)->0, offset as int)
                + sp_addi_lines("t0"@, offset as int) + store,
            _ => match spec_fixed_byte_const_bytes(value) {
                Some(b) => spec_emit_lines("la t0, "@ + pooled_label(g.pool(), b)) + store,
                None => spec_emit_lines(
                    "# cellscript abi: fail closed because fixed-byte constant bytes are not materializable"@,
                ) + fail_lines(g, f) + spec_emit_lines(li_body("t0"@, 0)) + store,
            },
        },
    }
}

/// The read-only pool after loading a constant.
pub open spec fn load_const_pool(g: CodeGenerator, dest: IrVar, value: IrConst) -> Seq<(Seq<char>, Seq<u8>)> {
    match small_const_value(value) {
        Some(_) => g.pool(),
        None => match (value, lookup(g.fixed_byte_local_offsets@, dest.id)) {
            (IrConst::U128(_), Some(_)) => g.pool(),
            _ => match spec_fixed_byte_const_bytes(value) {
                Some(b) => pool_after(g.pool(), b),
                None => g.pool(),
            },
        },
    }
}

/// Every fixed-byte local, with its sixteen bytes, lies within immediate reach.
pub open spec fn fixed_locals_fit(g: CodeGenerator) -> bool {
    forall|k: usize| #[trigger] g.fixed_byte_local_offsets@.contains_key(k) ==> g.fixed_byte_local_offsets@[k] + 16
        <= i64::MAX && g.fixed_byte_local_offsets@[k] + 16 <= usize::MAX
}

proof fn lemma_le_bytes_len(v: int, n: nat)
    ensures
        crate::assembler::parse::le_bytes(v, n).len() == n,
    decreases n,
{
    if n > 0 {
        lemma_le_bytes_len(v / 256, (n - 1) as nat);
    }
}

impl CodeGenerator {
    /// `LoadConst`: see `load_const_lines`.
    #[verifier::rlimit(50)]
    pub fn emit_load_const(&mut self, dest: &IrVar, value: &IrConst, unmaterializable: &RuntimeFailure) -> (r: Result<(), CompileError>)
        requires
            can_fail(*old(self)),
            fixed_locals_fit(*old(self)),
            dest.id * 8 <= i64::MAX,
            dest.id * 8 <= usize::MAX,
        ensures
            r is Ok,
            final(self).lines() == old(self).lines() + load_const_lines(*old(self), *dest, *value, *unmaterializable),
            final(self).pool() == load_const_pool(*old(self), *dest, *value),
            final(self).same_but_fail_codes(old(self)),
            final(self).next_runtime_label == old(self).next_runtime_label,
            final(self).fail_handler_codes@ == if small_const_value(*value) is None && spec_fixed_byte_const_bytes(*value) is None {
                codes_after_fail(*old(self), *unmaterializable)
            } else {
                old(self).fail_handler_codes@
            },
    {
        let ghost l0 = self.lines();
        let ghost store = stack_access_lines("sd"@, "t0"@, dest.id * 8);
        let small: Option<u64> = match value {
            IrConst::Unit => Some(0),
            IrConst::Bool(b) => Some(if *b { 1 } else { 0 }),
            IrConst::U8(n) => Some(*n as u64),
            IrConst::U16(n) => Some(*n as u64),
            IrConst::U32(n) => Some(*n as u64),
            IrConst::U64(n) => Some(*n),
            _ => None,
        };
        if let Some(n) = small {
            let li = mk_li("t0", n as i128);
            self.emit(li.as_str());
            self.emit_stack_store("t0", dest.id * 8);
            proof {
                lemma_join2(l0, spec_emit_lines(li_body("t0"@, n as int)), store);
            }
            return Ok(());
        }
        let local = match value {
            IrConst::U128(_) => match self.fixed_byte_local_offsets.get(&dest.id) {
                Some(o) => Some(*o),
                None => None,
            },
            _ => None,
        };
        let bytes = fixed_byte_const_bytes(value);
        match (local, bytes) {
            (Some(offset), Some(b)) => {
                if let IrConst::U128(v) = value {
                    proof {
                        lemma_le_bytes_len(*v as int, 16);
                    }
                }
                let ghost writes = store_bytes_lines(b@, offset as int);
                let ghost addr = sp_addi_lines("t0"@, offset as int);
                self.emit_store_const_bytes_to_stack(b.as_slice(), offset);
                self.emit_sp_addi("t0", offset);
                self.emit_stack_store("t0", dest.id * 8);
                proof {
                    lemma_join3(l0, writes, addr, store);
                }
            },
            (_, Some(b)) => {
                let label = self.const_data_label_for_bytes(b);
                let mut la = String::new();
                string_push_str(&mut la, "la t0, ");
                string_push_str(&mut la, label.as_str());
                let ghost load = spec_emit_lines(la@);
                self.emit(la.as_str());
                self.emit_stack_store("t0", dest.id * 8);
                proof {
                    lemma_join2(l0, load, store);
                }
            },
            (_, None) => {
                let ghost note = spec_emit_lines(
                    "# cellscript abi: fail closed because fixed-byte constant bytes are not materializable"@,
                );
                self.emit("# cellscript abi: fail closed because fixed-byte constant bytes are not materializable");
                self.emit_fail(unmaterializable);
                let zero = mk_li("t0", 0);
                self.emit(zero.as_str());
                self.emit_stack_store("t0", dest.id * 8);
                proof {
                    lemma_join4(l0, note, fail_lines(*old(self), *unmaterializable), spec_emit_lines(li_body("t0"@, 0)), store);
                }
            },
        }
        Ok(())
    }
}

} // verus!
