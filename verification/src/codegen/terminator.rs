//! Block terminators: returns, jumps and branches.

use vstd::prelude::*;
use std::collections::HashMap;

use crate::codegen::checks::{can_fail, codes_after_fail, fail_lines, label_lines, operand_fits};
use crate::codegen::generator::{epilogue_body_lines, label_text, stack_access_lines, CodeGenerator};
use crate::codegen::lines::{lemma_join2, lemma_join3, lemma_join4, li_body, mk_li, spec_emit_lines};
use crate::codegen::operands::{operand_load_lines, operand_pool_after};
use crate::codegen::runtime::{error_comment_lines, RuntimeFailure};
use crate::error::CompileError;
use crate::ir::{IrConst, IrOperand, IrTerminator, IrType};
use crate::text::{dec_nat, push_decimal_u128, string_push_str};

verus! {

broadcast use vstd::std_specs::hash::group_hash_axioms;

/// The constant pool, as name and bytes.
pub type Pool = Seq<(Seq<char>, Seq<u8>)>;

/// The name block labels are formed from: the current function's, or `fn`.
pub open spec fn label_owner(g: CodeGenerator) -> Seq<char> {
    match g.current_function {
        Some(f) => f@,
        None => "fn"@,
    }
}

/// `.L<function>_block_<id>`
pub open spec fn block_label(g: CodeGenerator, id: usize) -> Seq<char> {
    ".L"@ + label_owner(g) + "_block_"@ + dec_nat(id as nat)
}

/// A jump to block `id`.
pub open spec fn jump_lines(g: CodeGenerator, id: usize) -> Seq<Seq<char>> {
    spec_emit_lines("j "@ + block_label(g, id))
}

/// Leaving the function, as `emit_epilogue` does.
pub open spec fn epilogue_lines(g: CodeGenerator) -> Seq<Seq<char>> {
    match g.current_function {
        Some(f) => spec_emit_lines("j .L"@ + f@ + "_epilogue"@),
        None => epilogue_body_lines(g.frame_size as int),
    }
}

/// The argument register `a<i>`.
pub open spec fn arg_register(i: nat) -> Seq<char> {
    "a"@ + dec_nat(i)
}

/// The first `n` tuple fields, each announced and loaded into its argument
/// register, with the constant pool after them.
pub open spec fn tuple_field_lines(fields: Seq<IrOperand>, n: nat, pool: Pool) -> (Seq<Seq<char>>, Pool)
    decreases n,
{
    if n == 0 {
        (Seq::empty(), pool)
    } else {
        let i = (n - 1) as nat;
        let prev = tuple_field_lines(fields, i, pool);
        (
            prev.0 + spec_emit_lines("# cellscript abi: return tuple field ."@ + dec_nat(i) + " via a"@ + dec_nat(i))
                + operand_load_lines(arg_register(i), fields[i as int], prev.1),
            operand_pool_after(fields[i as int], prev.1),
        )
    }
}

/// How many tuple fields travel in registers: at most eight.
pub open spec fn tuple_register_count(len: nat) -> nat {
    if len < 8 {
        len
    } else {
        8
    }
}

/// The tuple fields recorded for a returned variable, if any.
pub open spec fn returned_tuple(g: CodeGenerator, op: IrOperand) -> Option<Seq<IrOperand>> {
    match op {
        IrOperand::Var(v) => if g.tuple_aggregate_fields@.contains_key(v.id) {
            Some(g.tuple_aggregate_fields@[v.id]@)
        } else {
            None
        },
        _ => None,
    }
}

/// A lock entry's result check: zero passes, anything else fails the
/// predicate with `f`'s code.
pub open spec fn lock_result_lines(g: CodeGenerator, f: RuntimeFailure) -> Seq<Seq<char>> {
    let ok = label_text("lock_predicate_true"@, g.next_runtime_label as nat);
    spec_emit_lines("bnez a0, "@ + ok) + error_comment_lines(f) + spec_emit_lines(li_body("a0"@, f.code as int))
        + epilogue_lines(g) + label_lines(ok) + spec_emit_lines("li a0, 0"@) + epilogue_lines(g)
}

/// What returning `op` emits, and the constant pool after it.
pub open spec fn return_lines(g: CodeGenerator, op: IrOperand, f: RuntimeFailure) -> (Seq<Seq<char>>, Pool) {
    match returned_tuple(g, op) {
        Some(fields) => {
            let head = spec_emit_lines(
                "# cellscript abi: return tuple aggregate var"@ + dec_nat(op->Var_0.id as nat) + " fields="@ + dec_nat(
                    fields.len(),
                ),
            ) + if fields.len() == 0 {
                spec_emit_lines("li a0, 0"@)
            } else {
                Seq::empty()
            };
            let loads = tuple_field_lines(fields, tuple_register_count(fields.len()), g.pool());
            (head + loads.0 + epilogue_lines(g), loads.1)
        },
        None => {
            let load = operand_load_lines("a0"@, op, g.pool());
            let rest = if g.current_lock_entry {
                lock_result_lines(g, f)
            } else {
                epilogue_lines(g)
            };
            (load + rest, operand_pool_after(op, g.pool()))
        },
    }
}

/// A constant branch condition's truth, when it has one.
pub open spec fn const_truth(c: IrConst) -> Option<bool> {
    match c {
        IrConst::Bool(b) => Some(b),
        IrConst::U8(n) => Some(n != 0),
        IrConst::U16(n) => Some(n != 0),
        IrConst::U32(n) => Some(n != 0),
        IrConst::U64(n) => Some(n != 0),
        _ => None,
    }
}

/// What a branch emits: a direct jump on a constant condition, a test of
/// the condition's slot otherwise; u128 and other constants fail closed.
pub open spec fn branch_lines(g: CodeGenerator, cond: IrOperand, then_id: usize, else_id: usize, f: RuntimeFailure) -> Seq<Seq<char>> {
    match cond {
        IrOperand::Var(v) => if v.ty is U128 {
            spec_emit_lines("# cellscript abi: fail closed because u128 cannot be used as a branch condition"@) + fail_lines(g, f)
        } else {
            stack_access_lines("ld"@, "t0"@, v.id * 8) + spec_emit_lines("beqz t0, "@ + block_label(g, else_id)) + jump_lines(
                g,
                then_id,
            )
        },
        IrOperand::Const(c) => match const_truth(c) {
            Some(t) => jump_lines(g, if t { then_id } else { else_id }),
            None => spec_emit_lines(
                "# cellscript abi: fail closed because branch condition is not a boolean or integer"@,
            ) + fail_lines(g, f),
        },
    }
}

/// Whether a branch on `cond` reports a failure.
pub open spec fn branch_fails(cond: IrOperand) -> bool {
    match cond {
        IrOperand::Var(v) => v.ty is U128,
        IrOperand::Const(c) => const_truth(c) is None,
    }
}

/// What a terminator emits, and the constant pool after it.
pub open spec fn terminator_lines(g: CodeGenerator, t: IrTerminator, f: RuntimeFailure) -> (Seq<Seq<char>>, Pool) {
    match t {
        IrTerminator::Return(None) => (spec_emit_lines("li a0, 0"@) + epilogue_lines(g), g.pool()),
        IrTerminator::Return(Some(op)) => return_lines(g, op, f),
        IrTerminator::Jump(b) => (jump_lines(g, b.0), g.pool()),
        IrTerminator::Branch { cond, then_block, else_block } => (branch_lines(g, cond, then_block.0, else_block.0, f), g.pool()),
    }
}

/// The operands a terminator loads fit their stack slots.
pub open spec fn terminator_fits(g: CodeGenerator, t: IrTerminator) -> bool {
    match t {
        IrTerminator::Return(Some(op)) => {
            &&& operand_fits(op)
            &&& returned_tuple(g, op) matches Some(fields) ==> forall|i: int| 0 <= i < fields.len() ==> operand_fits(
                #[trigger] fields[i],
            )
        },
        IrTerminator::Branch { cond, .. } => operand_fits(cond),
        _ => true,
    }
}

/// Whether a terminator takes a label: a lock entry's plain return.
pub open spec fn terminator_labels(g: CodeGenerator, t: IrTerminator) -> int {
    match t {
        IrTerminator::Return(Some(op)) => if returned_tuple(g, op) is None && g.current_lock_entry {
            1
        } else {
            0
        },
        _ => 0,
    }
}

impl CodeGenerator {
    /// `j .L<function>_block_<id>`
    pub fn emit_jump_to_block(&mut self, id: usize)
        ensures
            final(self).text_appended(old(self), jump_lines(*old(self), id)),
    {
        let mut j = String::new();
        string_push_str(&mut j, "j ");
        self.push_block_label(&mut j, id);
        self.emit(j.as_str());
    }

    /// Appends `.L<function>_block_<id>` to `s`.
    fn push_block_label(&self, s: &mut String, id: usize)
        ensures
            final(s)@ == old(s)@ + block_label(*self, id),
    {
        string_push_str(s, ".L");
        match &self.current_function {
            Some(f) => string_push_str(s, f.as_str()),
            None => string_push_str(s, "fn"),
        }
        string_push_str(s, "_block_");
        push_decimal_u128(s, id as u128);
        assert(s@ =~= old(s)@ + block_label(*self, id));
    }
}

impl CodeGenerator {
    /// A branch: see `branch_lines`.
    pub fn emit_branch(&mut self, cond: &IrOperand, then_id: usize, else_id: usize, failure: &RuntimeFailure)
        requires
            can_fail(*old(self)),
            operand_fits(*cond),
        ensures
            final(self).lines() == old(self).lines() + branch_lines(*old(self), *cond, then_id, else_id, *failure),
            final(self).same_but_fail_codes(old(self)),
            final(self).next_runtime_label == old(self).next_runtime_label,
            final(self).const_data_entries == old(self).const_data_entries,
            final(self).fail_handler_codes@ == if branch_fails(*cond) {
                codes_after_fail(*old(self), *failure)
            } else {
                old(self).fail_handler_codes@
            },
    {
        let ghost l0 = self.lines();
        match cond {
            IrOperand::Const(c) => {
                let truth: Option<bool> = match c {
                    IrConst::Bool(b) => Some(*b),
                    IrConst::U8(n) => Some(*n != 0),
                    IrConst::U16(n) => Some(*n != 0),
                    IrConst::U32(n) => Some(*n != 0),
                    IrConst::U64(n) => Some(*n != 0),
                    _ => None,
                };
                match truth {
                    Some(t) => self.emit_jump_to_block(if t { then_id } else { else_id }),
                    None => {
                        let ghost note = spec_emit_lines(
                            "# cellscript abi: fail closed because branch condition is not a boolean or integer"@,
                        );
                        self.emit("# cellscript abi: fail closed because branch condition is not a boolean or integer");
                        self.emit_fail(failure);
                        proof {
                            lemma_join2(l0, note, fail_lines(*old(self), *failure));
                        }
                    },
                }
            },
            IrOperand::Var(v) => {
                if matches!(v.ty, IrType::U128) {
                    let ghost note = spec_emit_lines(
                        "# cellscript abi: fail closed because u128 cannot be used as a branch condition"@,
                    );
                    self.emit("# cellscript abi: fail closed because u128 cannot be used as a branch condition");
                    self.emit_fail(failure);
                    proof {
                        lemma_join2(l0, note, fail_lines(*old(self), *failure));
                    }
                } else {
                    let ghost load = stack_access_lines("ld"@, "t0"@, v.id * 8);
                    let mut beqz = String::new();
                    string_push_str(&mut beqz, "beqz t0, ");
                    self.push_block_label(&mut beqz, else_id);
                    let ghost test = spec_emit_lines(beqz@);
                    self.emit_stack_load("t0", v.id * 8);
                    self.emit(beqz.as_str());
                    self.emit_jump_to_block(then_id);
                    proof {
                        lemma_join3(l0, load, test, jump_lines(*old(self), then_id));
                    }
                }
            },
        }
    }

    /// A lock entry's result check: see `lock_result_lines`.
    #[verifier::rlimit(50)]
    fn emit_lock_result_check(&mut self, failure: &RuntimeFailure)
        requires
            can_fail(*old(self)),
            old(self).next_runtime_label < usize::MAX,
        ensures
            final(self).text_appended_labels(old(self), lock_result_lines(*old(self), *failure), 1),
    {
        let ghost l0 = self.lines();
        let ok_label = self.fresh_label("lock_predicate_true");
        let mut bnez = String::new();
        string_push_str(&mut bnez, "bnez a0, ");
        string_push_str(&mut bnez, ok_label.as_str());
        let ghost a = spec_emit_lines(bnez@);
        let ghost b = error_comment_lines(*failure);
        let ghost c = spec_emit_lines(li_body("a0"@, failure.code as int));
        let ghost d = epilogue_lines(*old(self));
        self.emit(bnez.as_str());
        self.emit_runtime_error_comment(failure);
        let li = mk_li("a0", failure.code as i128);
        self.emit(li.as_str());
        self.emit_epilogue();
        proof {
            lemma_join4(l0, a, b, c, d);
        }
        let ghost l1 = self.lines();
        let ghost e = label_lines(ok_label@);
        let ghost f = spec_emit_lines("li a0, 0"@);
        self.emit_label(ok_label.as_str());
        self.emit("li a0, 0");
        self.emit_epilogue();
        proof {
            lemma_join3(l1, e, f, d);
            assert(bnez@ =~= "bnez a0, "@ + label_text("lock_predicate_true"@, old(self).next_runtime_label as nat));
            assert(a + b + c + d + e + f + d =~= lock_result_lines(*old(self), *failure));
            vstd::seq_lib::lemma_concat_associative(l0, a + b + c + d, e + f + d);
            assert(a + b + c + d + (e + f + d) =~= a + b + c + d + e + f + d);
        }
    }

    /// Only text was appended and the label counter moved by `labels`.
    pub open spec fn text_appended_labels(&self, old: &CodeGenerator, added: Seq<Seq<char>>, labels: int) -> bool {
        &&& self.lines() == old.lines() + added
        &&& self.same_state(old)
        &&& self.next_runtime_label == old.next_runtime_label + labels
        &&& self.const_data_entries == old.const_data_entries
    }

    /// Returns `operand`: see `return_lines`.
    #[verifier::rlimit(50)]
    pub fn emit_return(&mut self, operand: &IrOperand, failure: &RuntimeFailure)
        requires
            can_fail(*old(self)),
            old(self).next_runtime_label < usize::MAX,
            terminator_fits(*old(self), IrTerminator::Return(Some(*operand))),
        ensures
            final(self).lines() == old(self).lines() + return_lines(*old(self), *operand, *failure).0,
            final(self).pool() == return_lines(*old(self), *operand, *failure).1,
            final(self).same_state(old(self)),
            final(self).next_runtime_label == old(self).next_runtime_label + terminator_labels(
                *old(self),
                IrTerminator::Return(Some(*operand)),
            ),
    {
        let ghost l0 = self.lines();
        if let IrOperand::Var(v) = operand {
            if self.tuple_aggregate_fields.contains_key(&v.id) {
                let ghost fields = old(self).tuple_aggregate_fields@[v.id]@;
                assert(returned_tuple(*old(self), *operand) == Some(fields));
                assert(terminator_fits(*old(self), IrTerminator::Return(Some(*operand))));
                assert forall|i: int| 0 <= i < fields.len() implies operand_fits(#[trigger] fields[i]) by {
                    assert(returned_tuple(*old(self), *operand) matches Some(fs) ==> forall|j: int| 0 <= j < fs.len()
                        ==> operand_fits(#[trigger] fs[j]));
                }
                self.emit_tuple_return(v.id);
                return;
            }
        }
        let ghost load = operand_load_lines("a0"@, *operand, old(self).pool());
        self.emit_operand_to_register("a0", operand);
        let ghost l1 = self.lines();
        if self.current_lock_entry {
            self.emit_lock_result_check(failure);
            proof {
                lemma_join2(l0, load, lock_result_lines(*old(self), *failure));
            }
        } else {
            self.emit_epilogue();
            proof {
                lemma_join2(l0, load, epilogue_lines(*old(self)));
            }
        }
    }

    /// Returns the recorded fields of tuple `id` in the argument registers.
    #[verifier::rlimit(50)]
    fn emit_tuple_return(&mut self, id: usize)
        requires
            can_fail(*old(self)),
            old(self).tuple_aggregate_fields@.contains_key(id),
            forall|i: int| 0 <= i < old(self).tuple_aggregate_fields@[id]@.len() ==> operand_fits(
                #[trigger] old(self).tuple_aggregate_fields@[id]@[i],
            ),
        ensures
            ({
                let fields = old(self).tuple_aggregate_fields@[id]@;
                let loads = tuple_field_lines(fields, tuple_register_count(fields.len()), old(self).pool());
                &&& final(self).lines() == old(self).lines() + (spec_emit_lines(
                    "# cellscript abi: return tuple aggregate var"@ + dec_nat(id as nat) + " fields="@ + dec_nat(fields.len()),
                ) + if fields.len() == 0 {
                    spec_emit_lines("li a0, 0"@)
                } else {
                    Seq::empty()
                } + loads.0 + epilogue_lines(*old(self)))
                &&& final(self).pool() == loads.1
            }),
            final(self).same_state(old(self)),
            final(self).next_runtime_label == old(self).next_runtime_label,
    {
        let ghost l0 = self.lines();
        let ghost pool0 = old(self).pool();
        let mut saved: HashMap<usize, Vec<IrOperand>> = HashMap::new();
        std::mem::swap(&mut saved, &mut self.tuple_aggregate_fields);
        let fields: &Vec<IrOperand> = saved.get(&id).unwrap();
        assert(fields@ == old(self).tuple_aggregate_fields@[id]@);
        let mut head = String::new();
        string_push_str(&mut head, "# cellscript abi: return tuple aggregate var");
        push_decimal_u128(&mut head, id as u128);
        string_push_str(&mut head, " fields=");
        push_decimal_u128(&mut head, fields.len() as u128);
        let ghost h1 = spec_emit_lines(head@);
        let ghost h2 = if fields@.len() == 0 {
            spec_emit_lines("li a0, 0"@)
        } else {
            Seq::<Seq<char>>::empty()
        };
        self.emit(head.as_str());
        if fields.len() == 0 {
            self.emit("li a0, 0");
        } else {
            assert(self.lines() =~= self.lines() + h2);
        }
        proof {
            lemma_join2(l0, h1, h2);
        }
        let ghost lbase = self.lines();
        let ghost mid = *self;
        let count: usize = if fields.len() < 8 {
            fields.len()
        } else {
            8
        };
        let mut index: usize = 0;
        assert(lbase + tuple_field_lines(fields@, 0, pool0).0 =~= lbase);
        while index < count
            invariant
                index <= count,
                count == tuple_register_count(fields@.len() as nat),
                count <= fields@.len(),
                forall|i: int| 0 <= i < fields@.len() ==> operand_fits(#[trigger] fields@[i]),
                self.lines() == lbase + tuple_field_lines(fields@, index as nat, pool0).0,
                self.pool() == tuple_field_lines(fields@, index as nat, pool0).1,
                self.same_state(&mid),
                self.next_runtime_label == mid.next_runtime_label,
            decreases count - index,
        {
            let ghost prev = tuple_field_lines(fields@, index as nat, pool0);
            let mut note = String::new();
            string_push_str(&mut note, "# cellscript abi: return tuple field .");
            push_decimal_u128(&mut note, index as u128);
            string_push_str(&mut note, " via a");
            push_decimal_u128(&mut note, index as u128);
            let mut reg = String::new();
            string_push_str(&mut reg, "a");
            push_decimal_u128(&mut reg, index as u128);
            let ghost c = spec_emit_lines(note@);
            let ghost ld = operand_load_lines(reg@, fields@[index as int], prev.1);
            self.emit(note.as_str());
            self.emit_operand_to_register(reg.as_str(), &fields[index]);
            proof {
                lemma_join3(lbase, prev.0, c, ld);
                assert(note@ =~= "# cellscript abi: return tuple field ."@ + dec_nat(index as nat) + " via a"@ + dec_nat(
                    index as nat,
                ));
                assert(reg@ =~= arg_register(index as nat));
            }
            index = index + 1;
        }
        let ghost loads = tuple_field_lines(fields@, count as nat, pool0);
        std::mem::swap(&mut saved, &mut self.tuple_aggregate_fields);
        self.emit_epilogue();
        proof {
            lemma_join3(l0, h1 + h2, loads.0, epilogue_lines(*old(self)));
            assert(h1 + h2 + loads.0 + epilogue_lines(*old(self)) =~= (spec_emit_lines(
                "# cellscript abi: return tuple aggregate var"@ + dec_nat(id as nat) + " fields="@ + dec_nat(fields@.len()),
            ) + h2 + loads.0 + epilogue_lines(*old(self))));
        }
    }

    /// Emits a block terminator: see `terminator_lines`. A lock entry's
    /// false result and an unusable branch condition report
    /// `assertion_failed`.
    pub fn generate_terminator(&mut self, terminator: &IrTerminator, assertion_failed: &RuntimeFailure) -> (r: Result<(), CompileError>)
        requires
            can_fail(*old(self)),
            old(self).next_runtime_label < usize::MAX,
            terminator_fits(*old(self), *terminator),
        ensures
            r is Ok,
            final(self).lines() == old(self).lines() + terminator_lines(*old(self), *terminator, *assertion_failed).0,
            final(self).pool() == terminator_lines(*old(self), *terminator, *assertion_failed).1,
            final(self).same_but_fail_codes(old(self)),
            final(self).next_runtime_label == old(self).next_runtime_label + terminator_labels(*old(self), *terminator),
            final(self).fail_handler_codes@ == match *terminator {
                IrTerminator::Branch { cond, .. } => if branch_fails(cond) {
                    codes_after_fail(*old(self), *assertion_failed)
                } else {
                    old(self).fail_handler_codes@
                },
                _ => old(self).fail_handler_codes@,
            },
    {
        match terminator {
            IrTerminator::Return(None) => {
                let ghost l0 = self.lines();
                self.emit("li a0, 0");
                self.emit_epilogue();
                proof {
                    lemma_join2(l0, spec_emit_lines("li a0, 0"@), epilogue_lines(*old(self)));
                }
            },
            IrTerminator::Return(Some(operand)) => self.emit_return(operand, assertion_failed),
            IrTerminator::Jump(block) => self.emit_jump_to_block(block.0),
            IrTerminator::Branch { cond, then_block, else_block } => {
                self.emit_branch(cond, then_block.0, else_block.0, assertion_failed)
            },
        }
        Ok(())
    }
}

} // verus!
