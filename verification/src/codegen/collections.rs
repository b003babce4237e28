//! Collections kept on the stack: the variable's slot holds a pointer to the
//! elements, and the length sits in the word just below them.

use vstd::prelude::*;
use crate::codegen::calls::operand_slot_fits;
use crate::codegen::generator::{
    label_text, large_addi_lines_spec, sp_addi_lines, stack_access_lines, CodeGenerator, RUNTIME_COLLECTION_BUFFER_SIZE,
    RUNTIME_EXPR_TEMP_SIZE, RUNTIME_SCRATCH_SIZE,
};
use crate::codegen::lines::{lemma_join2, lemma_join3, lemma_join4, li_body, mem_body, mk_li, mk_mem, spec_emit_lines};
use crate::codegen::operands::{operand_comment_text, operand_load_lines, operand_pool_after};
use crate::codegen::runtime::{four_lines, label_line, two_lines};
use crate::codegen::widths::{molecule_vector_element_fixed_width, opt_usize, spec_vector_element_width};
use crate::error::CompileError;
use crate::ir::{IrOperand, IrType, IrVar};
use crate::text::{dec_nat, push_decimal_u128, string_push_str};

verus! {

broadcast use vstd::std_specs::btree::group_btree_axioms;

/// The element width of a stack collection variable's vector type, if fixed.
pub open spec fn collection_width(g: CodeGenerator, operand: IrOperand) -> Option<int> {
    spec_vector_element_width(operand->Var_0.ty, g.type_fixed_sizes, g.enum_fixed_sizes)
}

/// `comment` followed by a decimal number.
pub open spec fn numbered(comment: Seq<char>, n: int) -> Seq<char> {
    comment + dec_nat(n as nat)
}

/// Storing the capacity of a collection with `w`-byte elements in slot `id`.
pub open spec fn capacity_lines(id: int, w: int) -> Seq<Seq<char>> {
    spec_emit_lines(numbered("# cellscript abi: stack collection capacity element_size="@, w)) + spec_emit_lines(
        li_body("t0"@, RUNTIME_COLLECTION_BUFFER_SIZE as int / w),
    ) + stack_access_lines("sd"@, "t0"@, id * 8)
}

/// Offset of expression temporary `depth` in a frame of `fs` bytes.
pub open spec fn temp_offset(fs: int, depth: int) -> int {
    fs - 16 - RUNTIME_SCRATCH_SIZE - RUNTIME_EXPR_TEMP_SIZE + depth * 8
}

/// Swapping byte `b` of the elements at `t5` and `t6`.
pub open spec fn swap_byte_lines(b: int) -> Seq<Seq<char>> {
    if b <= 2047 {
        spec_emit_lines(mem_body("lbu"@, "t0"@, b, "t5"@)) + spec_emit_lines(mem_body("lbu"@, "t1"@, b, "t6"@))
            + spec_emit_lines(mem_body("sb"@, "t1"@, b, "t5"@)) + spec_emit_lines(mem_body("sb"@, "t0"@, b, "t6"@))
    } else {
        large_addi_lines_spec("t2"@, "t5"@, b) + large_addi_lines_spec("t3"@, "t6"@, b) + four_lines(
            "lbu t0, 0(t2)"@,
            "lbu t1, 0(t3)"@,
            "sb t1, 0(t2)"@,
            "sb t0, 0(t3)"@,
        )
    }
}

/// Swapping the first `k` bytes of the elements at `t5` and `t6`.
pub open spec fn swap_bytes_lines(k: int) -> Seq<Seq<char>>
    decreases k,
{
    if k <= 0 {
        Seq::empty()
    } else {
        swap_bytes_lines(k - 1) + swap_byte_lines(k - 1)
    }
}

/// Loading the length of the collection in slot `id`, skipping to `done` below two elements.
pub open spec fn reverse_head_lines(id: int, w: int, done: Seq<char>) -> Seq<Seq<char>> {
    spec_emit_lines(numbered("# cellscript abi: stack collection reverse element_size="@, w)) + stack_access_lines(
        "ld"@,
        "t4"@,
        id * 8,
    ) + spec_emit_lines("ld t0, -8(t4)"@) + two_lines("li t1, 2"@, "sltu t2, t0, t1"@) + spec_emit_lines("bnez t2, "@ + done)
}

/// Setting the left index to zero and the right index to the last element.
pub open spec fn reverse_init_lines(left: int, right: int) -> Seq<Seq<char>> {
    stack_access_lines("sd"@, "zero"@, left) + spec_emit_lines("addi t0, t0, -1"@) + stack_access_lines("sd"@, "t0"@, right)
}

/// The loop test, and the addresses of the left and right elements in `t5` and `t6`.
pub open spec fn reverse_test_lines(id: int, w: int, left: int, right: int, lp: Seq<char>, done: Seq<char>) -> Seq<Seq<char>> {
    label_line(lp) + stack_access_lines("ld"@, "t0"@, left) + stack_access_lines("ld"@, "t1"@, right) + two_lines(
        "sltu t2, t0, t1"@,
        "beqz t2, "@ + done,
    ) + stack_access_lines("ld"@, "t4"@, id * 8) + spec_emit_lines(li_body("t3"@, w)) + four_lines(
        "mul t5, t0, t3"@,
        "add t5, t4, t5"@,
        "mul t6, t1, t3"@,
        "add t6, t4, t6"@,
    )
}

/// `reg = reg op` on the word at `offset(sp)`.
pub open spec fn update_word_lines(reg: Seq<char>, offset: int, op: Seq<char>) -> Seq<Seq<char>> {
    stack_access_lines("ld"@, reg, offset) + spec_emit_lines(op) + stack_access_lines("sd"@, reg, offset)
}

/// Swapping the two elements, moving both indices inward, and looping.
pub open spec fn reverse_step_lines(w: int, left: int, right: int, lp: Seq<char>, done: Seq<char>) -> Seq<Seq<char>> {
    spec_emit_lines(numbered("# cellscript abi: stack collection reverse swap element_size="@, w)) + swap_bytes_lines(w)
        + update_word_lines("t0"@, left, "addi t0, t0, 1"@) + update_word_lines("t1"@, right, "addi t1, t1, -1"@)
        + spec_emit_lines("j "@ + lp) + label_line(done)
}

/// Reversing the stack collection in slot `id` in place, element by element.
pub open spec fn reverse_lines(id: int, w: int, fs: int, n: nat) -> Seq<Seq<char>> {
    let done = label_text("stack_collection_reverse_done"@, n);
    let lp = label_text("stack_collection_reverse_loop"@, n + 1);
    let left = temp_offset(fs, 0);
    let right = temp_offset(fs, 1);
    reverse_head_lines(id, w, done) + reverse_init_lines(left, right) + reverse_test_lines(id, w, left, right, lp, done)
        + reverse_step_lines(w, left, right, lp, done)
}

/// Whether `emit_stack_collection_capacity` applies: a `u64` destination and a
/// stack collection whose elements have a fixed nonzero width.
pub open spec fn capacity_applies(g: CodeGenerator, dest: IrVar, collection: IrOperand) -> bool {
    &&& dest.ty is U64
    &&& g.on_stack(collection)
    &&& collection_width(g, collection) is Some
    &&& collection_width(g, collection)->0 != 0
}

/// Whether `emit_stack_collection_reverse` applies: a stack collection whose
/// elements have a fixed width between one byte and the whole buffer.
pub open spec fn reverse_applies(g: CodeGenerator, collection: IrOperand) -> bool {
    &&& g.on_stack(collection)
    &&& collection_width(g, collection) is Some
    &&& 0 < collection_width(g, collection)->0 <= RUNTIME_COLLECTION_BUFFER_SIZE
}

/// Bytes of one stack collection slot: the length word and the buffer.
pub open spec fn collection_slot_size() -> int {
    8 + RUNTIME_COLLECTION_BUFFER_SIZE
}

/// Creating a stack collection in slot `slot` of the region at `start` and
/// pointing variable `id` at its buffer.
pub open spec fn collection_new_lines(id: int, ty: Seq<char>, capacity: Option<IrOperand>, start: int, slot: int) -> Seq<Seq<char>> {
    let length_offset = start + collection_slot_size() * slot;
    let buffer_offset = length_offset + 8;
    spec_emit_lines("# collection new "@ + ty) + spec_emit_lines(
        numbered("# cellscript abi: stack collection buffer_offset="@, buffer_offset) + " max_size=256"@,
    ) + match capacity {
        Some(c) => spec_emit_lines("# cellscript abi: stack collection with_capacity uses fixed backing buffer"@)
            + spec_emit_lines("#   "@ + operand_comment_text("capacity"@, c)),
        None => Seq::empty(),
    } + stack_access_lines("sd"@, "zero"@, length_offset) + sp_addi_lines("t0"@, buffer_offset) + stack_access_lines(
        "sd"@,
        "t0"@,
        id * 8,
    )
}

impl CodeGenerator {
    /// Whether an operand is a variable whose collection is on the stack.
    pub open spec fn on_stack(&self, operand: IrOperand) -> bool {
        operand matches IrOperand::Var(v) && self.stack_collection_vars@.contains(v.id)
    }

    fn is_stack_collection(&self, operand: &IrOperand) -> (r: bool)
        ensures
            r == self.on_stack(*operand),
    {
        match operand {
            IrOperand::Var(var) => self.stack_collection_vars.contains(&var.id),
            IrOperand::Const(_) => false,
        }
    }

    /// Loads the length of a stack collection into `t0`; `false`, with nothing
    /// emitted, for any other operand.
    pub fn emit_stack_collection_length(&mut self, operand: &IrOperand) -> (r: bool)
        requires
            operand_slot_fits(*operand),
        ensures
            r == old(self).on_stack(*operand),
            final(self).text_appended(
                old(self),
                if r {
                    spec_emit_lines("# cellscript abi: stack collection length"@) + stack_access_lines(
                        "ld"@,
                        "t4"@,
                        operand->Var_0.id * 8,
                    ) + spec_emit_lines("ld t0, -8(t4)"@)
                } else {
                    Seq::empty()
                },
            ),
    {
        if !self.is_stack_collection(operand) {
            assert(self.lines() =~= old(self).lines() + Seq::<Seq<char>>::empty());
            return false;
        }
        let id = match operand {
            IrOperand::Var(var) => var.id,
            IrOperand::Const(_) => 0,
        };
        self.emit("# cellscript abi: stack collection length");
        self.emit_stack_load("t4", id * 8);
        self.emit("ld t0, -8(t4)");
        assert(self.lines() =~= old(self).lines() + (spec_emit_lines("# cellscript abi: stack collection length"@) + stack_access_lines(
            "ld"@,
            "t4"@,
            id * 8,
        ) + spec_emit_lines("ld t0, -8(t4)"@)));
        true
    }

    /// Sets the length of a stack collection to zero; `false`, with nothing
    /// emitted, for any other operand.
    pub fn emit_stack_collection_clear(&mut self, collection: &IrOperand) -> (r: bool)
        requires
            operand_slot_fits(*collection),
        ensures
            r == old(self).on_stack(*collection),
            final(self).text_appended(
                old(self),
                if r {
                    spec_emit_lines("# cellscript abi: stack collection clear"@) + stack_access_lines(
                        "ld"@,
                        "t4"@,
                        collection->Var_0.id * 8,
                    ) + spec_emit_lines("sd zero, -8(t4)"@)
                } else {
                    Seq::empty()
                },
            ),
    {
        if !self.is_stack_collection(collection) {
            assert(self.lines() =~= old(self).lines() + Seq::<Seq<char>>::empty());
            return false;
        }
        let id = match collection {
            IrOperand::Var(var) => var.id,
            IrOperand::Const(_) => 0,
        };
        self.emit("# cellscript abi: stack collection clear");
        self.emit_stack_load("t4", id * 8);
        self.emit("sd zero, -8(t4)");
        assert(self.lines() =~= old(self).lines() + (spec_emit_lines("# cellscript abi: stack collection clear"@) + stack_access_lines(
            "ld"@,
            "t4"@,
            id * 8,
        ) + spec_emit_lines("sd zero, -8(t4)"@)));
        true
    }

    /// A comment, the collection pointer of slot `id` in `t4`, and one access through it.
    fn emit_stack_collection_access(&mut self, comment: &str, id: usize, access: &str)
        requires
            id * 8 <= i64::MAX,
            id * 8 <= usize::MAX,
        ensures
            final(self).text_appended(old(self), collection_access_lines(comment@, id as int, access@)),
    {
        let ghost l0 = self.lines();
        self.emit(comment);
        self.emit_stack_load("t4", id * 8);
        self.emit(access);
        assert(self.lines() =~= l0 + collection_access_lines(comment@, id as int, access@));
    }

    /// Skips to `done` unless the length in `t0` exceeds `t1`, then stores `t1` as the length.
    fn emit_truncate_tail(&mut self, done: &str)
        ensures
            final(self).text_appended(old(self), truncate_tail_lines(done@)),
    {
        let ghost l0 = self.lines();
        self.emit("sltu t2, t0, t1");
        let mut branch = String::new();
        string_push_str(&mut branch, "bnez t2, ");
        string_push_str(&mut branch, done);
        self.emit(branch.as_str());
        self.emit("sd t1, -8(t4)");
        self.emit_label(done);
        assert(self.lines() =~= l0 + truncate_tail_lines(done@));
    }

    /// Shortens a stack collection to `len` elements when it is longer;
    /// `false`, with nothing emitted, for any other operand.
    pub fn emit_stack_collection_truncate(&mut self, collection: &IrOperand, len: &IrOperand) -> (r: bool)
        requires
            operand_slot_fits(*collection),
            operand_slot_fits(*len),
            old(self).next_runtime_label < usize::MAX,
        ensures
            r == old(self).on_stack(*collection),
            r ==> final(self).lines() == old(self).lines() + truncate_collection_lines(
                collection->Var_0.id as int,
                *len,
                old(self).pool(),
                label_text("stack_collection_truncate_done"@, old(self).next_runtime_label as nat),
            ),
            r ==> final(self).pool() == operand_pool_after(*len, old(self).pool()),
            r ==> final(self).next_runtime_label == old(self).next_runtime_label + 1,
            !r ==> final(self).text_appended(old(self), Seq::empty()),
            final(self).same_state(old(self)),
    {
        if !self.is_stack_collection(collection) {
            assert(self.lines() =~= old(self).lines() + Seq::<Seq<char>>::empty());
            return false;
        }
        let id = match collection {
            IrOperand::Var(var) => var.id,
            IrOperand::Const(_) => 0,
        };
        self.emit_stack_collection_access("# cellscript abi: stack collection truncate", id, "ld t0, -8(t4)");
        self.emit_operand_to_register("t1", len);
        let done_label = self.fresh_label("stack_collection_truncate_done");
        self.emit_truncate_tail(done_label.as_str());
        assert(self.lines() =~= old(self).lines() + truncate_collection_lines(
            id as int,
            *len,
            old(self).pool(),
            label_text("stack_collection_truncate_done"@, old(self).next_runtime_label as nat),
        ));
        true
    }
}

/// A comment, the collection pointer of slot `id` in `t4`, and one access through it.
pub open spec fn collection_access_lines(comment: Seq<char>, id: int, access: Seq<char>) -> Seq<Seq<char>> {
    spec_emit_lines(comment) + stack_access_lines("ld"@, "t4"@, id * 8) + spec_emit_lines(access)
}

/// The conditional store that ends a truncation.
pub open spec fn truncate_tail_lines(done: Seq<char>) -> Seq<Seq<char>> {
    spec_emit_lines("sltu t2, t0, t1"@) + spec_emit_lines("bnez t2, "@ + done) + spec_emit_lines("sd t1, -8(t4)"@) + seq![done + ":"@]
}

/// Truncating the stack collection in slot `id` to `len`, skipping to
/// `done` when it is already no longer.
pub open spec fn truncate_collection_lines(id: int, len: IrOperand, pool: Seq<(Seq<char>, Seq<u8>)>, done: Seq<char>) -> Seq<Seq<char>> {
    collection_access_lines("# cellscript abi: stack collection truncate"@, id, "ld t0, -8(t4)"@) + operand_load_lines("t1"@, len, pool)
        + truncate_tail_lines(done)
}

impl CodeGenerator {
    /// `comment` followed by the decimal `n`, as one emitted instruction.
    fn emit_numbered(&mut self, comment: &str, n: usize)
        ensures
            final(self).text_appended(old(self), spec_emit_lines(numbered(comment@, n as int))),
    {
        let mut line = String::new();
        string_push_str(&mut line, comment);
        push_decimal_u128(&mut line, n as u128);
        self.emit(line.as_str());
    }

    /// `op` followed by a label, as one emitted instruction.
    fn emit_to_label(&mut self, op: &str, label: &str)
        ensures
            final(self).text_appended(old(self), spec_emit_lines(op@ + label@)),
    {
        let mut line = String::new();
        string_push_str(&mut line, op);
        string_push_str(&mut line, label);
        self.emit(line.as_str());
    }

    /// Stores the number of elements a stack collection's buffer holds into
    /// `dest`; `false`, with nothing emitted, unless the destination is a
    /// `u64` and the collection a stack collection of fixed-width elements.
    pub fn emit_stack_collection_capacity(&mut self, dest: &IrVar, collection: &IrOperand) -> (r: bool)
        requires
            dest.id * 8 <= i64::MAX,
            dest.id * 8 <= usize::MAX,
        ensures
            r == capacity_applies(*old(self), *dest, *collection),
            final(self).text_appended(
                old(self),
                if r {
                    capacity_lines(dest.id as int, collection_width(*old(self), *collection)->0)
                } else {
                    Seq::empty()
                },
            ),
    {
        let is_u64 = match dest.ty {
            IrType::U64 => true,
            _ => false,
        };
        if !is_u64 || !self.is_stack_collection(collection) {
            assert(self.lines() =~= old(self).lines() + Seq::<Seq<char>>::empty());
            return false;
        }
        let ty = match collection {
            IrOperand::Var(var) => &var.ty,
            IrOperand::Const(_) => {
                assert(false);
                return false;
            },
        };
        let width = match molecule_vector_element_fixed_width(ty, &self.type_fixed_sizes, &self.enum_fixed_sizes) {
            Some(w) => w,
            None => {
                assert(self.lines() =~= old(self).lines() + Seq::<Seq<char>>::empty());
                return false;
            },
        };
        if width == 0 {
            assert(self.lines() =~= old(self).lines() + Seq::<Seq<char>>::empty());
            return false;
        }
        let ghost l0 = self.lines();
        self.emit_numbered("# cellscript abi: stack collection capacity element_size=", width);
        let li = mk_li("t0", (RUNTIME_COLLECTION_BUFFER_SIZE / width) as i128);
        self.emit(li.as_str());
        self.emit_stack_store("t0", dest.id * 8);
        proof {
            lemma_join3(
                l0,
                spec_emit_lines(numbered("# cellscript abi: stack collection capacity element_size="@, width as int)),
                spec_emit_lines(li_body("t0"@, RUNTIME_COLLECTION_BUFFER_SIZE as int / width as int)),
                stack_access_lines("sd"@, "t0"@, dest.id * 8),
            );
        }
        true
    }

    fn emit_update_word(&mut self, reg: &str, offset: usize, op: &str)
        requires
            offset <= i64::MAX,
        ensures
            final(self).text_appended(old(self), update_word_lines(reg@, offset as int, op@)),
    {
        let ghost l0 = self.lines();
        self.emit_stack_load(reg, offset);
        self.emit(op);
        self.emit_stack_store(reg, offset);
        proof {
            lemma_join3(l0, stack_access_lines("ld"@, reg@, offset as int), spec_emit_lines(op@), stack_access_lines("sd"@, reg@, offset as int));
        }
    }

    fn emit_reverse_head(&mut self, id: usize, w: usize, done: &str)
        requires
            id * 8 <= i64::MAX,
            id * 8 <= usize::MAX,
        ensures
            final(self).text_appended(old(self), reverse_head_lines(id as int, w as int, done@)),
    {
        let ghost l0 = self.lines();
        self.emit_numbered("# cellscript abi: stack collection reverse element_size=", w);
        self.emit_stack_load("t4", id * 8);
        self.emit("ld t0, -8(t4)");
        self.emit2("li t1, 2", "sltu t2, t0, t1");
        self.emit_to_label("bnez t2, ", done);
        proof {
            crate::codegen::lines::lemma_join5(
                l0,
                spec_emit_lines(numbered("# cellscript abi: stack collection reverse element_size="@, w as int)),
                stack_access_lines("ld"@, "t4"@, id * 8),
                spec_emit_lines("ld t0, -8(t4)"@),
                two_lines("li t1, 2"@, "sltu t2, t0, t1"@),
                spec_emit_lines("bnez t2, "@ + done@),
            );
        }
    }

    fn emit_reverse_init(&mut self, left: usize, right: usize)
        requires
            left <= i64::MAX,
            right <= i64::MAX,
        ensures
            final(self).text_appended(old(self), reverse_init_lines(left as int, right as int)),
    {
        let ghost l0 = self.lines();
        self.emit_stack_store("zero", left);
        self.emit("addi t0, t0, -1");
        self.emit_stack_store("t0", right);
        proof {
            lemma_join3(l0, stack_access_lines("sd"@, "zero"@, left as int), spec_emit_lines("addi t0, t0, -1"@), stack_access_lines("sd"@, "t0"@, right as int));
        }
    }

    fn emit_reverse_loop_test(&mut self, left: usize, right: usize, lp: &str, done: &str)
        requires
            left <= i64::MAX,
            right <= i64::MAX,
        ensures
            final(self).text_appended(
                old(self),
                label_line(lp@) + stack_access_lines("ld"@, "t0"@, left as int) + stack_access_lines("ld"@, "t1"@, right as int)
                    + two_lines("sltu t2, t0, t1"@, "beqz t2, "@ + done@),
            ),
    {
        let ghost l0 = self.lines();
        self.emit_label(lp);
        self.emit_stack_load("t0", left);
        self.emit_stack_load("t1", right);
        let ghost l1 = self.lines();
        self.emit("sltu t2, t0, t1");
        self.emit_to_label("beqz t2, ", done);
        proof {
            lemma_join2(l1, spec_emit_lines("sltu t2, t0, t1"@), spec_emit_lines("beqz t2, "@ + done@));
            lemma_join4(
                l0,
                label_line(lp@),
                stack_access_lines("ld"@, "t0"@, left as int),
                stack_access_lines("ld"@, "t1"@, right as int),
                two_lines("sltu t2, t0, t1"@, "beqz t2, "@ + done@),
            );
        }
    }

    fn emit_reverse_addresses(&mut self, id: usize, w: usize)
        requires
            id * 8 <= i64::MAX,
            id * 8 <= usize::MAX,
            w <= RUNTIME_COLLECTION_BUFFER_SIZE,
        ensures
            final(self).text_appended(
                old(self),
                stack_access_lines("ld"@, "t4"@, id * 8) + spec_emit_lines(li_body("t3"@, w as int)) + four_lines(
                    "mul t5, t0, t3"@,
                    "add t5, t4, t5"@,
                    "mul t6, t1, t3"@,
                    "add t6, t4, t6"@,
                ),
            ),
    {
        let ghost l0 = self.lines();
        self.emit_stack_load("t4", id * 8);
        let li = mk_li("t3", w as i128);
        self.emit(li.as_str());
        self.emit4("mul t5, t0, t3", "add t5, t4, t5", "mul t6, t1, t3", "add t6, t4, t6");
        proof {
            lemma_join3(
                l0,
                stack_access_lines("ld"@, "t4"@, id * 8),
                spec_emit_lines(li_body("t3"@, w as int)),
                four_lines("mul t5, t0, t3"@, "add t5, t4, t5"@, "mul t6, t1, t3"@, "add t6, t4, t6"@),
            );
        }
    }

    fn emit_swap_byte(&mut self, b: usize)
        requires
            b <= i64::MAX,
        ensures
            final(self).text_appended(old(self), swap_byte_lines(b as int)),
    {
        let ghost l0 = self.lines();
        if b <= 2047 {
            let x1 = mk_mem("lbu", "t0", b as i128, "t5");
            let x2 = mk_mem("lbu", "t1", b as i128, "t6");
            let x3 = mk_mem("sb", "t1", b as i128, "t5");
            let x4 = mk_mem("sb", "t0", b as i128, "t6");
            self.emit4(x1.as_str(), x2.as_str(), x3.as_str(), x4.as_str());
            proof {
                lemma_join2(two_lines(x1@, x2@), spec_emit_lines(x3@), spec_emit_lines(x4@));
            }
        } else {
            self.emit_large_addi("t2", "t5", b as i64);
            self.emit_large_addi("t3", "t6", b as i64);
            self.emit4("lbu t0, 0(t2)", "lbu t1, 0(t3)", "sb t1, 0(t2)", "sb t0, 0(t3)");
            proof {
                lemma_join3(
                    l0,
                    large_addi_lines_spec("t2"@, "t5"@, b as int),
                    large_addi_lines_spec("t3"@, "t6"@, b as int),
                    four_lines("lbu t0, 0(t2)"@, "lbu t1, 0(t3)"@, "sb t1, 0(t2)"@, "sb t0, 0(t3)"@),
                );
            }
        }
    }

    fn emit_swap_bytes(&mut self, w: usize)
        requires
            w <= RUNTIME_COLLECTION_BUFFER_SIZE,
        ensures
            final(self).text_appended(old(self), swap_bytes_lines(w as int)),
    {
        let mut b: usize = 0;
        assert(self.lines() =~= old(self).lines() + swap_bytes_lines(0));
        while b < w
            invariant
                b <= w <= RUNTIME_COLLECTION_BUFFER_SIZE,
                self.text_appended(old(self), swap_bytes_lines(b as int)),
            decreases w - b,
        {
            self.emit_swap_byte(b);
            proof {
                lemma_join2(old(self).lines(), swap_bytes_lines(b as int), swap_byte_lines(b as int));
            }
            b = b + 1;
        }
    }

    fn emit_reverse_swap(&mut self, w: usize)
        requires
            w <= RUNTIME_COLLECTION_BUFFER_SIZE,
        ensures
            final(self).text_appended(
                old(self),
                spec_emit_lines(numbered("# cellscript abi: stack collection reverse swap element_size="@, w as int))
                    + swap_bytes_lines(w as int),
            ),
    {
        let ghost l0 = self.lines();
        self.emit_numbered("# cellscript abi: stack collection reverse swap element_size=", w);
        self.emit_swap_bytes(w);
        proof {
            lemma_join2(
                l0,
                spec_emit_lines(numbered("# cellscript abi: stack collection reverse swap element_size="@, w as int)),
                swap_bytes_lines(w as int),
            );
        }
    }

    fn emit_reverse_advance(&mut self, left: usize, right: usize, lp: &str, done: &str)
        requires
            left <= i64::MAX,
            right <= i64::MAX,
        ensures
            final(self).text_appended(
                old(self),
                update_word_lines("t0"@, left as int, "addi t0, t0, 1"@) + update_word_lines(
                    "t1"@,
                    right as int,
                    "addi t1, t1, -1"@,
                ) + spec_emit_lines("j "@ + lp@) + label_line(done@),
            ),
    {
        let ghost l0 = self.lines();
        self.emit_update_word("t0", left, "addi t0, t0, 1");
        self.emit_update_word("t1", right, "addi t1, t1, -1");
        self.emit_to_label("j ", lp);
        self.emit_label(done);
        proof {
            lemma_join4(
                l0,
                update_word_lines("t0"@, left as int, "addi t0, t0, 1"@),
                update_word_lines("t1"@, right as int, "addi t1, t1, -1"@),
                spec_emit_lines("j "@ + lp@),
                label_line(done@),
            );
        }
    }

    fn emit_reverse_body(&mut self, id: usize, w: usize, left: usize, right: usize, lp: &str, done: &str)
        requires
            id * 8 <= i64::MAX,
            id * 8 <= usize::MAX,
            w <= RUNTIME_COLLECTION_BUFFER_SIZE,
            left <= i64::MAX,
            right <= i64::MAX,
        ensures
            final(self).text_appended(
                old(self),
                reverse_test_lines(id as int, w as int, left as int, right as int, lp@, done@) + reverse_step_lines(
                    w as int,
                    left as int,
                    right as int,
                    lp@,
                    done@,
                ),
            ),
    {
        let ghost l0 = self.lines();
        self.emit_reverse_loop_test(left, right, lp, done);
        self.emit_reverse_addresses(id, w);
        self.emit_reverse_swap(w);
        self.emit_reverse_advance(left, right, lp, done);
        proof {
            let a = label_line(lp@) + stack_access_lines("ld"@, "t0"@, left as int) + stack_access_lines("ld"@, "t1"@, right as int)
                + two_lines("sltu t2, t0, t1"@, "beqz t2, "@ + done@);
            let b = stack_access_lines("ld"@, "t4"@, id * 8) + spec_emit_lines(li_body("t3"@, w as int)) + four_lines(
                "mul t5, t0, t3"@,
                "add t5, t4, t5"@,
                "mul t6, t1, t3"@,
                "add t6, t4, t6"@,
            );
            let c = spec_emit_lines(numbered("# cellscript abi: stack collection reverse swap element_size="@, w as int))
                + swap_bytes_lines(w as int);
            let d = update_word_lines("t0"@, left as int, "addi t0, t0, 1"@) + update_word_lines("t1"@, right as int, "addi t1, t1, -1"@)
                + spec_emit_lines("j "@ + lp@) + label_line(done@);
            lemma_join4(l0, a, b, c, d);
            lemma_join3(
                a,
                stack_access_lines("ld"@, "t4"@, id * 8),
                spec_emit_lines(li_body("t3"@, w as int)),
                four_lines("mul t5, t0, t3"@, "add t5, t4, t5"@, "mul t6, t1, t3"@, "add t6, t4, t6"@),
            );
            lemma_join2(
                a + b,
                spec_emit_lines(numbered("# cellscript abi: stack collection reverse swap element_size="@, w as int)),
                swap_bytes_lines(w as int),
            );
            lemma_join4(
                c,
                update_word_lines("t0"@, left as int, "addi t0, t0, 1"@),
                update_word_lines("t1"@, right as int, "addi t1, t1, -1"@),
                spec_emit_lines("j "@ + lp@),
                label_line(done@),
            );
            lemma_join2(a + b, c, d);
            assert(reverse_test_lines(id as int, w as int, left as int, right as int, lp@, done@) == a + b);
            assert(reverse_step_lines(w as int, left as int, right as int, lp@, done@) == c + d);
        }
    }

    /// Reverses a stack collection of fixed-width elements in place; `false`,
    /// with nothing emitted, for any other operand.
    pub fn emit_stack_collection_reverse(&mut self, collection: &IrOperand) -> (r: bool)
        requires
            operand_slot_fits(*collection),
            old(self).next_runtime_label + 2 <= usize::MAX,
            16 + RUNTIME_SCRATCH_SIZE + RUNTIME_EXPR_TEMP_SIZE <= old(self).frame_size <= i64::MAX,
        ensures
            r == reverse_applies(*old(self), *collection),
            r ==> final(self).lines() == old(self).lines() + reverse_lines(
                collection->Var_0.id as int,
                collection_width(*old(self), *collection)->0,
                old(self).frame_size as int,
                old(self).next_runtime_label as nat,
            ),
            r ==> final(self).next_runtime_label == old(self).next_runtime_label + 2,
            !r ==> final(self).text_appended(old(self), Seq::empty()),
            final(self).same_state(old(self)),
            final(self).const_data_entries == old(self).const_data_entries,
    {
        if !self.is_stack_collection(collection) {
            assert(self.lines() =~= old(self).lines() + Seq::<Seq<char>>::empty());
            return false;
        }
        let (id, ty) = match collection {
            IrOperand::Var(var) => (var.id, &var.ty),
            IrOperand::Const(_) => {
                assert(false);
                return false;
            },
        };
        let width = match molecule_vector_element_fixed_width(ty, &self.type_fixed_sizes, &self.enum_fixed_sizes) {
            Some(w) => w,
            None => {
                assert(self.lines() =~= old(self).lines() + Seq::<Seq<char>>::empty());
                return false;
            },
        };
        if width == 0 || width > RUNTIME_COLLECTION_BUFFER_SIZE {
            assert(self.lines() =~= old(self).lines() + Seq::<Seq<char>>::empty());
            return false;
        }
        let ghost l0 = self.lines();
        let ghost n = self.next_runtime_label;
        let done = self.fresh_label("stack_collection_reverse_done");
        let lp = self.fresh_label("stack_collection_reverse_loop");
        let left = match self.runtime_expr_temp_offset(0) {
            Some(o) => o,
            None => {
                assert(false);
                0
            },
        };
        let right = match self.runtime_expr_temp_offset(1) {
            Some(o) => o,
            None => {
                assert(false);
                0
            },
        };
        self.emit_reverse_head(id, width, done.as_str());
        self.emit_reverse_init(left, right);
        self.emit_reverse_body(id, width, left, right, lp.as_str(), done.as_str());
        proof {
            lemma_join3(
                l0,
                reverse_head_lines(id as int, width as int, done@),
                reverse_init_lines(left as int, right as int),
                reverse_test_lines(id as int, width as int, left as int, right as int, lp@, done@) + reverse_step_lines(
                    width as int,
                    left as int,
                    right as int,
                    lp@,
                    done@,
                ),
            );
            lemma_join4(
                Seq::empty(),
                reverse_head_lines(id as int, width as int, done@),
                reverse_init_lines(left as int, right as int),
                reverse_test_lines(id as int, width as int, left as int, right as int, lp@, done@),
                reverse_step_lines(width as int, left as int, right as int, lp@, done@),
            );
            lemma_join2(
                reverse_head_lines(id as int, width as int, done@) + reverse_init_lines(left as int, right as int),
                reverse_test_lines(id as int, width as int, left as int, right as int, lp@, done@),
                reverse_step_lines(width as int, left as int, right as int, lp@, done@),
            );
        }
        true
    }
}

impl CodeGenerator {
    fn emit_collection_new_comments(&mut self, ty: &str, buffer_offset: usize, capacity: Option<&IrOperand>)
        ensures
            final(self).text_appended(
                old(self),
                spec_emit_lines("# collection new "@ + ty@) + spec_emit_lines(
                    numbered("# cellscript abi: stack collection buffer_offset="@, buffer_offset as int) + " max_size=256"@,
                ) + match capacity {
                    Some(c) => spec_emit_lines("# cellscript abi: stack collection with_capacity uses fixed backing buffer"@)
                        + spec_emit_lines("#   "@ + operand_comment_text("capacity"@, *c)),
                    None => Seq::empty(),
                },
            ),
    {
        let ghost l0 = self.lines();
        let mut head = String::new();
        string_push_str(&mut head, "# collection new ");
        string_push_str(&mut head, ty);
        self.emit(head.as_str());
        let mut abi = String::new();
        string_push_str(&mut abi, "# cellscript abi: stack collection buffer_offset=");
        push_decimal_u128(&mut abi, buffer_offset as u128);
        string_push_str(&mut abi, " max_size=256");
        self.emit(abi.as_str());
        let ghost l1 = self.lines();
        let ghost tail = match capacity {
            Some(c) => spec_emit_lines("# cellscript abi: stack collection with_capacity uses fixed backing buffer"@)
                + spec_emit_lines("#   "@ + operand_comment_text("capacity"@, *c)),
            None => Seq::<Seq<char>>::empty(),
        };
        match capacity {
            Some(c) => {
                self.emit("# cellscript abi: stack collection with_capacity uses fixed backing buffer");
                self.emit_operand_comment("capacity", c);
                proof {
                    lemma_join2(
                        l1,
                        spec_emit_lines("# cellscript abi: stack collection with_capacity uses fixed backing buffer"@),
                        spec_emit_lines("#   "@ + operand_comment_text("capacity"@, *c)),
                    );
                }
            },
            None => {
                assert(self.lines() =~= l1 + tail);
            },
        }
        proof {
            lemma_join3(
                l0,
                spec_emit_lines("# collection new "@ + ty@),
                spec_emit_lines(numbered("# cellscript abi: stack collection buffer_offset="@, buffer_offset as int) + " max_size=256"@),
                tail,
            );
        }
    }

    /// Creates a stack collection in the next free slot of the collection
    /// region: its length word is zeroed and `dest` points at its buffer.
    pub fn emit_collection_new(&mut self, dest: &IrVar, ty: &str, capacity: Option<&IrOperand>) -> (r: Result<(), CompileError>)
        requires
            old(self).collection_region_start + collection_slot_size() * (old(self).next_collection_slot + 1) <= i64::MAX,
            old(self).collection_region_start + collection_slot_size() * (old(self).next_collection_slot + 1) <= usize::MAX,
            dest.id * 8 <= i64::MAX,
            dest.id * 8 <= usize::MAX,
        ensures
            r is Ok,
            final(self).lines() == old(self).lines() + collection_new_lines(
                dest.id as int,
                ty@,
                match capacity {
                    Some(c) => Some(*c),
                    None => None,
                },
                old(self).collection_region_start as int,
                old(self).next_collection_slot as int,
            ),
            final(self).empty_molecule_vector_vars@ == old(self).empty_molecule_vector_vars@.insert(dest.id),
            final(self).stack_collection_vars@ == old(self).stack_collection_vars@.insert(dest.id),
            final(self).next_collection_slot == old(self).next_collection_slot + 1,
            final(self).collection_region_start == old(self).collection_region_start,
            final(self).next_runtime_label == old(self).next_runtime_label,
            final(self).const_data_entries == old(self).const_data_entries,
    {
        let ghost l0 = self.lines();
        let ghost slot = self.next_collection_slot as int;
        proof {
            assert(collection_slot_size() * slot <= collection_slot_size() * (slot + 1)) by (nonlinear_arith);
        }
        let slot_size: usize = 8 + RUNTIME_COLLECTION_BUFFER_SIZE;
        let length_offset = self.collection_region_start + slot_size * self.next_collection_slot;
        let buffer_offset = length_offset + 8;
        self.emit_collection_new_comments(ty, buffer_offset, capacity);
        let ghost l1 = self.lines();
        self.emit_stack_store("zero", length_offset);
        self.emit_sp_addi("t0", buffer_offset);
        self.emit_stack_store("t0", dest.id * 8);
        proof {
            let cap = match capacity {
                Some(c) => Some(*c),
                None => None,
            };
            let comments = spec_emit_lines("# collection new "@ + ty@) + spec_emit_lines(
                numbered("# cellscript abi: stack collection buffer_offset="@, buffer_offset as int) + " max_size=256"@,
            ) + match capacity {
                Some(c) => spec_emit_lines("# cellscript abi: stack collection with_capacity uses fixed backing buffer"@)
                    + spec_emit_lines("#   "@ + operand_comment_text("capacity"@, *c)),
                None => Seq::<Seq<char>>::empty(),
            };
            lemma_join4(
                l0,
                comments,
                stack_access_lines("sd"@, "zero"@, length_offset as int),
                sp_addi_lines("t0"@, buffer_offset as int),
                stack_access_lines("sd"@, "t0"@, dest.id * 8),
            );
            assert(collection_new_lines(
                dest.id as int,
                ty@,
                cap,
                old(self).collection_region_start as int,
                old(self).next_collection_slot as int,
            ) == comments + stack_access_lines("sd"@, "zero"@, length_offset as int) + sp_addi_lines("t0"@, buffer_offset as int)
                + stack_access_lines("sd"@, "t0"@, dest.id * 8));
        }
        self.empty_molecule_vector_vars.insert(dest.id);
        self.stack_collection_vars.insert(dest.id);
        self.next_collection_slot = self.next_collection_slot + 1;
        Ok(())
    }
}

} // verus!
