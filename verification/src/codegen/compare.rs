//! Comparing byte strings whose lengths are only known at run time.

use vstd::prelude::*;
use crate::codegen::calls::offsets_fit;
use crate::codegen::generator::{label_text, stack_access_lines, CodeGenerator};
use crate::codegen::lines::{lemma_join2, lemma_join3, lemma_join4, lemma_join5, li_body, mk_li, spec_emit_lines};
use crate::codegen::pointers::lookup;
use crate::codegen::runtime::{label_line, two_lines};
use crate::ir::{BinaryOp, IrOperand, IrVar};
use crate::text::string_push_str;

verus! {

broadcast use vstd::std_specs::hash::group_hash_axioms;

/// The name `{:?}` gives a binary operator.
pub open spec fn binary_op_name(op: BinaryOp) -> Seq<char> {
    match op {
        BinaryOp::Add => "Add"@,
        BinaryOp::Sub => "Sub"@,
        BinaryOp::Mul => "Mul"@,
        BinaryOp::Div => "Div"@,
        BinaryOp::Mod => "Mod"@,
        BinaryOp::Eq => "Eq"@,
        BinaryOp::Ne => "Ne"@,
        BinaryOp::Lt => "Lt"@,
        BinaryOp::Le => "Le"@,
        BinaryOp::Gt => "Gt"@,
        BinaryOp::Ge => "Ge"@,
        BinaryOp::And => "And"@,
        BinaryOp::Or => "Or"@,
    }
}

/// The name of a binary operator, as `{:?}` writes it.
pub fn binary_op_debug(op: BinaryOp) -> (r: &'static str)
    ensures
        r@ == binary_op_name(op),
{
    match op {
        BinaryOp::Add => "Add",
        BinaryOp::Sub => "Sub",
        BinaryOp::Mul => "Mul",
        BinaryOp::Div => "Div",
        BinaryOp::Mod => "Mod",
        BinaryOp::Eq => "Eq",
        BinaryOp::Ne => "Ne",
        BinaryOp::Lt => "Lt",
        BinaryOp::Le => "Le",
        BinaryOp::Gt => "Gt",
        BinaryOp::Ge => "Ge",
        BinaryOp::And => "And",
        BinaryOp::Or => "Or",
    }
}

/// Whether `emit_dynamic_byte_comparison` applies: both operands are
/// variables whose lengths are tracked.
pub open spec fn dynamic_comparison_applies(g: CodeGenerator, left: IrOperand, right: IrOperand) -> bool {
    &&& left is Var
    &&& right is Var
    &&& lookup(g.dynamic_value_size_offsets@, left->Var_0.id) is Some
    &&& lookup(g.dynamic_value_size_offsets@, right->Var_0.id) is Some
}

/// Storing the 0/1 result `v` in `dest`'s slot.
pub open spec fn store_result_lines(dest: int, v: int) -> Seq<Seq<char>> {
    spec_emit_lines(li_body("t0"@, v)) + stack_access_lines("sd"@, "t0"@, dest * 8)
}

/// Comparing the lengths, the mismatch result when they differ.
pub open spec fn length_check_lines(op: BinaryOp, lo: int, ro: int, dest: int, len_equal: Seq<char>, done: Seq<char>) -> Seq<Seq<char>> {
    let mismatch = if op is Eq { 0int } else { 1int };
    spec_emit_lines("# binary "@ + binary_op_name(op) + " over dynamic byte operands"@) + stack_access_lines("ld"@, "t0"@, lo)
        + stack_access_lines("ld"@, "t1"@, ro) + two_lines("sub t2, t0, t1"@, "beqz t2, "@ + len_equal)
        + store_result_lines(dest, mismatch) + spec_emit_lines("j "@ + done)
}

/// Comparing the bytes through the fixed-byte helper, the mismatch result when they differ.
pub open spec fn bytes_check_lines(op: BinaryOp, left: int, right: int, lo: int, dest: int, len_equal: Seq<char>, bytes_equal: Seq<char>, done: Seq<char>) -> Seq<Seq<char>> {
    let mismatch = if op is Eq { 0int } else { 1int };
    label_line(len_equal) + stack_access_lines("ld"@, "a0"@, left * 8) + stack_access_lines("ld"@, "a1"@, right * 8)
        + stack_access_lines("ld"@, "a2"@, lo) + two_lines("call __cellscript_memcmp_fixed"@, "beqz a0, "@ + bytes_equal)
        + store_result_lines(dest, mismatch) + spec_emit_lines("j "@ + done)
}

/// `dest = left op right` for `==` and `!=` over byte strings of tracked
/// lengths: equal lengths and equal bytes give the equality result.
pub open spec fn dynamic_comparison_lines(op: BinaryOp, dest: IrVar, left: IrVar, right: IrVar, lo: int, ro: int, n: nat) -> Seq<Seq<char>> {
    let len_equal = label_text("dynamic_bytes_len_equal"@, n);
    let bytes_equal = label_text("dynamic_bytes_equal"@, n + 1);
    let done = label_text("dynamic_bytes_cmp_done"@, n + 2);
    let equal = if op is Eq { 1int } else { 0int };
    length_check_lines(op, lo, ro, dest.id as int, len_equal, done) + bytes_check_lines(
        op,
        left.id as int,
        right.id as int,
        lo,
        dest.id as int,
        len_equal,
        bytes_equal,
        done,
    ) + label_line(bytes_equal) + store_result_lines(dest.id as int, equal) + label_line(done)
}

/// What `a op b` is for byte strings, as 1 or 0: `==` is true exactly when
/// the strings are equal, `!=` exactly when they differ.
pub open spec fn byte_strings_compare(op: BinaryOp, a: Seq<u8>, b: Seq<u8>) -> int {
    if op is Eq {
        if a == b { 1 } else { 0 }
    } else {
        if a != b { 1 } else { 0 }
    }
}

/// The comparison of the two lengths, up to the branch taken when they agree.
pub open spec fn length_test_lines(op: BinaryOp, lo: int, ro: int, len_equal: Seq<char>) -> Seq<Seq<char>> {
    spec_emit_lines("# binary "@ + binary_op_name(op) + " over dynamic byte operands"@) + stack_access_lines("ld"@, "t0"@, lo)
        + stack_access_lines("ld"@, "t1"@, ro) + two_lines("sub t2, t0, t1"@, "beqz t2, "@ + len_equal)
}

/// The comparison of the bytes, up to the branch taken when they agree.
pub open spec fn bytes_test_lines(left: int, right: int, lo: int, len_equal: Seq<char>, bytes_equal: Seq<char>) -> Seq<Seq<char>> {
    label_line(len_equal) + stack_access_lines("ld"@, "a0"@, left * 8) + stack_access_lines("ld"@, "a1"@, right * 8)
        + stack_access_lines("ld"@, "a2"@, lo) + two_lines("call __cellscript_memcmp_fixed"@, "beqz a0, "@ + bytes_equal)
}

/// A dynamic byte comparison stores, on each of its three paths, what `==`
/// or `!=` gives for byte strings that take that path: strings of
/// different lengths (`a1`, `b1`), strings of one length that differ
/// (`a2`, `b2`), and equal strings (`a3` with itself). So `==` stores 0 and
/// `!=` stores 1 when the lengths differ, and on every path the value `==`
/// stores is the negation of the one `!=` stores.
pub proof fn lemma_dynamic_comparison_paths(
    op: BinaryOp,
    dest: IrVar,
    left: IrVar,
    right: IrVar,
    lo: int,
    ro: int,
    n: nat,
    a1: Seq<u8>,
    b1: Seq<u8>,
    a2: Seq<u8>,
    b2: Seq<u8>,
    a3: Seq<u8>,
)
    requires
        op is Eq || op is Ne,
        a1.len() != b1.len(),
        a2.len() == b2.len(),
        a2 != b2,
    ensures
        dynamic_comparison_lines(op, dest, left, right, lo, ro, n) == length_test_lines(
            op,
            lo,
            ro,
            label_text("dynamic_bytes_len_equal"@, n),
        ) + store_result_lines(dest.id as int, byte_strings_compare(op, a1, b1)) + spec_emit_lines(
            "j "@ + label_text("dynamic_bytes_cmp_done"@, n + 2),
        ) + bytes_test_lines(
            left.id as int,
            right.id as int,
            lo,
            label_text("dynamic_bytes_len_equal"@, n),
            label_text("dynamic_bytes_equal"@, n + 1),
        ) + store_result_lines(dest.id as int, byte_strings_compare(op, a2, b2)) + spec_emit_lines(
            "j "@ + label_text("dynamic_bytes_cmp_done"@, n + 2),
        ) + label_line(label_text("dynamic_bytes_equal"@, n + 1)) + store_result_lines(
            dest.id as int,
            byte_strings_compare(op, a3, a3),
        ) + label_line(label_text("dynamic_bytes_cmp_done"@, n + 2)),
{
    assert(a1 != b1);
    let le = label_text("dynamic_bytes_len_equal"@, n);
    let be = label_text("dynamic_bytes_equal"@, n + 1);
    let done = label_text("dynamic_bytes_cmp_done"@, n + 2);
    let d = dest.id as int;
    let t1 = length_test_lines(op, lo, ro, le);
    let t2 = bytes_test_lines(left.id as int, right.id as int, lo, le, be);
    let s1 = store_result_lines(d, byte_strings_compare(op, a1, b1));
    let s2 = store_result_lines(d, byte_strings_compare(op, a2, b2));
    let s3 = store_result_lines(d, byte_strings_compare(op, a3, a3));
    let j = spec_emit_lines("j "@ + done);
    assert(length_check_lines(op, lo, ro, d, le, done) == t1 + s1 + j);
    assert(bytes_check_lines(op, left.id as int, right.id as int, lo, d, le, be, done) == t2 + s2 + j);
    assert(dynamic_comparison_lines(op, dest, left, right, lo, ro, n) =~= t1 + s1 + j + t2 + s2 + j + label_line(be) + s3
        + label_line(done));
}

impl CodeGenerator {
    fn emit_store_result(&mut self, dest: usize, v: i128)
        requires
            dest * 8 <= i64::MAX,
            dest * 8 <= usize::MAX,
        ensures
            final(self).text_appended(old(self), store_result_lines(dest as int, v as int)),
    {
        let ghost l0 = self.lines();
        self.emit(mk_li("t0", v).as_str());
        self.emit_stack_store("t0", dest * 8);
        proof {
            lemma_join2(l0, spec_emit_lines(li_body("t0"@, v as int)), stack_access_lines("sd"@, "t0"@, dest * 8));
        }
    }

    fn emit_jump_to(&mut self, op: &str, label: &str)
        ensures
            final(self).text_appended(old(self), spec_emit_lines(op@ + label@)),
    {
        let mut line = String::new();
        string_push_str(&mut line, op);
        string_push_str(&mut line, label);
        self.emit(line.as_str());
    }

    fn emit_length_check(&mut self, op: BinaryOp, lo: usize, ro: usize, dest: usize, len_equal: &str, done: &str)
        requires
            lo <= i64::MAX,
            ro <= i64::MAX,
            dest * 8 <= i64::MAX,
            dest * 8 <= usize::MAX,
        ensures
            final(self).text_appended(old(self), length_check_lines(op, lo as int, ro as int, dest as int, len_equal@, done@)),
    {
        let ghost l0 = self.lines();
        let mismatch: i128 = match op {
            BinaryOp::Eq => 0,
            _ => 1,
        };
        let mut comment = String::new();
        string_push_str(&mut comment, "# binary ");
        string_push_str(&mut comment, binary_op_debug(op));
        string_push_str(&mut comment, " over dynamic byte operands");
        self.emit(comment.as_str());
        self.emit_stack_load("t0", lo);
        self.emit_stack_load("t1", ro);
        let ghost l1 = self.lines();
        self.emit("sub t2, t0, t1");
        self.emit_jump_to("beqz t2, ", len_equal);
        proof {
            lemma_join2(l1, spec_emit_lines("sub t2, t0, t1"@), spec_emit_lines("beqz t2, "@ + len_equal@));
        }
        self.emit_store_result(dest, mismatch);
        self.emit_jump_to("j ", done);
        proof {
            lemma_join4(
                l0,
                spec_emit_lines("# binary "@ + binary_op_name(op) + " over dynamic byte operands"@),
                stack_access_lines("ld"@, "t0"@, lo as int),
                stack_access_lines("ld"@, "t1"@, ro as int),
                two_lines("sub t2, t0, t1"@, "beqz t2, "@ + len_equal@),
            );
            lemma_join3(
                l0,
                spec_emit_lines("# binary "@ + binary_op_name(op) + " over dynamic byte operands"@) + stack_access_lines(
                    "ld"@,
                    "t0"@,
                    lo as int,
                ) + stack_access_lines("ld"@, "t1"@, ro as int) + two_lines("sub t2, t0, t1"@, "beqz t2, "@ + len_equal@),
                store_result_lines(dest as int, mismatch as int),
                spec_emit_lines("j "@ + done@),
            );
        }
    }

    fn emit_bytes_check(&mut self, op: BinaryOp, left: usize, right: usize, lo: usize, dest: usize, len_equal: &str, bytes_equal: &str, done: &str)
        requires
            left * 8 <= i64::MAX,
            left * 8 <= usize::MAX,
            right * 8 <= i64::MAX,
            right * 8 <= usize::MAX,
            lo <= i64::MAX,
            dest * 8 <= i64::MAX,
            dest * 8 <= usize::MAX,
        ensures
            final(self).text_appended(
                old(self),
                bytes_check_lines(op, left as int, right as int, lo as int, dest as int, len_equal@, bytes_equal@, done@),
            ),
    {
        let ghost l0 = self.lines();
        let mismatch: i128 = match op {
            BinaryOp::Eq => 0,
            _ => 1,
        };
        self.emit_label(len_equal);
        self.emit_stack_load("a0", left * 8);
        self.emit_stack_load("a1", right * 8);
        self.emit_stack_load("a2", lo);
        let ghost l1 = self.lines();
        self.emit("call __cellscript_memcmp_fixed");
        self.emit_jump_to("beqz a0, ", bytes_equal);
        proof {
            lemma_join2(l1, spec_emit_lines("call __cellscript_memcmp_fixed"@), spec_emit_lines("beqz a0, "@ + bytes_equal@));
        }
        self.emit_store_result(dest, mismatch);
        self.emit_jump_to("j ", done);
        proof {
            lemma_join5(
                l0,
                label_line(len_equal@),
                stack_access_lines("ld"@, "a0"@, left * 8),
                stack_access_lines("ld"@, "a1"@, right * 8),
                stack_access_lines("ld"@, "a2"@, lo as int),
                two_lines("call __cellscript_memcmp_fixed"@, "beqz a0, "@ + bytes_equal@),
            );
            lemma_join3(
                l0,
                label_line(len_equal@) + stack_access_lines("ld"@, "a0"@, left * 8) + stack_access_lines("ld"@, "a1"@, right * 8)
                    + stack_access_lines("ld"@, "a2"@, lo as int) + two_lines(
                    "call __cellscript_memcmp_fixed"@,
                    "beqz a0, "@ + bytes_equal@,
                ),
                store_result_lines(dest as int, mismatch as int),
                spec_emit_lines("j "@ + done@),
            );
        }
    }

    /// `dest = left op right` for byte strings whose lengths are tracked at
    /// run time: `==` gives 1 when the lengths and bytes agree, any other
    /// operator the negation; `false`, with nothing emitted, unless both
    /// operands are variables with tracked lengths.
    pub fn emit_dynamic_byte_comparison(&mut self, dest: &IrVar, op: BinaryOp, left: &IrOperand, right: &IrOperand) -> (r: bool)
        requires
            old(self).next_runtime_label + 3 <= usize::MAX,
            offsets_fit(old(self).dynamic_value_size_offsets@),
            dest.id * 8 <= i64::MAX,
            dest.id * 8 <= usize::MAX,
            left is Var ==> left->Var_0.id * 8 <= i64::MAX && left->Var_0.id * 8 <= usize::MAX,
            right is Var ==> right->Var_0.id * 8 <= i64::MAX && right->Var_0.id * 8 <= usize::MAX,
        ensures
            r == dynamic_comparison_applies(*old(self), *left, *right),
            r ==> final(self).lines() == old(self).lines() + dynamic_comparison_lines(
                op,
                *dest,
                left->Var_0,
                right->Var_0,
                old(self).dynamic_value_size_offsets@[left->Var_0.id] as int,
                old(self).dynamic_value_size_offsets@[right->Var_0.id] as int,
                old(self).next_runtime_label as nat,
            ),
            r ==> final(self).next_runtime_label == old(self).next_runtime_label + 3,
            !r ==> final(self).text_appended(old(self), Seq::empty()),
            final(self).same_state(old(self)),
            final(self).const_data_entries == old(self).const_data_entries,
    {
        let (lv, rv) = match (left, right) {
            (IrOperand::Var(l), IrOperand::Var(r)) => (l, r),
            _ => {
                assert(self.lines() =~= old(self).lines() + Seq::<Seq<char>>::empty());
                return false;
            },
        };
        let lo = match self.dynamic_value_size_offsets.get(&lv.id) {
            Some(o) => *o,
            None => {
                assert(self.lines() =~= old(self).lines() + Seq::<Seq<char>>::empty());
                return false;
            },
        };
        let ro = match self.dynamic_value_size_offsets.get(&rv.id) {
            Some(o) => *o,
            None => {
                assert(self.lines() =~= old(self).lines() + Seq::<Seq<char>>::empty());
                return false;
            },
        };
        let equal: i128 = match op {
            BinaryOp::Eq => 1,
            _ => 0,
        };
        let ghost l0 = self.lines();
        let len_equal = self.fresh_label("dynamic_bytes_len_equal");
        let bytes_equal = self.fresh_label("dynamic_bytes_equal");
        let done = self.fresh_label("dynamic_bytes_cmp_done");
        self.emit_length_check(op, lo, ro, dest.id, len_equal.as_str(), done.as_str());
        self.emit_bytes_check(op, lv.id, rv.id, lo, dest.id, len_equal.as_str(), bytes_equal.as_str(), done.as_str());
        self.emit_label(bytes_equal.as_str());
        self.emit_store_result(dest.id, equal);
        self.emit_label(done.as_str());
        proof {
            lemma_join5(
                l0,
                length_check_lines(op, lo as int, ro as int, dest.id as int, len_equal@, done@),
                bytes_check_lines(op, lv.id as int, rv.id as int, lo as int, dest.id as int, len_equal@, bytes_equal@, done@),
                label_line(bytes_equal@),
                store_result_lines(dest.id as int, equal as int),
                label_line(done@),
            );
        }
        true
    }
}

} // verus!
