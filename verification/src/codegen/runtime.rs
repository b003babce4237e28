//! Runtime support helpers emitted once per program: fixed-byte comparison
//! and zero checks, size guards, the Molecule table offset guard, and the
//! pieces of the Blake2b-256 helper.

use vstd::prelude::*;
use crate::assembler::parse::le_bytes;
use crate::codegen::generator::{large_addi_lines_spec, stack_access_lines, CodeGenerator};
use crate::codegen::lines::{lemma_join2, lemma_join3, lemma_join4, lemma_join5, lemma_join6, li_body, mem_body, mk_li, mk_mem, mk_rri, mk_rrr, rri_body, rrr_body, spec_emit_lines};
use crate::codegen::operands::{pool_after, pooled_label};
use crate::text::{dec_nat, push_decimal_u128, string_push_str};

verus! {

/// A runtime error as emitted code reports it: the numeric code returned in
/// `a0` (or `a1`) and the name written in the comment before it.
pub struct RuntimeFailure {
    pub code: u64,
    pub name: String,
}

/// `.global`, `.type` and the label that start a runtime helper.
pub open spec fn helper_entry_lines(name: Seq<char>) -> Seq<Seq<char>> {
    global_lines(name) + label_line(name)
}

/// `.global` and `.type` for a function symbol.
pub open spec fn global_lines(name: Seq<char>) -> Seq<Seq<char>> {
    seq![".global "@ + name, ".type "@ + name + ", @function"@]
}

/// Two instructions emitted in turn.
pub open spec fn two_lines(a: Seq<char>, b: Seq<char>) -> Seq<Seq<char>> {
    spec_emit_lines(a) + spec_emit_lines(b)
}

/// Four instructions emitted in turn.
pub open spec fn four_lines(a: Seq<char>, b: Seq<char>, c: Seq<char>, d: Seq<char>) -> Seq<Seq<char>> {
    two_lines(a, b) + two_lines(c, d)
}

/// A label line.
pub open spec fn label_line(name: Seq<char>) -> Seq<Seq<char>> {
    seq![name + ":"@]
}

/// The comment that names a runtime error.
pub open spec fn error_comment_lines(f: RuntimeFailure) -> Seq<Seq<char>> {
    spec_emit_lines("# cellscript runtime error "@ + dec_nat(f.code as nat) + " "@ + f.name@)
}

/// Returning the error code in `a0`.
pub open spec fn fail_ret_lines(f: RuntimeFailure) -> Seq<Seq<char>> {
    error_comment_lines(f) + spec_emit_lines(li_body("a0"@, f.code as int)) + spec_emit_lines("ret"@)
}

/// Returning `a0 = 0` with the error code in the status register `a1`.
pub open spec fn status_fail_ret_lines(f: RuntimeFailure) -> Seq<Seq<char>> {
    error_comment_lines(f) + spec_emit_lines("li a0, 0"@) + spec_emit_lines(li_body("a1"@, f.code as int))
        + spec_emit_lines("ret"@)
}

/// The fixed-byte comparison helper: `a0 = 0` when the `a2` bytes at `a0`
/// and `a1` are equal, else `a0 = 1`.
pub open spec fn memcmp_fixed_lines() -> Seq<Seq<char>> {
    helper_start_lines(
        "__cellscript_memcmp_fixed"@,
        "# cellscript abi: fixed-byte helper compares a0/a1 for a2 bytes; returns a0=0 when equal"@,
        "beqz a2, .L__cellscript_memcmp_fixed_equal"@,
        ".L__cellscript_memcmp_fixed_loop"@,
    ) + four_lines("lbu t0, 0(a0)"@, "lbu t1, 0(a1)"@, "sub t2, t0, t1"@, "bnez t2, .L__cellscript_memcmp_fixed_mismatch"@)
        + four_lines("addi a0, a0, 1"@, "addi a1, a1, 1"@, "addi a2, a2, -1"@, "bnez a2, .L__cellscript_memcmp_fixed_loop"@)
        + helper_tail_lines(".L__cellscript_memcmp_fixed_equal"@, ".L__cellscript_memcmp_fixed_mismatch"@)
}

/// The fixed-byte zero check: `a0 = 0` when the `a1` bytes at `a0` are all
/// zero, else `a0 = 1`.
pub open spec fn memzero_fixed_lines() -> Seq<Seq<char>> {
    helper_start_lines(
        "__cellscript_memzero_fixed"@,
        "# cellscript abi: fixed-byte helper checks a0 for a1 zero bytes; returns a0=0 when all zero"@,
        "beqz a1, .L__cellscript_memzero_fixed_equal"@,
        ".L__cellscript_memzero_fixed_loop"@,
    ) + four_lines("lbu t0, 0(a0)"@, "bnez t0, .L__cellscript_memzero_fixed_mismatch"@, "addi a0, a0, 1"@, "addi a1, a1, -1"@)
        + spec_emit_lines("bnez a1, .L__cellscript_memzero_fixed_loop"@)
        + helper_tail_lines(".L__cellscript_memzero_fixed_equal"@, ".L__cellscript_memzero_fixed_mismatch"@)
}

/// The start of a byte-loop helper: its entry, a comment, the instruction
/// that skips an empty input, and the loop label.
pub open spec fn helper_start_lines(name: Seq<char>, comment: Seq<char>, first: Seq<char>, loop_label: Seq<char>) -> Seq<Seq<char>> {
    helper_entry_lines(name) + two_lines(comment, first) + label_line(loop_label)
}

/// The end of a byte-loop helper: `a0 = 0` at the equal label, `a0 = 1` at the mismatch label.
pub open spec fn helper_tail_lines(equal: Seq<char>, mismatch: Seq<char>) -> Seq<Seq<char>> {
    label_line(equal) + two_lines("li a0, 0"@, "ret"@) + label_line(mismatch) + two_lines("li a0, 1"@, "ret"@)
}

/// The two size guards: at least a minimum size, and exactly a size.
pub open spec fn size_guard_lines() -> Seq<Seq<char>> {
    short_helper_lines(
        "__cellscript_require_min_size"@,
        "# cellscript abi: returns a0=0 when actual size a0 is at least required size a1"@,
        "sltu a0, a0, a1"@,
    ) + short_helper_lines(
        "__cellscript_require_exact_size"@,
        "# cellscript abi: returns a0=0 when actual size a0 equals expected size a1"@,
        "sub a0, a0, a1"@,
    )
}

/// A helper of one instruction: its entry, a comment, the instruction, `ret`.
pub open spec fn short_helper_lines(name: Seq<char>, comment: Seq<char>, op: Seq<char>) -> Seq<Seq<char>> {
    helper_entry_lines(name) + two_lines(comment, op) + spec_emit_lines("ret"@)
}

/// The Molecule table offset guard: `a0 = 0` when the `a2` little-endian
/// offsets after the total size word at `a0` start at the header size `a3`,
/// never decrease, and stay within the total size `a1`; else the bounds
/// error's code.
pub open spec fn molecule_offset_guard_lines(bounds: RuntimeFailure) -> Seq<Seq<char>> {
    molecule_guard_scan_lines() + molecule_guard_check_lines(bounds)
}

/// The guard's entry, its setup, and the assembly of one offset word in `t3`.
#[verifier::opaque]
pub open spec fn molecule_guard_scan_lines() -> Seq<Seq<char>> {
    helper_entry_lines("__cellscript_validate_molecule_table_offsets"@)
        + spec_emit_lines(
        "# cellscript abi: validate Molecule table offsets a0=base a1=total_size a2=field_count a3=header_size"@,
    ) + four_lines("addi t0, a0, 4"@, "mv t1, a2"@, "mv t2, a3"@, "mv a5, a2"@)
        + label_line(".L__cellscript_molecule_offsets_loop"@)
        + spec_emit_lines("beqz t1, .L__cellscript_molecule_offsets_ok"@)
        + four_lines("li t3, 0"@, "lbu a4, 0(t0)"@, "or t3, t3, a4"@, "lbu a4, 1(t0)"@)
        + four_lines("slli a4, a4, 8"@, "or t3, t3, a4"@, "lbu a4, 2(t0)"@, "slli a4, a4, 16"@)
        + four_lines("or t3, t3, a4"@, "lbu a4, 3(t0)"@, "slli a4, a4, 24"@, "or t3, t3, a4"@)
}

/// The guard's bounds checks on `t3`, the step to the next offset, and its two exits.
#[verifier::opaque]
pub open spec fn molecule_guard_check_lines(bounds: RuntimeFailure) -> Seq<Seq<char>> {
    spec_emit_lines("bne t1, a5, .L__cellscript_molecule_offsets_not_first"@)
        + two_lines("sub a4, t3, a3"@, "bnez a4, .L__cellscript_molecule_offsets_fail"@)
        + spec_emit_lines("j .L__cellscript_molecule_offsets_lower_bound_ok"@)
        + label_line(".L__cellscript_molecule_offsets_not_first"@)
        + two_lines("sltu a4, t3, t2"@, "bnez a4, .L__cellscript_molecule_offsets_fail"@)
        + label_line(".L__cellscript_molecule_offsets_lower_bound_ok"@)
        + four_lines("sltu a4, a1, t3"@, "bnez a4, .L__cellscript_molecule_offsets_fail"@, "mv t2, t3"@, "addi t0, t0, 4"@)
        + two_lines("addi t1, t1, -1"@, "j .L__cellscript_molecule_offsets_loop"@)
        + label_line(".L__cellscript_molecule_offsets_ok"@)
        + two_lines("li a0, 0"@, "ret"@)
        + label_line(".L__cellscript_molecule_offsets_fail"@)
        + fail_ret_lines(bounds)
}

/// Rotating `reg` right by `bits`, through `t1`.
pub open spec fn rotr_lines(reg: Seq<char>, bits: int) -> Seq<Seq<char>> {
    spec_emit_lines(rri_body("srli"@, "t1"@, reg, bits)) + spec_emit_lines(rri_body("slli"@, reg, reg, 64 - bits))
        + spec_emit_lines(rrr_body("or"@, reg, reg, "t1"@))
}

/// Or-ing byte `j` of input word `word` at `a0` into `t0`, shifted by `8 * j`.
pub open spec fn input_byte_lines(word: int, j: int) -> Seq<Seq<char>> {
    spec_emit_lines(mem_body("lbu"@, "t1"@, word * 8 + j, "a0"@)) + (if j > 0 {
        spec_emit_lines(rri_body("slli"@, "t1"@, "t1"@, j * 8))
    } else {
        Seq::empty()
    }) + spec_emit_lines("or t0, t0, t1"@)
}

/// Or-ing the first `k` bytes of input word `word` into `t0`.
pub open spec fn input_word_byte_lines(word: int, k: int) -> Seq<Seq<char>>
    decreases k,
{
    if k <= 0 {
        Seq::empty()
    } else {
        input_word_byte_lines(word, k - 1) + input_byte_lines(word, k - 1)
    }
}

/// Loading little-endian input word `word` from `a0` and storing it at `offset(sp)`.
pub open spec fn load_input_word_lines(word: int, offset: int) -> Seq<Seq<char>> {
    spec_emit_lines("li t0, 0"@) + input_word_byte_lines(word, 8) + stack_access_lines("sd"@, "t0"@, offset)
}

/// Storing a 64-bit constant from the read-only pool at `offset(sp)`.
pub open spec fn store_const_lines(pool: Seq<(Seq<char>, Seq<u8>)>, value: u64, offset: int) -> Seq<Seq<char>> {
    spec_emit_lines("la t0, "@ + pooled_label(pool, le_bytes(value as int, 8))) + spec_emit_lines("ld t0, 0(t0)"@)
        + stack_access_lines("sd"@, "t0"@, offset)
}

/// `t0 = x + y (+ m)`, stored back to `x`: the additions of a Blake2b mixing step.
pub open spec fn mix_add_lines(x: int, y: int, m: Option<int>) -> Seq<Seq<char>> {
    stack_access_lines("ld"@, "t0"@, x) + stack_access_lines("ld"@, "t1"@, y) + spec_emit_lines("add t0, t0, t1"@)
        + (match m {
        Some(mo) => stack_access_lines("ld"@, "t1"@, mo) + spec_emit_lines("add t0, t0, t1"@),
        None => Seq::empty(),
    }) + stack_access_lines("sd"@, "t0"@, x)
}

/// `x = rotr(x ^ y, bits)`: the xor-rotate of a Blake2b mixing step.
pub open spec fn mix_xor_lines(x: int, y: int, bits: int) -> Seq<Seq<char>> {
    stack_access_lines("ld"@, "t0"@, x) + stack_access_lines("ld"@, "t1"@, y) + spec_emit_lines("xor t0, t0, t1"@)
        + rotr_lines("t0"@, bits) + stack_access_lines("sd"@, "t0"@, x)
}

/// Half of the Blake2b G function on the stack words at the given offsets:
/// `a += b + m; d = rotr(d ^ a, r1); c += d; b = rotr(b ^ c, r2)`.
pub open spec fn g_half_lines(a: int, b: int, c: int, d: int, m: int, r1: int, r2: int) -> Seq<Seq<char>> {
    mix_add_lines(a, b, Some(m)) + mix_xor_lines(d, a, r1) + mix_add_lines(c, d, None) + mix_xor_lines(b, c, r2)
}

/// The Blake2b G function on words `a`, `b`, `c`, `d` of the working vector
/// at `v_base` with message words `mx`, `my` at `m_base`.
pub open spec fn g_lines(v_base: int, m_base: int, a: int, b: int, c: int, d: int, mx: int, my: int) -> Seq<Seq<char>> {
    g_half_lines(v_base + a * 8, v_base + b * 8, v_base + c * 8, v_base + d * 8, m_base + mx * 8, 32, 24) + g_half_lines(
        v_base + a * 8,
        v_base + b * 8,
        v_base + c * 8,
        v_base + d * 8,
        m_base + my * 8,
        16,
        63,
    )
}

impl CodeGenerator {
    /// Two instructions in turn.
    pub(crate) fn emit2(&mut self, a: &str, b: &str)
        ensures
            final(self).text_appended(old(self), two_lines(a@, b@)),
    {
        let ghost l0 = self.lines();
        self.emit(a);
        self.emit(b);
        proof {
            lemma_join2(l0, spec_emit_lines(a@), spec_emit_lines(b@));
        }
    }

    /// Four instructions in turn.
    pub(crate) fn emit4(&mut self, a: &str, b: &str, c: &str, d: &str)
        ensures
            final(self).text_appended(old(self), four_lines(a@, b@, c@, d@)),
    {
        let ghost l0 = self.lines();
        self.emit2(a, b);
        self.emit2(c, d);
        proof {
            lemma_join2(l0, two_lines(a@, b@), two_lines(c@, d@));
        }
    }

    /// `.global`, `.type` and the label of a helper.
    fn emit_helper_entry(&mut self, name: &str)
        ensures
            final(self).text_appended(old(self), helper_entry_lines(name@)),
    {
        let ghost l0 = self.lines();
        self.emit_global(name);
        self.emit_label(name);
        proof {
            lemma_join2(l0, global_lines(name@), label_line(name@));
        }
    }

    /// `# cellscript runtime error <code> <name>`
    pub fn emit_runtime_error_comment(&mut self, failure: &RuntimeFailure)
        ensures
            final(self).text_appended(old(self), error_comment_lines(*failure)),
    {
        let mut s = String::new();
        string_push_str(&mut s, "# cellscript runtime error ");
        push_decimal_u128(&mut s, failure.code as u128);
        string_push_str(&mut s, " ");
        string_push_str(&mut s, failure.name.as_str());
        self.emit(s.as_str());
    }

    /// Reports a runtime error from a helper: its comment, its code in `a0`, `ret`.
    pub fn emit_runtime_fail_ret(&mut self, failure: &RuntimeFailure)
        ensures
            final(self).text_appended(old(self), fail_ret_lines(*failure)),
    {
        let ghost l0 = self.lines();
        self.emit_runtime_error_comment(failure);
        let li = mk_li("a0", failure.code as i128);
        self.emit(li.as_str());
        self.emit("ret");
        proof {
            lemma_join3(l0, error_comment_lines(*failure), spec_emit_lines(li_body("a0"@, failure.code as int)), spec_emit_lines("ret"@));
        }
    }

    /// Reports a runtime error through the status register: `a0 = 0`, the code in `a1`, `ret`.
    pub fn emit_runtime_status_fail_ret(&mut self, failure: &RuntimeFailure)
        ensures
            final(self).text_appended(old(self), status_fail_ret_lines(*failure)),
    {
        let ghost l0 = self.lines();
        self.emit_runtime_error_comment(failure);
        self.emit("li a0, 0");
        let li = mk_li("a1", failure.code as i128);
        self.emit(li.as_str());
        self.emit("ret");
        proof {
            lemma_join4(
                l0,
                error_comment_lines(*failure),
                spec_emit_lines("li a0, 0"@),
                spec_emit_lines(li_body("a1"@, failure.code as int)),
                spec_emit_lines("ret"@),
            );
        }
    }

    fn emit_helper_start(&mut self, name: &str, comment: &str, first: &str, loop_label: &str)
        ensures
            final(self).text_appended(old(self), helper_start_lines(name@, comment@, first@, loop_label@)),
    {
        let ghost l0 = self.lines();
        self.emit_helper_entry(name);
        self.emit2(comment, first);
        self.emit_label(loop_label);
        proof {
            lemma_join3(l0, helper_entry_lines(name@), two_lines(comment@, first@), label_line(loop_label@));
        }
    }

    fn emit_helper_tail(&mut self, equal: &str, mismatch: &str)
        ensures
            final(self).text_appended(old(self), helper_tail_lines(equal@, mismatch@)),
    {
        let ghost l0 = self.lines();
        self.emit_label(equal);
        self.emit2("li a0, 0", "ret");
        self.emit_label(mismatch);
        self.emit2("li a0, 1", "ret");
        proof {
            lemma_join4(l0, label_line(equal@), two_lines("li a0, 0"@, "ret"@), label_line(mismatch@), two_lines("li a0, 1"@, "ret"@));
        }
    }

    /// The helper that compares two fixed-size byte strings.
    pub fn emit_runtime_memcmp_fixed(&mut self)
        ensures
            final(self).text_appended(old(self), memcmp_fixed_lines()),
    {
        let ghost l0 = self.lines();
        self.emit_helper_start(
            "__cellscript_memcmp_fixed",
            "# cellscript abi: fixed-byte helper compares a0/a1 for a2 bytes; returns a0=0 when equal",
            "beqz a2, .L__cellscript_memcmp_fixed_equal",
            ".L__cellscript_memcmp_fixed_loop",
        );
        self.emit4("lbu t0, 0(a0)", "lbu t1, 0(a1)", "sub t2, t0, t1", "bnez t2, .L__cellscript_memcmp_fixed_mismatch");
        self.emit4("addi a0, a0, 1", "addi a1, a1, 1", "addi a2, a2, -1", "bnez a2, .L__cellscript_memcmp_fixed_loop");
        self.emit_helper_tail(".L__cellscript_memcmp_fixed_equal", ".L__cellscript_memcmp_fixed_mismatch");
        proof {
            lemma_join4(
                l0,
                helper_start_lines(
                    "__cellscript_memcmp_fixed"@,
                    "# cellscript abi: fixed-byte helper compares a0/a1 for a2 bytes; returns a0=0 when equal"@,
                    "beqz a2, .L__cellscript_memcmp_fixed_equal"@,
                    ".L__cellscript_memcmp_fixed_loop"@,
                ),
                four_lines("lbu t0, 0(a0)"@, "lbu t1, 0(a1)"@, "sub t2, t0, t1"@, "bnez t2, .L__cellscript_memcmp_fixed_mismatch"@),
                four_lines("addi a0, a0, 1"@, "addi a1, a1, 1"@, "addi a2, a2, -1"@, "bnez a2, .L__cellscript_memcmp_fixed_loop"@),
                helper_tail_lines(".L__cellscript_memcmp_fixed_equal"@, ".L__cellscript_memcmp_fixed_mismatch"@),
            );
        }
    }

    /// The helper that checks a fixed-size byte string for all zeros.
    pub fn emit_runtime_memzero_fixed(&mut self)
        ensures
            final(self).text_appended(old(self), memzero_fixed_lines()),
    {
        let ghost l0 = self.lines();
        self.emit_helper_start(
            "__cellscript_memzero_fixed",
            "# cellscript abi: fixed-byte helper checks a0 for a1 zero bytes; returns a0=0 when all zero",
            "beqz a1, .L__cellscript_memzero_fixed_equal",
            ".L__cellscript_memzero_fixed_loop",
        );
        self.emit4("lbu t0, 0(a0)", "bnez t0, .L__cellscript_memzero_fixed_mismatch", "addi a0, a0, 1", "addi a1, a1, -1");
        self.emit("bnez a1, .L__cellscript_memzero_fixed_loop");
        self.emit_helper_tail(".L__cellscript_memzero_fixed_equal", ".L__cellscript_memzero_fixed_mismatch");
        proof {
            lemma_join4(
                l0,
                helper_start_lines(
                    "__cellscript_memzero_fixed"@,
                    "# cellscript abi: fixed-byte helper checks a0 for a1 zero bytes; returns a0=0 when all zero"@,
                    "beqz a1, .L__cellscript_memzero_fixed_equal"@,
                    ".L__cellscript_memzero_fixed_loop"@,
                ),
                four_lines("lbu t0, 0(a0)"@, "bnez t0, .L__cellscript_memzero_fixed_mismatch"@, "addi a0, a0, 1"@, "addi a1, a1, -1"@),
                spec_emit_lines("bnez a1, .L__cellscript_memzero_fixed_loop"@),
                helper_tail_lines(".L__cellscript_memzero_fixed_equal"@, ".L__cellscript_memzero_fixed_mismatch"@),
            );
        }
    }

    fn emit_short_helper(&mut self, name: &str, comment: &str, op: &str)
        ensures
            final(self).text_appended(old(self), short_helper_lines(name@, comment@, op@)),
    {
        let ghost l0 = self.lines();
        self.emit_helper_entry(name);
        self.emit2(comment, op);
        self.emit("ret");
        proof {
            lemma_join3(l0, helper_entry_lines(name@), two_lines(comment@, op@), spec_emit_lines("ret"@));
        }
    }

    /// The minimum-size and exact-size guard helpers.
    pub fn emit_runtime_size_guards(&mut self)
        ensures
            final(self).text_appended(old(self), size_guard_lines()),
    {
        let ghost l0 = self.lines();
        self.emit_short_helper(
            "__cellscript_require_min_size",
            "# cellscript abi: returns a0=0 when actual size a0 is at least required size a1",
            "sltu a0, a0, a1",
        );
        self.emit_short_helper(
            "__cellscript_require_exact_size",
            "# cellscript abi: returns a0=0 when actual size a0 equals expected size a1",
            "sub a0, a0, a1",
        );
        proof {
            lemma_join2(
                l0,
                short_helper_lines(
                    "__cellscript_require_min_size"@,
                    "# cellscript abi: returns a0=0 when actual size a0 is at least required size a1"@,
                    "sltu a0, a0, a1"@,
                ),
                short_helper_lines(
                    "__cellscript_require_exact_size"@,
                    "# cellscript abi: returns a0=0 when actual size a0 equals expected size a1"@,
                    "sub a0, a0, a1"@,
                ),
            );
        }
    }

    fn emit_molecule_guard_setup(&mut self)
        ensures
            final(self).text_appended(
                old(self),
                helper_entry_lines("__cellscript_validate_molecule_table_offsets"@) + spec_emit_lines(
                    "# cellscript abi: validate Molecule table offsets a0=base a1=total_size a2=field_count a3=header_size"@,
                ) + four_lines("addi t0, a0, 4"@, "mv t1, a2"@, "mv t2, a3"@, "mv a5, a2"@),
            ),
    {
        let ghost l0 = self.lines();
        self.emit_helper_entry("__cellscript_validate_molecule_table_offsets");
        self.emit("# cellscript abi: validate Molecule table offsets a0=base a1=total_size a2=field_count a3=header_size");
        self.emit4("addi t0, a0, 4", "mv t1, a2", "mv t2, a3", "mv a5, a2");
        proof {
            lemma_join3(
                l0,
                helper_entry_lines("__cellscript_validate_molecule_table_offsets"@),
                spec_emit_lines(
                    "# cellscript abi: validate Molecule table offsets a0=base a1=total_size a2=field_count a3=header_size"@,
                ),
                four_lines("addi t0, a0, 4"@, "mv t1, a2"@, "mv t2, a3"@, "mv a5, a2"@),
            );
        }
    }

    fn emit_molecule_guard_word(&mut self)
        ensures
            final(self).text_appended(
                old(self),
                four_lines("li t3, 0"@, "lbu a4, 0(t0)"@, "or t3, t3, a4"@, "lbu a4, 1(t0)"@) + four_lines(
                    "slli a4, a4, 8"@,
                    "or t3, t3, a4"@,
                    "lbu a4, 2(t0)"@,
                    "slli a4, a4, 16"@,
                ) + four_lines("or t3, t3, a4"@, "lbu a4, 3(t0)"@, "slli a4, a4, 24"@, "or t3, t3, a4"@),
            ),
    {
        let ghost l0 = self.lines();
        self.emit4("li t3, 0", "lbu a4, 0(t0)", "or t3, t3, a4", "lbu a4, 1(t0)");
        self.emit4("slli a4, a4, 8", "or t3, t3, a4", "lbu a4, 2(t0)", "slli a4, a4, 16");
        self.emit4("or t3, t3, a4", "lbu a4, 3(t0)", "slli a4, a4, 24", "or t3, t3, a4");
        proof {
            lemma_join3(
                l0,
                four_lines("li t3, 0"@, "lbu a4, 0(t0)"@, "or t3, t3, a4"@, "lbu a4, 1(t0)"@),
                four_lines("slli a4, a4, 8"@, "or t3, t3, a4"@, "lbu a4, 2(t0)"@, "slli a4, a4, 16"@),
                four_lines("or t3, t3, a4"@, "lbu a4, 3(t0)"@, "slli a4, a4, 24"@, "or t3, t3, a4"@),
            );
        }
    }

    fn emit_molecule_guard_scan(&mut self)
        ensures
            final(self).text_appended(old(self), molecule_guard_scan_lines()),
    {
        let ghost l0 = self.lines();
        self.emit_molecule_guard_setup();
        self.emit_label(".L__cellscript_molecule_offsets_loop");
        self.emit("beqz t1, .L__cellscript_molecule_offsets_ok");
        self.emit_molecule_guard_word();
        proof {
            reveal(molecule_guard_scan_lines);
            lemma_join4(
                l0,
                helper_entry_lines("__cellscript_validate_molecule_table_offsets"@) + spec_emit_lines(
                    "# cellscript abi: validate Molecule table offsets a0=base a1=total_size a2=field_count a3=header_size"@,
                ) + four_lines("addi t0, a0, 4"@, "mv t1, a2"@, "mv t2, a3"@, "mv a5, a2"@),
                label_line(".L__cellscript_molecule_offsets_loop"@),
                spec_emit_lines("beqz t1, .L__cellscript_molecule_offsets_ok"@),
                four_lines("li t3, 0"@, "lbu a4, 0(t0)"@, "or t3, t3, a4"@, "lbu a4, 1(t0)"@) + four_lines(
                    "slli a4, a4, 8"@,
                    "or t3, t3, a4"@,
                    "lbu a4, 2(t0)"@,
                    "slli a4, a4, 16"@,
                ) + four_lines("or t3, t3, a4"@, "lbu a4, 3(t0)"@, "slli a4, a4, 24"@, "or t3, t3, a4"@),
            );
            assert(self.lines() =~= l0 + molecule_guard_scan_lines());
        }
    }

    fn emit_molecule_guard_bounds(&mut self)
        ensures
            final(self).text_appended(
                old(self),
                spec_emit_lines("bne t1, a5, .L__cellscript_molecule_offsets_not_first"@)
                    + two_lines("sub a4, t3, a3"@, "bnez a4, .L__cellscript_molecule_offsets_fail"@)
                    + spec_emit_lines("j .L__cellscript_molecule_offsets_lower_bound_ok"@)
                    + label_line(".L__cellscript_molecule_offsets_not_first"@)
                    + two_lines("sltu a4, t3, t2"@, "bnez a4, .L__cellscript_molecule_offsets_fail"@),
            ),
    {
        let ghost l0 = self.lines();
        self.emit("bne t1, a5, .L__cellscript_molecule_offsets_not_first");
        self.emit2("sub a4, t3, a3", "bnez a4, .L__cellscript_molecule_offsets_fail");
        self.emit("j .L__cellscript_molecule_offsets_lower_bound_ok");
        self.emit_label(".L__cellscript_molecule_offsets_not_first");
        self.emit2("sltu a4, t3, t2", "bnez a4, .L__cellscript_molecule_offsets_fail");
        proof {
            lemma_join5(
                l0,
                spec_emit_lines("bne t1, a5, .L__cellscript_molecule_offsets_not_first"@),
                two_lines("sub a4, t3, a3"@, "bnez a4, .L__cellscript_molecule_offsets_fail"@),
                spec_emit_lines("j .L__cellscript_molecule_offsets_lower_bound_ok"@),
                label_line(".L__cellscript_molecule_offsets_not_first"@),
                two_lines("sltu a4, t3, t2"@, "bnez a4, .L__cellscript_molecule_offsets_fail"@),
            );
        }
    }

    fn emit_molecule_guard_exits(&mut self, bounds: &RuntimeFailure)
        ensures
            final(self).text_appended(
                old(self),
                label_line(".L__cellscript_molecule_offsets_ok"@) + two_lines("li a0, 0"@, "ret"@) + label_line(
                    ".L__cellscript_molecule_offsets_fail"@,
                ) + fail_ret_lines(*bounds),
            ),
    {
        let ghost l0 = self.lines();
        self.emit_label(".L__cellscript_molecule_offsets_ok");
        self.emit2("li a0, 0", "ret");
        self.emit_label(".L__cellscript_molecule_offsets_fail");
        self.emit_runtime_fail_ret(bounds);
        proof {
            lemma_join4(
                l0,
                label_line(".L__cellscript_molecule_offsets_ok"@),
                two_lines("li a0, 0"@, "ret"@),
                label_line(".L__cellscript_molecule_offsets_fail"@),
                fail_ret_lines(*bounds),
            );
        }
    }

    fn emit_molecule_guard_check(&mut self, bounds: &RuntimeFailure)
        ensures
            final(self).text_appended(old(self), molecule_guard_check_lines(*bounds)),
    {
        let ghost l0 = self.lines();
        self.emit_molecule_guard_bounds();
        self.emit_label(".L__cellscript_molecule_offsets_lower_bound_ok");
        self.emit4("sltu a4, a1, t3", "bnez a4, .L__cellscript_molecule_offsets_fail", "mv t2, t3", "addi t0, t0, 4");
        self.emit2("addi t1, t1, -1", "j .L__cellscript_molecule_offsets_loop");
        self.emit_molecule_guard_exits(bounds);
        proof {
            reveal(molecule_guard_check_lines);
            lemma_join5(
                l0,
                spec_emit_lines("bne t1, a5, .L__cellscript_molecule_offsets_not_first"@)
                    + two_lines("sub a4, t3, a3"@, "bnez a4, .L__cellscript_molecule_offsets_fail"@)
                    + spec_emit_lines("j .L__cellscript_molecule_offsets_lower_bound_ok"@)
                    + label_line(".L__cellscript_molecule_offsets_not_first"@)
                    + two_lines("sltu a4, t3, t2"@, "bnez a4, .L__cellscript_molecule_offsets_fail"@),
                label_line(".L__cellscript_molecule_offsets_lower_bound_ok"@),
                four_lines("sltu a4, a1, t3"@, "bnez a4, .L__cellscript_molecule_offsets_fail"@, "mv t2, t3"@, "addi t0, t0, 4"@),
                two_lines("addi t1, t1, -1"@, "j .L__cellscript_molecule_offsets_loop"@),
                label_line(".L__cellscript_molecule_offsets_ok"@) + two_lines("li a0, 0"@, "ret"@) + label_line(
                    ".L__cellscript_molecule_offsets_fail"@,
                ) + fail_ret_lines(*bounds),
            );
            assert(self.lines() =~= l0 + molecule_guard_check_lines(*bounds));
        }
    }

    /// The helper that validates the offsets of a Molecule table header;
    /// `bounds` is the error it reports when they do not hold.
    pub fn emit_runtime_molecule_table_offset_guard(&mut self, bounds: &RuntimeFailure)
        ensures
            final(self).text_appended(old(self), molecule_offset_guard_lines(*bounds)),
    {
        let ghost l0 = self.lines();
        self.emit_molecule_guard_scan();
        self.emit_molecule_guard_check(bounds);
        proof {
            lemma_join2(l0, molecule_guard_scan_lines(), molecule_guard_check_lines(*bounds));
        }
    }
}


// ---------------------------------------------------------------------------
// Blake2b-256 with the CKB personalization
// ---------------------------------------------------------------------------

/// Low word of the personalization `ckb-default-hash`: the bytes `ckb-defa`, little-endian.
pub const CKB_PERSONAL_LO: u64 = 0x616665642d626b63;
/// High word of the personalization: the bytes `ult-hash`, little-endian.
pub const CKB_PERSONAL_HI: u64 = 0x687361682d746c75;

/// Byte offsets in the helper's stack frame: the chained state, the working
/// vector, the message block, and the whole frame.
pub const BLAKE2B_H_BASE: usize = 0;
pub const BLAKE2B_V_BASE: usize = 64;
pub const BLAKE2B_M_BASE: usize = 192;
pub const BLAKE2B_FRAME: usize = 320;

/// The Blake2b initialization vector.
pub open spec fn blake2b_iv() -> Seq<u64> {
    seq![
        0x6a09e667f3bcc908u64,
        0xbb67ae8584caa73bu64,
        0x3c6ef372fe94f82bu64,
        0xa54ff53a5f1d36f1u64,
        0x510e527fade682d1u64,
        0x9b05688c2b3e6c1fu64,
        0x1f83d9abfb41bd6bu64,
        0x5be0cd19137e2179u64,
    ]
}

/// The initial chained state for a 32-byte digest without a key, personalized for CKB.
pub open spec fn blake2b_h0() -> Seq<u64> {
    let iv = blake2b_iv();
    seq![
        iv[0] ^ 0x01010020u64,
        iv[1],
        iv[2],
        iv[3],
        iv[4],
        iv[5],
        iv[6] ^ CKB_PERSONAL_LO,
        iv[7] ^ CKB_PERSONAL_HI,
    ]
}

/// The message schedule of the twelve rounds.
pub open spec fn blake2b_sigma() -> Seq<Seq<usize>> {
    seq![
        seq![0usize, 1, 2, 3, 4, 5, 6, 7, 8, 9, 10, 11, 12, 13, 14, 15],
        seq![14usize, 10, 4, 8, 9, 15, 13, 6, 1, 12, 0, 2, 11, 7, 5, 3],
        seq![11usize, 8, 12, 0, 5, 2, 15, 13, 10, 14, 3, 6, 7, 1, 9, 4],
        seq![7usize, 9, 3, 1, 13, 12, 11, 14, 2, 6, 5, 10, 4, 0, 15, 8],
        seq![9usize, 0, 5, 7, 2, 4, 10, 15, 14, 1, 11, 12, 6, 8, 3, 13],
        seq![2usize, 12, 6, 10, 0, 11, 8, 3, 4, 13, 7, 5, 15, 14, 1, 9],
        seq![12usize, 5, 1, 15, 14, 13, 4, 10, 0, 7, 6, 3, 9, 2, 8, 11],
        seq![13usize, 11, 7, 14, 12, 1, 3, 9, 5, 0, 15, 4, 8, 6, 2, 10],
        seq![6usize, 15, 14, 9, 11, 3, 0, 8, 12, 2, 13, 7, 1, 4, 10, 5],
        seq![10usize, 2, 8, 4, 7, 6, 1, 5, 15, 11, 9, 14, 3, 12, 13, 0],
        seq![0usize, 1, 2, 3, 4, 5, 6, 7, 8, 9, 10, 11, 12, 13, 14, 15],
        seq![14usize, 10, 4, 8, 9, 15, 13, 6, 1, 12, 0, 2, 11, 7, 5, 3],
    ]
}

/// The pool after storing the first `k` of `values`.
pub open spec fn pool_after_consts(pool: Seq<(Seq<char>, Seq<u8>)>, values: Seq<u64>, k: int) -> Seq<(Seq<char>, Seq<u8>)>
    decreases k,
{
    if k <= 0 {
        pool
    } else {
        pool_after(pool_after_consts(pool, values, k - 1), le_bytes(values[k - 1] as int, 8))
    }
}

/// Storing the first `k` of `values` at consecutive words from `base(sp)`.
pub open spec fn store_consts_lines(pool: Seq<(Seq<char>, Seq<u8>)>, values: Seq<u64>, base: int, k: int) -> Seq<Seq<char>>
    decreases k,
{
    if k <= 0 {
        Seq::empty()
    } else {
        store_consts_lines(pool, values, base, k - 1) + store_const_lines(
            pool_after_consts(pool, values, k - 1),
            values[k - 1],
            base + (k - 1) * 8,
        )
    }
}

/// Loading the first `k` input words into the message block.
pub open spec fn input_words_lines(k: int) -> Seq<Seq<char>>
    decreases k,
{
    if k <= 0 {
        Seq::empty()
    } else {
        input_words_lines(k - 1) + load_input_word_lines(k - 1, BLAKE2B_M_BASE + (k - 1) * 8)
    }
}

/// Zeroing message words `4..k`.
pub open spec fn zero_words_lines(k: int) -> Seq<Seq<char>>
    decreases k,
{
    if k <= 4 {
        Seq::empty()
    } else {
        zero_words_lines(k - 1) + stack_access_lines("sd"@, "zero"@, BLAKE2B_M_BASE + (k - 1) * 8)
    }
}

/// Copying the first `k` state words into the working vector.
pub open spec fn copy_state_lines(k: int) -> Seq<Seq<char>>
    decreases k,
{
    if k <= 0 {
        Seq::empty()
    } else {
        copy_state_lines(k - 1) + stack_access_lines("ld"@, "t0"@, BLAKE2B_H_BASE + (k - 1) * 8) + stack_access_lines(
            "sd"@,
            "t0"@,
            BLAKE2B_V_BASE + (k - 1) * 8,
        )
    }
}

/// `v[12] ^= 32` (the input length) and `v[14] = !v[14]` (the last block).
pub open spec fn tweak_lines() -> Seq<Seq<char>> {
    stack_access_lines("ld"@, "t0"@, BLAKE2B_V_BASE + 96) + spec_emit_lines("xori t0, t0, 32"@) + stack_access_lines(
        "sd"@,
        "t0"@,
        BLAKE2B_V_BASE + 96,
    ) + stack_access_lines("ld"@, "t0"@, BLAKE2B_V_BASE + 112) + spec_emit_lines("xori t0, t0, -1"@)
        + stack_access_lines("sd"@, "t0"@, BLAKE2B_V_BASE + 112)
}

/// The four column mixes of a round with message schedule `row`.
pub open spec fn column_lines(row: Seq<usize>) -> Seq<Seq<char>> {
    let v = BLAKE2B_V_BASE as int;
    let m = BLAKE2B_M_BASE as int;
    g_lines(v, m, 0, 4, 8, 12, row[0] as int, row[1] as int) + g_lines(v, m, 1, 5, 9, 13, row[2] as int, row[3] as int)
        + g_lines(v, m, 2, 6, 10, 14, row[4] as int, row[5] as int) + g_lines(v, m, 3, 7, 11, 15, row[6] as int, row[7] as int)
}

/// The four diagonal mixes of a round with message schedule `row`.
pub open spec fn diagonal_lines(row: Seq<usize>) -> Seq<Seq<char>> {
    let v = BLAKE2B_V_BASE as int;
    let m = BLAKE2B_M_BASE as int;
    g_lines(v, m, 0, 5, 10, 15, row[8] as int, row[9] as int) + g_lines(v, m, 1, 6, 11, 12, row[10] as int, row[11] as int)
        + g_lines(v, m, 2, 7, 8, 13, row[12] as int, row[13] as int) + g_lines(v, m, 3, 4, 9, 14, row[14] as int, row[15] as int)
}

/// The Blake2b mixing function G of RFC 7693 on the stack words at offsets
/// `a`, `b`, `c`, `d` with message words at offsets `x`, `y`, step by step:
/// `a = a + b + x; d = (d ^ a) >>> 32; c = c + d; b = (b ^ c) >>> 24;
///  a = a + b + y; d = (d ^ a) >>> 16; c = c + d; b = (b ^ c) >>> 63`.
pub open spec fn rfc7693_g_steps(a: int, b: int, c: int, d: int, x: int, y: int) -> Seq<Seq<char>> {
    mix_add_lines(a, b, Some(x)) + mix_xor_lines(d, a, 32) + mix_add_lines(c, d, None) + mix_xor_lines(b, c, 24)
        + mix_add_lines(a, b, Some(y)) + mix_xor_lines(d, a, 16) + mix_add_lines(c, d, None) + mix_xor_lines(b, c, 63)
}

proof fn lemma_chain_eight<A>(s0: Seq<A>, s1: Seq<A>, s2: Seq<A>, s3: Seq<A>, s4: Seq<A>, s5: Seq<A>, s6: Seq<A>, s7: Seq<A>)
    ensures
        s0 + s1 + s2 + s3 + (s4 + s5 + s6 + s7) == s0 + s1 + s2 + s3 + s4 + s5 + s6 + s7,
{
    assert(s0 + s1 + s2 + s3 + (s4 + s5 + s6 + s7) =~= s0 + s1 + s2 + s3 + s4 + s5 + s6 + s7);
}

/// The emitted G is RFC 7693's G, with its rotation distances 32, 24, 16
/// and 63 and the first message word mixed in before the second.
pub proof fn lemma_g_is_rfc7693(v_base: int, m_base: int, a: int, b: int, c: int, d: int, mx: int, my: int)
    ensures
        g_lines(v_base, m_base, a, b, c, d, mx, my) == rfc7693_g_steps(
            v_base + a * 8,
            v_base + b * 8,
            v_base + c * 8,
            v_base + d * 8,
            m_base + mx * 8,
            m_base + my * 8,
        ),
{
    let (pa, pb, pc, pd) = (v_base + a * 8, v_base + b * 8, v_base + c * 8, v_base + d * 8);
    lemma_chain_eight(
        mix_add_lines(pa, pb, Some(m_base + mx * 8)),
        mix_xor_lines(pd, pa, 32),
        mix_add_lines(pc, pd, None),
        mix_xor_lines(pb, pc, 24),
        mix_add_lines(pa, pb, Some(m_base + my * 8)),
        mix_xor_lines(pd, pa, 16),
        mix_add_lines(pc, pd, None),
        mix_xor_lines(pb, pc, 63),
    );
}

/// Each row of the message schedule is a permutation of the sixteen
/// message words: it names each word exactly once (the word at position
/// `sigma_position(r, w)` of row `r` is `w`); the last two rounds reuse the
/// first two rows.
pub proof fn lemma_sigma_permutations(r: int, w: int)
    requires
        0 <= r < 12,
        0 <= w < 16,
    ensures
        blake2b_sigma().len() == 12,
        blake2b_sigma()[r].len() == 16,
        exists|i: int| 0 <= i < 16 && blake2b_sigma()[r][i] == w,
        forall|i: int, j: int| 0 <= i < 16 && 0 <= j < 16 && blake2b_sigma()[r][i] == w && blake2b_sigma()[r][j] == w ==> i == j,
        blake2b_sigma()[10] == blake2b_sigma()[0],
        blake2b_sigma()[11] == blake2b_sigma()[1],
{
    let row = blake2b_sigma()[r];
    assert(exists|i: int| 0 <= i < 16 && row[i] == w) by {
        if r == 0 || r == 10 {
            assert(row[w] == w);
        } else {
            assert(row[0] == w || row[1] == w || row[2] == w || row[3] == w || row[4] == w || row[5] == w || row[6] == w
                || row[7] == w || row[8] == w || row[9] == w || row[10] == w || row[11] == w || row[12] == w
                || row[13] == w || row[14] == w || row[15] == w);
        }
    }
}

/// The working-vector words that the `i`-th G of a round mixes, as RFC 7693
/// lays them out: columns `(i, 4+i, 8+i, 12+i)` for `i < 4`, then the
/// diagonals, each starting at `i - 4` and stepping one column to the right
/// per row.
pub open spec fn rfc7693_g_words(i: int) -> (int, int, int, int) {
    if i < 4 {
        (i, 4 + i, 8 + i, 12 + i)
    } else {
        let k = i - 4;
        (k, 4 + (k + 1) % 4, 8 + (k + 2) % 4, 12 + (k + 3) % 4)
    }
}

/// One G call on the hash state's working vector and message block.
#[verifier::opaque]
pub open spec fn blake2b_g(a: int, b: int, c: int, d: int, mx: int, my: int) -> Seq<Seq<char>> {
    g_lines(BLAKE2B_V_BASE as int, BLAKE2B_M_BASE as int, a, b, c, d, mx, my)
}

/// The first `k` G calls of a round per RFC 7693: the `i`-th mixes message
/// words `m[row[2i]]` and `m[row[2i + 1]]`, in that order.
pub open spec fn rfc7693_round_lines(row: Seq<usize>, k: int) -> Seq<Seq<char>>
    decreases k,
{
    if k <= 0 {
        Seq::empty()
    } else {
        let (a, b, c, d) = rfc7693_g_words(k - 1);
        rfc7693_round_lines(row, k - 1) + blake2b_g(a, b, c, d, row[2 * (k - 1)] as int, row[2 * (k - 1) + 1] as int)
    }
}

proof fn lemma_rfc7693_mix(row: Seq<usize>, k: int, a: int, b: int, c: int, d: int)
    requires
        k > 0,
        rfc7693_g_words(k - 1) == (a, b, c, d),
    ensures
        rfc7693_round_lines(row, k) == rfc7693_round_lines(row, k - 1)
            + blake2b_g(a, b, c, d, row[2 * (k - 1)] as int, row[2 * (k - 1) + 1] as int),
{
}

proof fn lemma_column_parts(row: Seq<usize>)
    ensures
        column_lines(row) == blake2b_g(0, 4, 8, 12, row[0] as int, row[1] as int) + blake2b_g(1, 5, 9, 13, row[2] as int, row[3] as int)
            + blake2b_g(2, 6, 10, 14, row[4] as int, row[5] as int) + blake2b_g(3, 7, 11, 15, row[6] as int, row[7] as int),
{
    reveal(blake2b_g);
}

proof fn lemma_diagonal_parts(row: Seq<usize>)
    ensures
        diagonal_lines(row) == blake2b_g(0, 5, 10, 15, row[8] as int, row[9] as int) + blake2b_g(1, 6, 11, 12, row[10] as int, row[11] as int)
            + blake2b_g(2, 7, 8, 13, row[12] as int, row[13] as int) + blake2b_g(3, 4, 9, 14, row[14] as int, row[15] as int),
{
    reveal(blake2b_g);
}

proof fn lemma_seq_assoc<A>(a: Seq<A>, b: Seq<A>, c: Seq<A>)
    ensures
        a + b + c == a + (b + c),
{
    assert(a + b + c =~= a + (b + c));
}

proof fn lemma_chain_four<A>(r4: Seq<A>, r5: Seq<A>, r6: Seq<A>, r7: Seq<A>, r8: Seq<A>, g4: Seq<A>, g5: Seq<A>, g6: Seq<A>, g7: Seq<A>)
    requires
        r5 == r4 + g4,
        r6 == r5 + g5,
        r7 == r6 + g6,
        r8 == r7 + g7,
    ensures
        r8 == r4 + (g4 + g5 + g6 + g7),
{
    assert(r8 =~= r4 + (g4 + g5 + g6 + g7));
}

/// A round as emitted, its column mixes then its diagonal mixes, is the
/// RFC 7693 round: eight G calls on the words and message words the RFC
/// names, the sixth `G(v, 1, 6, 11, 12, m[row[10]], m[row[11]])`.
pub proof fn lemma_round_is_rfc7693(row: Seq<usize>)
    ensures
        column_lines(row) + diagonal_lines(row) == rfc7693_round_lines(row, 8),
{
    let e = Seq::<Seq<char>>::empty();
    assert(rfc7693_round_lines(row, 0) == e);
    lemma_rfc7693_mix(row, 1, 0, 4, 8, 12);
    lemma_rfc7693_mix(row, 2, 1, 5, 9, 13);
    lemma_rfc7693_mix(row, 3, 2, 6, 10, 14);
    lemma_rfc7693_mix(row, 4, 3, 7, 11, 15);
    lemma_rfc7693_mix(row, 5, 0, 5, 10, 15);
    lemma_rfc7693_mix(row, 6, 1, 6, 11, 12);
    lemma_rfc7693_mix(row, 7, 2, 7, 8, 13);
    lemma_rfc7693_mix(row, 8, 3, 4, 9, 14);
    let g0 = blake2b_g(0, 4, 8, 12, row[0] as int, row[1] as int);
    let g1 = blake2b_g(1, 5, 9, 13, row[2] as int, row[3] as int);
    let g2 = blake2b_g(2, 6, 10, 14, row[4] as int, row[5] as int);
    let g3 = blake2b_g(3, 7, 11, 15, row[6] as int, row[7] as int);
    lemma_chain_four(e, rfc7693_round_lines(row, 1), rfc7693_round_lines(row, 2), rfc7693_round_lines(row, 3),
        rfc7693_round_lines(row, 4), g0, g1, g2, g3);
    assert(e + (g0 + g1 + g2 + g3) =~= g0 + g1 + g2 + g3);
    lemma_column_parts(row);
    lemma_chain_four(rfc7693_round_lines(row, 4), rfc7693_round_lines(row, 5), rfc7693_round_lines(row, 6),
        rfc7693_round_lines(row, 7), rfc7693_round_lines(row, 8),
        blake2b_g(0, 5, 10, 15, row[8] as int, row[9] as int), blake2b_g(1, 6, 11, 12, row[10] as int, row[11] as int),
        blake2b_g(2, 7, 8, 13, row[12] as int, row[13] as int), blake2b_g(3, 4, 9, 14, row[14] as int, row[15] as int));
    lemma_diagonal_parts(row);
}

/// The emitted rounds are the RFC 7693 rounds, round `r` with message
/// schedule `sigma[r]`.
pub open spec fn rfc7693_rounds_lines(k: int) -> Seq<Seq<char>>
    decreases k,
{
    if k <= 0 {
        Seq::empty()
    } else {
        rfc7693_rounds_lines(k - 1) + rfc7693_round_lines(blake2b_sigma()[k - 1], 8)
    }
}

pub proof fn lemma_rounds_are_rfc7693(k: int)
    ensures
        rounds_lines(k) == rfc7693_rounds_lines(k),
    decreases k,
{
    if k > 0 {
        lemma_rounds_are_rfc7693(k - 1);
        lemma_round_is_rfc7693(blake2b_sigma()[k - 1]);
        let c = column_lines(blake2b_sigma()[k - 1]);
        let d = diagonal_lines(blake2b_sigma()[k - 1]);
        lemma_seq_assoc(rounds_lines(k - 1), c, d);
    }
}

/// The first `k` rounds.
pub open spec fn rounds_lines(k: int) -> Seq<Seq<char>>
    decreases k,
{
    if k <= 0 {
        Seq::empty()
    } else {
        rounds_lines(k - 1) + column_lines(blake2b_sigma()[k - 1]) + diagonal_lines(blake2b_sigma()[k - 1])
    }
}

/// `h[i] ^= v[i] ^ v[i + 8]`.
pub open spec fn fold_word_lines(i: int) -> Seq<Seq<char>> {
    stack_access_lines("ld"@, "t0"@, BLAKE2B_H_BASE + i * 8) + stack_access_lines("ld"@, "t1"@, BLAKE2B_V_BASE + i * 8)
        + spec_emit_lines("xor t0, t0, t1"@) + stack_access_lines("ld"@, "t1"@, BLAKE2B_V_BASE + (i + 8) * 8)
        + spec_emit_lines("xor t0, t0, t1"@) + stack_access_lines("sd"@, "t0"@, BLAKE2B_H_BASE + i * 8)
}

/// Folding the first `k` state words.
pub open spec fn fold_lines(k: int) -> Seq<Seq<char>>
    decreases k,
{
    if k <= 0 {
        Seq::empty()
    } else {
        fold_lines(k - 1) + fold_word_lines(k - 1)
    }
}

/// Writing state word `i` to the output at `a1`.
pub open spec fn output_word_lines(i: int) -> Seq<Seq<char>> {
    stack_access_lines("ld"@, "t0"@, BLAKE2B_H_BASE + i * 8) + spec_emit_lines(mem_body("sd"@, "t0"@, i * 8, "a1"@))
}

/// Writing the first `k` state words to the output.
pub open spec fn output_lines(k: int) -> Seq<Seq<char>>
    decreases k,
{
    if k <= 0 {
        Seq::empty()
    } else {
        output_lines(k - 1) + output_word_lines(k - 1)
    }
}

/// The pool after the helper stores its constants: the initial state, then the vector.
pub open spec fn blake2b_pool(pool: Seq<(Seq<char>, Seq<u8>)>) -> Seq<(Seq<char>, Seq<u8>)> {
    pool_after_consts(pool_after_consts(pool, blake2b_h0(), 8), blake2b_iv(), 8)
}

/// Setting up the frame, the state, the message block and the working vector.
pub open spec fn blake2b_setup_lines(pool: Seq<(Seq<char>, Seq<u8>)>) -> Seq<Seq<char>> {
    large_addi_lines_spec("sp"@, "sp"@, -320) + store_consts_lines(pool, blake2b_h0(), BLAKE2B_H_BASE as int, 8)
        + input_words_lines(4) + zero_words_lines(16) + copy_state_lines(8) + store_consts_lines(
        pool_after_consts(pool, blake2b_h0(), 8),
        blake2b_iv(),
        BLAKE2B_V_BASE + 64,
        8,
    ) + tweak_lines()
}

/// The twelve rounds, the final state, its first four words written out, and the return.
pub open spec fn blake2b_finish_lines() -> Seq<Seq<char>> {
    rounds_lines(12) + fold_lines(8) + output_lines(4) + large_addi_lines_spec("sp"@, "sp"@, 320) + two_lines(
        "li a0, 0"@,
        "ret"@,
    )
}

/// The Blake2b-256 helper: the digest of the 32 bytes at `a0` written to the
/// 32 bytes at `a1`; when disabled, it reports `failure` instead.
pub open spec fn blake2b_hash32_lines(pool: Seq<(Seq<char>, Seq<u8>)>, enabled: bool, failure: RuntimeFailure) -> Seq<Seq<char>> {
    helper_entry_lines("__ckb_hash_blake2b"@) + spec_emit_lines(
        "# cellscript abi: CKB Blake2b-256 helper; a0=input[32], a1=output[32], returns a0=0"@,
    ) + if enabled {
        blake2b_setup_lines(pool) + blake2b_finish_lines()
    } else {
        fail_ret_lines(failure)
    }
}

/// The eight little-endian bytes of `v`.
fn u64_le_bytes(v: u64) -> (r: Vec<u8>)
    ensures
        r@ == le_bytes(v as int, 8),
{
    let mut r: Vec<u8> = Vec::new();
    let mut x: u64 = v;
    let mut k: usize = 0;
    while k < 8
        invariant
            k <= 8,
            r@ + le_bytes(x as int, (8 - k) as nat) == le_bytes(v as int, 8),
        decreases 8 - k,
    {
        let ghost before = r@;
        assert(le_bytes(x as int, (8 - k) as nat) == seq![(x as int % 256) as u8] + le_bytes(x as int / 256, (8 - k - 1) as nat));
        r.push((x % 256) as u8);
        assert(r@ + le_bytes((x / 256) as int, (8 - k - 1) as nat) =~= before + (seq![(x as int % 256) as u8] + le_bytes(
            x as int / 256,
            (8 - k - 1) as nat,
        )));
        x = x / 256;
        k = k + 1;
    }
    assert(r@ =~= r@ + le_bytes(x as int, 0));
    r
}

impl CodeGenerator {
    /// `reg = rotr(reg, bits)`, clobbering `t1`.
    pub fn emit_blake2b_rotr(&mut self, register: &str, bits: usize)
        requires
            bits <= 64,
        ensures
            final(self).text_appended(old(self), rotr_lines(register@, bits as int)),
    {
        let ghost l0 = self.lines();
        let a = mk_rri("srli", "t1", register, bits as i128);
        self.emit(a.as_str());
        let b = mk_rri("slli", register, register, (64 - bits) as i128);
        self.emit(b.as_str());
        let c = mk_rrr("or", register, register, "t1");
        self.emit(c.as_str());
        proof {
            lemma_join3(
                l0,
                spec_emit_lines(rri_body("srli"@, "t1"@, register@, bits as int)),
                spec_emit_lines(rri_body("slli"@, register@, register@, 64 - bits)),
                spec_emit_lines(rrr_body("or"@, register@, register@, "t1"@)),
            );
        }
    }

    fn emit_input_byte(&mut self, word_index: usize, byte_index: usize)
        requires
            byte_index < 8,
            word_index * 8 + 8 <= i64::MAX,
            word_index * 8 + 8 <= usize::MAX,
        ensures
            final(self).text_appended(old(self), input_byte_lines(word_index as int, byte_index as int)),
    {
        let ghost l0 = self.lines();
        let absolute = word_index * 8 + byte_index;
        let load = mk_mem("lbu", "t1", absolute as i128, "a0");
        self.emit(load.as_str());
        if byte_index > 0 {
            let shift = mk_rri("slli", "t1", "t1", (byte_index * 8) as i128);
            self.emit(shift.as_str());
        }
        self.emit("or t0, t0, t1");
        proof {
            let shift = if byte_index > 0 {
                spec_emit_lines(rri_body("slli"@, "t1"@, "t1"@, byte_index * 8))
            } else {
                Seq::empty()
            };
            assert(l0 + spec_emit_lines(mem_body("lbu"@, "t1"@, word_index * 8 + byte_index, "a0"@)) + Seq::<Seq<char>>::empty()
                =~= l0 + spec_emit_lines(mem_body("lbu"@, "t1"@, word_index * 8 + byte_index, "a0"@)));
            lemma_join3(
                l0,
                spec_emit_lines(mem_body("lbu"@, "t1"@, word_index * 8 + byte_index, "a0"@)),
                shift,
                spec_emit_lines("or t0, t0, t1"@),
            );
        }
    }

    /// Loads input word `word_index` (little-endian, byte by byte from `a0`)
    /// and stores it at `stack_offset(sp)`.
    pub fn emit_blake2b_load_input_word(&mut self, word_index: usize, stack_offset: usize)
        requires
            word_index * 8 + 8 <= i64::MAX,
            word_index * 8 + 8 <= usize::MAX,
            stack_offset <= i64::MAX,
        ensures
            final(self).text_appended(old(self), load_input_word_lines(word_index as int, stack_offset as int)),
    {
        let ghost l0 = self.lines();
        self.emit("li t0, 0");
        let mut byte_index: usize = 0;
        while byte_index < 8
            invariant
                byte_index <= 8,
                word_index * 8 + 8 <= i64::MAX,
                word_index * 8 + 8 <= usize::MAX,
                self.text_appended(old(self), spec_emit_lines("li t0, 0"@) + input_word_byte_lines(word_index as int, byte_index as int)),
            decreases 8 - byte_index,
        {
            let ghost lb = self.lines();
            self.emit_input_byte(word_index, byte_index);
            proof {
                lemma_join2(
                    old(self).lines(),
                    spec_emit_lines("li t0, 0"@) + input_word_byte_lines(word_index as int, byte_index as int),
                    input_byte_lines(word_index as int, byte_index as int),
                );
                lemma_join2(
                    spec_emit_lines("li t0, 0"@),
                    input_word_byte_lines(word_index as int, byte_index as int),
                    input_byte_lines(word_index as int, byte_index as int),
                );
            }
            byte_index = byte_index + 1;
        }
        self.emit_stack_store("t0", stack_offset);
        proof {
            lemma_join2(
                l0,
                spec_emit_lines("li t0, 0"@) + input_word_byte_lines(word_index as int, 8),
                stack_access_lines("sd"@, "t0"@, stack_offset as int),
            );
        }
    }

    /// Pools the eight little-endian bytes of `value` and stores the word at `stack_offset(sp)`.
    pub fn emit_blake2b_store_const(&mut self, value: u64, stack_offset: usize)
        requires
            stack_offset <= i64::MAX,
        ensures
            final(self).lines() == old(self).lines() + store_const_lines(old(self).pool(), value, stack_offset as int),
            final(self).pool() == pool_after(old(self).pool(), le_bytes(value as int, 8)),
            final(self).same_state(old(self)),
            final(self).next_runtime_label == old(self).next_runtime_label,
    {
        let ghost l0 = self.lines();
        let ghost p0 = self.pool();
        let bytes = u64_le_bytes(value);
        let label = self.const_data_label_for_bytes(bytes);
        let mut la = String::new();
        string_push_str(&mut la, "la t0, ");
        string_push_str(&mut la, label.as_str());
        self.emit(la.as_str());
        self.emit("ld t0, 0(t0)");
        self.emit_stack_store("t0", stack_offset);
        proof {
            lemma_join3(
                l0,
                spec_emit_lines("la t0, "@ + pooled_label(p0, le_bytes(value as int, 8))),
                spec_emit_lines("ld t0, 0(t0)"@),
                stack_access_lines("sd"@, "t0"@, stack_offset as int),
            );
        }
    }

    fn emit_mix_add(&mut self, x: usize, y: usize, m: Option<usize>)
        requires
            x <= i64::MAX,
            y <= i64::MAX,
            m matches Some(mo) ==> mo <= i64::MAX,
        ensures
            final(self).text_appended(
                old(self),
                mix_add_lines(
                    x as int,
                    y as int,
                    match m {
                        Some(mo) => Some(mo as int),
                        None => None,
                    },
                ),
            ),
    {
        let ghost l0 = self.lines();
        self.emit_stack_load("t0", x);
        self.emit_stack_load("t1", y);
        self.emit("add t0, t0, t1");
        let ghost mid = match m {
            Some(mo) => stack_access_lines("ld"@, "t1"@, mo as int) + spec_emit_lines("add t0, t0, t1"@),
            None => Seq::<Seq<char>>::empty(),
        };
        if let Some(mo) = m {
            let ghost l1 = self.lines();
            self.emit_stack_load("t1", mo);
            self.emit("add t0, t0, t1");
            proof {
                lemma_join2(l1, stack_access_lines("ld"@, "t1"@, mo as int), spec_emit_lines("add t0, t0, t1"@));
            }
        } else {
            assert(self.lines() =~= self.lines() + mid);
        }
        self.emit_stack_store("t0", x);
        proof {
            lemma_join5(
                l0,
                stack_access_lines("ld"@, "t0"@, x as int),
                stack_access_lines("ld"@, "t1"@, y as int),
                spec_emit_lines("add t0, t0, t1"@),
                mid,
                stack_access_lines("sd"@, "t0"@, x as int),
            );
        }
    }

    fn emit_mix_xor(&mut self, x: usize, y: usize, bits: usize)
        requires
            x <= i64::MAX,
            y <= i64::MAX,
            bits <= 64,
        ensures
            final(self).text_appended(old(self), mix_xor_lines(x as int, y as int, bits as int)),
    {
        let ghost l0 = self.lines();
        self.emit_stack_load("t0", x);
        self.emit_stack_load("t1", y);
        self.emit("xor t0, t0, t1");
        self.emit_blake2b_rotr("t0", bits);
        self.emit_stack_store("t0", x);
        proof {
            lemma_join5(
                l0,
                stack_access_lines("ld"@, "t0"@, x as int),
                stack_access_lines("ld"@, "t1"@, y as int),
                spec_emit_lines("xor t0, t0, t1"@),
                rotr_lines("t0"@, bits as int),
                stack_access_lines("sd"@, "t0"@, x as int),
            );
        }
    }

    fn emit_g_half(&mut self, a: usize, b: usize, c: usize, d: usize, m: usize, r1: usize, r2: usize)
        requires
            a <= i64::MAX,
            b <= i64::MAX,
            c <= i64::MAX,
            d <= i64::MAX,
            m <= i64::MAX,
            r1 <= 64,
            r2 <= 64,
        ensures
            final(self).text_appended(
                old(self),
                g_half_lines(a as int, b as int, c as int, d as int, m as int, r1 as int, r2 as int),
            ),
    {
        let ghost l0 = self.lines();
        self.emit_mix_add(a, b, Some(m));
        self.emit_mix_xor(d, a, r1);
        self.emit_mix_add(c, d, None);
        self.emit_mix_xor(b, c, r2);
        proof {
            lemma_join4(
                l0,
                mix_add_lines(a as int, b as int, Some(m as int)),
                mix_xor_lines(d as int, a as int, r1 as int),
                mix_add_lines(c as int, d as int, None),
                mix_xor_lines(b as int, c as int, r2 as int),
            );
        }
    }

    /// The Blake2b G function on the working vector at `v_base(sp)` with the
    /// message words at `m_base(sp)`.
    pub fn emit_blake2b_g(&mut self, v_base: usize, m_base: usize, a: usize, b: usize, c: usize, d: usize, mx: usize, my: usize)
        requires
            v_base + a * 8 <= i64::MAX,
            v_base + b * 8 <= i64::MAX,
            v_base + c * 8 <= i64::MAX,
            v_base + d * 8 <= i64::MAX,
            m_base + mx * 8 <= i64::MAX,
            m_base + my * 8 <= i64::MAX,
            v_base + a * 8 <= usize::MAX,
            v_base + b * 8 <= usize::MAX,
            v_base + c * 8 <= usize::MAX,
            v_base + d * 8 <= usize::MAX,
            m_base + mx * 8 <= usize::MAX,
            m_base + my * 8 <= usize::MAX,
        ensures
            final(self).text_appended(
                old(self),
                g_lines(v_base as int, m_base as int, a as int, b as int, c as int, d as int, mx as int, my as int),
            ),
    {
        let ghost l0 = self.lines();
        let va = v_base + a * 8;
        let vb = v_base + b * 8;
        let vc = v_base + c * 8;
        let vd = v_base + d * 8;
        let vmx = m_base + mx * 8;
        let vmy = m_base + my * 8;
        self.emit_g_half(va, vb, vc, vd, vmx, 32, 24);
        self.emit_g_half(va, vb, vc, vd, vmy, 16, 63);
        proof {
            lemma_join2(
                l0,
                g_half_lines(va as int, vb as int, vc as int, vd as int, vmx as int, 32, 24),
                g_half_lines(va as int, vb as int, vc as int, vd as int, vmy as int, 16, 63),
            );
        }
    }
}

fn blake2b_iv_words() -> (r: [u64; 8])
    ensures
        r@ == blake2b_iv(),
{
    let r: [u64; 8] = [
        0x6a09e667f3bcc908,
        0xbb67ae8584caa73b,
        0x3c6ef372fe94f82b,
        0xa54ff53a5f1d36f1,
        0x510e527fade682d1,
        0x9b05688c2b3e6c1f,
        0x1f83d9abfb41bd6b,
        0x5be0cd19137e2179,
    ];
    assert(r@ =~= blake2b_iv());
    r
}

fn blake2b_h0_words() -> (r: [u64; 8])
    ensures
        r@ == blake2b_h0(),
{
    let iv = blake2b_iv_words();
    let r: [u64; 8] = [
        iv[0] ^ 0x01010020,
        iv[1],
        iv[2],
        iv[3],
        iv[4],
        iv[5],
        iv[6] ^ CKB_PERSONAL_LO,
        iv[7] ^ CKB_PERSONAL_HI,
    ];
    assert(r@ =~= blake2b_h0());
    r
}

fn blake2b_sigma_row(r: usize) -> (row: [usize; 16])
    requires
        r < 12,
    ensures
        row@ == blake2b_sigma()[r as int],
        forall|i: int| 0 <= i < 16 ==> row@[i] < 16,
{
    let row: [usize; 16] = match r {
        0 => [0, 1, 2, 3, 4, 5, 6, 7, 8, 9, 10, 11, 12, 13, 14, 15],
        1 => [14, 10, 4, 8, 9, 15, 13, 6, 1, 12, 0, 2, 11, 7, 5, 3],
        2 => [11, 8, 12, 0, 5, 2, 15, 13, 10, 14, 3, 6, 7, 1, 9, 4],
        3 => [7, 9, 3, 1, 13, 12, 11, 14, 2, 6, 5, 10, 4, 0, 15, 8],
        4 => [9, 0, 5, 7, 2, 4, 10, 15, 14, 1, 11, 12, 6, 8, 3, 13],
        5 => [2, 12, 6, 10, 0, 11, 8, 3, 4, 13, 7, 5, 15, 14, 1, 9],
        6 => [12, 5, 1, 15, 14, 13, 4, 10, 0, 7, 6, 3, 9, 2, 8, 11],
        7 => [13, 11, 7, 14, 12, 1, 3, 9, 5, 0, 15, 4, 8, 6, 2, 10],
        8 => [6, 15, 14, 9, 11, 3, 0, 8, 12, 2, 13, 7, 1, 4, 10, 5],
        9 => [10, 2, 8, 4, 7, 6, 1, 5, 15, 11, 9, 14, 3, 12, 13, 0],
        10 => [0, 1, 2, 3, 4, 5, 6, 7, 8, 9, 10, 11, 12, 13, 14, 15],
        _ => [14, 10, 4, 8, 9, 15, 13, 6, 1, 12, 0, 2, 11, 7, 5, 3],
    };
    assert(row@ =~= blake2b_sigma()[r as int]);
    row
}

impl CodeGenerator {
    /// Lines were appended and the pool is now `pool`; nothing else changed.
    pub open spec fn appended_pooled(&self, old: &CodeGenerator, added: Seq<Seq<char>>, pool: Seq<(Seq<char>, Seq<u8>)>) -> bool {
        &&& self.lines() == old.lines() + added
        &&& self.same_state(old)
        &&& self.next_runtime_label == old.next_runtime_label
        &&& self.pool() == pool
    }

    fn emit_store_consts(&mut self, values: &[u64; 8], base: usize)
        requires
            base + 64 <= i64::MAX,
            base + 64 <= usize::MAX,
        ensures
            final(self).appended_pooled(
                old(self),
                store_consts_lines(old(self).pool(), values@, base as int, 8),
                pool_after_consts(old(self).pool(), values@, 8),
            ),
    {
        let ghost p0 = self.pool();
        let mut k: usize = 0;
        while k < 8
            invariant
                k <= 8,
                base + 64 <= i64::MAX,
                base + 64 <= usize::MAX,
                self.appended_pooled(old(self), store_consts_lines(p0, values@, base as int, k as int), pool_after_consts(
                    p0,
                    values@,
                    k as int,
                )),
                p0 == old(self).pool(),
            decreases 8 - k,
        {
            self.emit_blake2b_store_const(values[k], base + k * 8);
            proof {
                lemma_join2(
                    old(self).lines(),
                    store_consts_lines(p0, values@, base as int, k as int),
                    store_const_lines(pool_after_consts(p0, values@, k as int), values@[k as int], base + k * 8),
                );
            }
            k = k + 1;
        }
    }

    fn emit_input_words(&mut self)
        ensures
            final(self).text_appended(old(self), input_words_lines(4)),
    {
        let mut k: usize = 0;
        while k < 4
            invariant
                k <= 4,
                self.text_appended(old(self), input_words_lines(k as int)),
            decreases 4 - k,
        {
            self.emit_blake2b_load_input_word(k, BLAKE2B_M_BASE + k * 8);
            proof {
                lemma_join2(old(self).lines(), input_words_lines(k as int), load_input_word_lines(k as int, BLAKE2B_M_BASE + k * 8));
            }
            k = k + 1;
        }
    }

    fn emit_zero_message_words(&mut self)
        ensures
            final(self).text_appended(old(self), zero_words_lines(16)),
    {
        let mut k: usize = 4;
        assert(self.lines() =~= old(self).lines() + zero_words_lines(4));
        while k < 16
            invariant
                4 <= k <= 16,
                self.text_appended(old(self), zero_words_lines(k as int)),
            decreases 16 - k,
        {
            self.emit_stack_store("zero", BLAKE2B_M_BASE + k * 8);
            proof {
                lemma_join2(old(self).lines(), zero_words_lines(k as int), stack_access_lines("sd"@, "zero"@, BLAKE2B_M_BASE + k * 8));
            }
            k = k + 1;
        }
    }

    fn emit_copy_state(&mut self)
        ensures
            final(self).text_appended(old(self), copy_state_lines(8)),
    {
        let mut k: usize = 0;
        assert(self.lines() =~= old(self).lines() + copy_state_lines(0));
        while k < 8
            invariant
                k <= 8,
                self.text_appended(old(self), copy_state_lines(k as int)),
            decreases 8 - k,
        {
            self.emit_stack_load("t0", BLAKE2B_H_BASE + k * 8);
            self.emit_stack_store("t0", BLAKE2B_V_BASE + k * 8);
            proof {
                lemma_join3(
                    old(self).lines(),
                    copy_state_lines(k as int),
                    stack_access_lines("ld"@, "t0"@, BLAKE2B_H_BASE + k * 8),
                    stack_access_lines("sd"@, "t0"@, BLAKE2B_V_BASE + k * 8),
                );
            }
            k = k + 1;
        }
    }

    fn emit_tweak_word(&mut self, offset: usize, op: &str)
        requires
            offset <= i64::MAX,
        ensures
            final(self).text_appended(
                old(self),
                stack_access_lines("ld"@, "t0"@, offset as int) + spec_emit_lines(op@) + stack_access_lines(
                    "sd"@,
                    "t0"@,
                    offset as int,
                ),
            ),
    {
        let ghost l0 = self.lines();
        self.emit_stack_load("t0", offset);
        self.emit(op);
        self.emit_stack_store("t0", offset);
        proof {
            lemma_join3(l0, stack_access_lines("ld"@, "t0"@, offset as int), spec_emit_lines(op@), stack_access_lines("sd"@, "t0"@, offset as int));
        }
    }

    fn emit_tweaks(&mut self)
        ensures
            final(self).text_appended(old(self), tweak_lines()),
    {
        let ghost l0 = self.lines();
        self.emit_tweak_word(BLAKE2B_V_BASE + 96, "xori t0, t0, 32");
        self.emit_tweak_word(BLAKE2B_V_BASE + 112, "xori t0, t0, -1");
        proof {
            let a = stack_access_lines("ld"@, "t0"@, BLAKE2B_V_BASE + 96) + spec_emit_lines("xori t0, t0, 32"@) + stack_access_lines(
                "sd"@,
                "t0"@,
                BLAKE2B_V_BASE + 96,
            );
            lemma_join2(l0, a, stack_access_lines("ld"@, "t0"@, BLAKE2B_V_BASE + 112) + spec_emit_lines("xori t0, t0, -1"@));
            lemma_join3(
                l0,
                a,
                stack_access_lines("ld"@, "t0"@, BLAKE2B_V_BASE + 112) + spec_emit_lines("xori t0, t0, -1"@),
                stack_access_lines("sd"@, "t0"@, BLAKE2B_V_BASE + 112),
            );
            lemma_join2(a, stack_access_lines("ld"@, "t0"@, BLAKE2B_V_BASE + 112), spec_emit_lines("xori t0, t0, -1"@));
            assert(self.lines() =~= l0 + tweak_lines());
        }
    }

    fn emit_blake2b_columns(&mut self, row: &[usize; 16])
        requires
            forall|i: int| 0 <= i < 16 ==> row@[i] < 16,
        ensures
            final(self).text_appended(old(self), column_lines(row@)),
    {
        let ghost l0 = self.lines();
        self.emit_blake2b_g(BLAKE2B_V_BASE, BLAKE2B_M_BASE, 0, 4, 8, 12, row[0], row[1]);
        self.emit_blake2b_g(BLAKE2B_V_BASE, BLAKE2B_M_BASE, 1, 5, 9, 13, row[2], row[3]);
        self.emit_blake2b_g(BLAKE2B_V_BASE, BLAKE2B_M_BASE, 2, 6, 10, 14, row[4], row[5]);
        self.emit_blake2b_g(BLAKE2B_V_BASE, BLAKE2B_M_BASE, 3, 7, 11, 15, row[6], row[7]);
        proof {
            let v = BLAKE2B_V_BASE as int;
            let m = BLAKE2B_M_BASE as int;
            let r = row@;
            lemma_join4(
                l0,
                g_lines(v, m, 0, 4, 8, 12, r[0] as int, r[1] as int),
                g_lines(v, m, 1, 5, 9, 13, r[2] as int, r[3] as int),
                g_lines(v, m, 2, 6, 10, 14, r[4] as int, r[5] as int),
                g_lines(v, m, 3, 7, 11, 15, r[6] as int, r[7] as int),
            );
        }
    }

    fn emit_blake2b_diagonals(&mut self, row: &[usize; 16])
        requires
            forall|i: int| 0 <= i < 16 ==> row@[i] < 16,
        ensures
            final(self).text_appended(old(self), diagonal_lines(row@)),
    {
        let ghost l0 = self.lines();
        self.emit_blake2b_g(BLAKE2B_V_BASE, BLAKE2B_M_BASE, 0, 5, 10, 15, row[8], row[9]);
        self.emit_blake2b_g(BLAKE2B_V_BASE, BLAKE2B_M_BASE, 1, 6, 11, 12, row[10], row[11]);
        self.emit_blake2b_g(BLAKE2B_V_BASE, BLAKE2B_M_BASE, 2, 7, 8, 13, row[12], row[13]);
        self.emit_blake2b_g(BLAKE2B_V_BASE, BLAKE2B_M_BASE, 3, 4, 9, 14, row[14], row[15]);
        proof {
            let v = BLAKE2B_V_BASE as int;
            let m = BLAKE2B_M_BASE as int;
            let r = row@;
            lemma_join4(
                l0,
                g_lines(v, m, 0, 5, 10, 15, r[8] as int, r[9] as int),
                g_lines(v, m, 1, 6, 11, 12, r[10] as int, r[11] as int),
                g_lines(v, m, 2, 7, 8, 13, r[12] as int, r[13] as int),
                g_lines(v, m, 3, 4, 9, 14, r[14] as int, r[15] as int),
            );
        }
    }

    #[verifier::rlimit(40)]
    fn emit_blake2b_rounds(&mut self)
        ensures
            final(self).text_appended(old(self), rounds_lines(12)),
    {
        let mut r: usize = 0;
        assert(self.lines() =~= old(self).lines() + rounds_lines(0));
        while r < 12
            invariant
                r <= 12,
                self.text_appended(old(self), rounds_lines(r as int)),
            decreases 12 - r,
        {
            let row = blake2b_sigma_row(r);
            self.emit_blake2b_columns(&row);
            self.emit_blake2b_diagonals(&row);
            proof {
                lemma_join3(old(self).lines(), rounds_lines(r as int), column_lines(row@), diagonal_lines(row@));
            }
            r = r + 1;
        }
    }

    fn emit_fold_word(&mut self, i: usize)
        requires
            i < 8,
        ensures
            final(self).text_appended(old(self), fold_word_lines(i as int)),
    {
        let ghost l0 = self.lines();
        self.emit_stack_load("t0", BLAKE2B_H_BASE + i * 8);
        self.emit_stack_load("t1", BLAKE2B_V_BASE + i * 8);
        self.emit("xor t0, t0, t1");
        self.emit_stack_load("t1", BLAKE2B_V_BASE + (i + 8) * 8);
        self.emit("xor t0, t0, t1");
        self.emit_stack_store("t0", BLAKE2B_H_BASE + i * 8);
        proof {
            lemma_join6(
                l0,
                stack_access_lines("ld"@, "t0"@, BLAKE2B_H_BASE + i * 8),
                stack_access_lines("ld"@, "t1"@, BLAKE2B_V_BASE + i * 8),
                spec_emit_lines("xor t0, t0, t1"@),
                stack_access_lines("ld"@, "t1"@, BLAKE2B_V_BASE + (i + 8) * 8),
                spec_emit_lines("xor t0, t0, t1"@),
                stack_access_lines("sd"@, "t0"@, BLAKE2B_H_BASE + i * 8),
            );
        }
    }

    fn emit_fold(&mut self)
        ensures
            final(self).text_appended(old(self), fold_lines(8)),
    {
        let mut k: usize = 0;
        assert(self.lines() =~= old(self).lines() + fold_lines(0));
        while k < 8
            invariant
                k <= 8,
                self.text_appended(old(self), fold_lines(k as int)),
            decreases 8 - k,
        {
            self.emit_fold_word(k);
            proof {
                lemma_join2(old(self).lines(), fold_lines(k as int), fold_word_lines(k as int));
            }
            k = k + 1;
        }
    }

    fn emit_output_words(&mut self)
        ensures
            final(self).text_appended(old(self), output_lines(4)),
    {
        let mut k: usize = 0;
        assert(self.lines() =~= old(self).lines() + output_lines(0));
        while k < 4
            invariant
                k <= 4,
                self.text_appended(old(self), output_lines(k as int)),
            decreases 4 - k,
        {
            self.emit_stack_load("t0", BLAKE2B_H_BASE + k * 8);
            let store = mk_mem("sd", "t0", (k * 8) as i128, "a1");
            self.emit(store.as_str());
            proof {
                lemma_join3(
                    old(self).lines(),
                    output_lines(k as int),
                    stack_access_lines("ld"@, "t0"@, BLAKE2B_H_BASE + k * 8),
                    spec_emit_lines(mem_body("sd"@, "t0"@, k * 8, "a1"@)),
                );
                lemma_join2(
                    output_lines(k as int),
                    stack_access_lines("ld"@, "t0"@, BLAKE2B_H_BASE + k * 8),
                    spec_emit_lines(mem_body("sd"@, "t0"@, k * 8, "a1"@)),
                );
            }
            k = k + 1;
        }
    }

    fn emit_blake2b_state_init(&mut self)
        ensures
            final(self).appended_pooled(
                old(self),
                large_addi_lines_spec("sp"@, "sp"@, -320) + store_consts_lines(old(self).pool(), blake2b_h0(), BLAKE2B_H_BASE as int, 8),
                pool_after_consts(old(self).pool(), blake2b_h0(), 8),
            ),
    {
        let ghost l0 = self.lines();
        let ghost p0 = self.pool();
        self.emit_large_addi("sp", "sp", -320);
        let h = blake2b_h0_words();
        self.emit_store_consts(&h, BLAKE2B_H_BASE);
        proof {
            lemma_join2(l0, large_addi_lines_spec("sp"@, "sp"@, -320), store_consts_lines(p0, blake2b_h0(), BLAKE2B_H_BASE as int, 8));
        }
    }

    fn emit_blake2b_message_init(&mut self)
        ensures
            final(self).text_appended(old(self), input_words_lines(4) + zero_words_lines(16) + copy_state_lines(8)),
    {
        let ghost l0 = self.lines();
        self.emit_input_words();
        self.emit_zero_message_words();
        self.emit_copy_state();
        proof {
            lemma_join3(l0, input_words_lines(4), zero_words_lines(16), copy_state_lines(8));
        }
    }

    fn emit_blake2b_vector_init(&mut self)
        ensures
            final(self).appended_pooled(
                old(self),
                store_consts_lines(old(self).pool(), blake2b_iv(), BLAKE2B_V_BASE + 64, 8) + tweak_lines(),
                pool_after_consts(old(self).pool(), blake2b_iv(), 8),
            ),
    {
        let ghost l0 = self.lines();
        let ghost p0 = self.pool();
        let iv = blake2b_iv_words();
        self.emit_store_consts(&iv, BLAKE2B_V_BASE + 64);
        self.emit_tweaks();
        proof {
            lemma_join2(l0, store_consts_lines(p0, blake2b_iv(), BLAKE2B_V_BASE + 64, 8), tweak_lines());
        }
    }

    fn emit_blake2b_setup(&mut self)
        ensures
            final(self).appended_pooled(old(self), blake2b_setup_lines(old(self).pool()), blake2b_pool(old(self).pool())),
    {
        let ghost l0 = self.lines();
        let ghost p0 = self.pool();
        self.emit_blake2b_state_init();
        self.emit_blake2b_message_init();
        self.emit_blake2b_vector_init();
        proof {
            let a = large_addi_lines_spec("sp"@, "sp"@, -320) + store_consts_lines(p0, blake2b_h0(), BLAKE2B_H_BASE as int, 8);
            let b = input_words_lines(4) + zero_words_lines(16) + copy_state_lines(8);
            let c = store_consts_lines(pool_after_consts(p0, blake2b_h0(), 8), blake2b_iv(), BLAKE2B_V_BASE + 64, 8) + tweak_lines();
            lemma_join3(l0, a, b, c);
            assert(blake2b_setup_lines(p0) =~= a + b + c);
        }
    }

    fn emit_blake2b_finish(&mut self)
        ensures
            final(self).text_appended(old(self), blake2b_finish_lines()),
    {
        let ghost l0 = self.lines();
        self.emit_blake2b_rounds();
        self.emit_fold();
        self.emit_output_words();
        let ghost l1 = self.lines();
        self.emit_large_addi("sp", "sp", 320);
        self.emit2("li a0, 0", "ret");
        proof {
            lemma_join5(
                l0,
                rounds_lines(12),
                fold_lines(8),
                output_lines(4),
                large_addi_lines_spec("sp"@, "sp"@, 320),
                two_lines("li a0, 0"@, "ret"@),
            );
        }
    }

    /// The CKB Blake2b-256 helper over a 32-byte input; when `enabled` is
    /// false it reports `failure` instead of hashing.
    pub fn emit_runtime_blake2b_hash32(&mut self, enabled: bool, failure: &RuntimeFailure)
        ensures
            final(self).appended_pooled(
                old(self),
                blake2b_hash32_lines(old(self).pool(), enabled, *failure),
                if enabled {
                    blake2b_pool(old(self).pool())
                } else {
                    old(self).pool()
                },
            ),
    {
        let ghost l0 = self.lines();
        let ghost p0 = self.pool();
        self.emit_helper_entry("__ckb_hash_blake2b");
        self.emit("# cellscript abi: CKB Blake2b-256 helper; a0=input[32], a1=output[32], returns a0=0");
        let ghost head = helper_entry_lines("__ckb_hash_blake2b"@) + spec_emit_lines(
            "# cellscript abi: CKB Blake2b-256 helper; a0=input[32], a1=output[32], returns a0=0"@,
        );
        if !enabled {
            self.emit_runtime_fail_ret(failure);
            proof {
                lemma_join3(
                    l0,
                    helper_entry_lines("__ckb_hash_blake2b"@),
                    spec_emit_lines("# cellscript abi: CKB Blake2b-256 helper; a0=input[32], a1=output[32], returns a0=0"@),
                    fail_ret_lines(*failure),
                );
                lemma_join2(head, Seq::empty(), fail_ret_lines(*failure));
            }
            return;
        }
        self.emit_blake2b_setup();
        self.emit_blake2b_finish();
        proof {
            lemma_join4(
                l0,
                helper_entry_lines("__ckb_hash_blake2b"@),
                spec_emit_lines("# cellscript abi: CKB Blake2b-256 helper; a0=input[32], a1=output[32], returns a0=0"@),
                blake2b_setup_lines(p0),
                blake2b_finish_lines(),
            );
            lemma_join2(head, blake2b_setup_lines(p0), blake2b_finish_lines());
        }
    }
}

} // verus!
