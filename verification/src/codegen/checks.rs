//! Runtime checks that fail closed, and the scalar operations that need them:
//! unary operators and casts.

use vstd::prelude::*;

use crate::codegen::generator::{epilogue_body_lines, label_text, stack_access_lines, truncate_lines, CodeGenerator};
use crate::codegen::ir_facts::{const_ir_type, spec_const_type};
use crate::codegen::lines::{lemma_join2, lemma_join3, lemma_join4, lemma_join5, li_body, mk_li, spec_emit_lines};
use crate::codegen::operands::{operand_load_lines, operand_pool_after};
use crate::codegen::runtime::{error_comment_lines, RuntimeFailure};
use crate::error::CompileError;
use crate::ir::{IrOperand, IrType, IrVar, UnaryOp};
use crate::text::{dec_nat, push_decimal_u128, string_push_str};

verus! {

/// What reporting a runtime error emits: a jump to the function's shared
/// handler for that code while a function is being emitted, otherwise the
/// error comment, the code in `a0`, and the epilogue.
pub open spec fn fail_lines(g: CodeGenerator, f: RuntimeFailure) -> Seq<Seq<char>> {
    match g.current_function {
        Some(func) => spec_emit_lines("j .L"@ + func@ + "_fail_"@ + dec_nat(f.code as nat)),
        None => error_comment_lines(f) + spec_emit_lines(li_body("a0"@, f.code as int)) + epilogue_body_lines(
            g.frame_size as int,
        ),
    }
}

/// The handler codes after reporting `f`: its code joins them while a
/// function is being emitted.
pub open spec fn codes_after_fail(g: CodeGenerator, f: RuntimeFailure) -> Set<u64> {
    match g.current_function {
        Some(_) => g.fail_handler_codes@.insert(f.code),
        None => g.fail_handler_codes@,
    }
}

/// The frame can be left in place: always while a function is being
/// emitted, which jumps to its shared epilogue.
pub open spec fn can_fail(g: CodeGenerator) -> bool {
    g.current_function is None ==> 16 <= g.frame_size <= i64::MAX
}

/// `<label>:`
pub open spec fn label_lines(label: Seq<char>) -> Seq<Seq<char>> {
    seq![label + ":"@]
}

/// The check that `reg` holds no bits at or above `width`.
pub open spec fn scalar_fits_lines(g: CodeGenerator, reg: Seq<char>, width: int, f: RuntimeFailure) -> Seq<Seq<char>> {
    if width >= 64 {
        Seq::empty()
    } else {
        let ok = label_text("cast_fit_ok"@, g.next_runtime_label as nat);
        spec_emit_lines("srli t2, "@ + reg + ", "@ + dec_nat(width as nat)) + spec_emit_lines("beqz t2, "@ + ok)
            + fail_lines(g, f) + label_lines(ok)
    }
}

/// The check that `reg` holds 0 or 1.
pub open spec fn bool_canonical_lines(g: CodeGenerator, reg: Seq<char>, f: RuntimeFailure) -> Seq<Seq<char>> {
    let ok = label_text("bool_canonical_ok"@, g.next_runtime_label as nat);
    spec_emit_lines("beqz "@ + reg + ", "@ + ok) + spec_emit_lines("li t2, 1"@) + spec_emit_lines(
        "beq "@ + reg + ", t2, "@ + ok,
    ) + fail_lines(g, f) + label_lines(ok)
}

/// The check that `reg` is not zero.
pub open spec fn divisor_nonzero_lines(g: CodeGenerator, reg: Seq<char>, f: RuntimeFailure) -> Seq<Seq<char>> {
    let ok = label_text("divisor_nonzero"@, g.next_runtime_label as nat);
    spec_emit_lines("bnez "@ + reg + ", "@ + ok) + fail_lines(g, f) + label_lines(ok)
}

impl CodeGenerator {
    /// Only text was appended and the label counter moved by `labels`; a
    /// failure handler may have been recorded.
    pub open spec fn check_appended(&self, old: &CodeGenerator, added: Seq<Seq<char>>, labels: int) -> bool {
        &&& self.lines() == old.lines() + added
        &&& self.same_but_fail_codes(old)
        &&& self.next_runtime_label == old.next_runtime_label + labels
        &&& self.const_data_entries == old.const_data_entries
    }

    /// Reports a runtime error: see `fail_lines`.
    pub fn emit_fail(&mut self, failure: &RuntimeFailure)
        requires
            can_fail(*old(self)),
        ensures
            final(self).check_appended(old(self), fail_lines(*old(self), *failure), 0),
            final(self).fail_handler_codes@ == codes_after_fail(*old(self), *failure),
    {
        let ghost l0 = self.lines();
        match &self.current_function {
            Some(function) => {
                let mut j = String::new();
                string_push_str(&mut j, "j .L");
                string_push_str(&mut j, function.as_str());
                string_push_str(&mut j, "_fail_");
                push_decimal_u128(&mut j, failure.code as u128);
                self.fail_handler_codes.insert(failure.code);
                self.emit(j.as_str());
            },
            None => {
                self.emit_runtime_error_comment(failure);
                let li = mk_li("a0", failure.code as i128);
                self.emit(li.as_str());
                self.emit_epilogue_body();
                assert(self.lines() =~= l0 + fail_lines(*old(self), *failure));
            },
        }
    }

    /// Fails unless `register` fits in `width` bits.
    pub fn emit_checked_scalar_fits(&mut self, register: &str, width: u32, failure: &RuntimeFailure)
        requires
            can_fail(*old(self)),
            old(self).next_runtime_label < usize::MAX,
        ensures
            final(self).check_appended(
                old(self),
                scalar_fits_lines(*old(self), register@, width as int, *failure),
                if width >= 64 { 0 } else { 1 },
            ),
            final(self).fail_handler_codes@ == if width >= 64 {
                old(self).fail_handler_codes@
            } else {
                codes_after_fail(*old(self), *failure)
            },
    {
        if width >= 64 {
            assert(self.lines() =~= old(self).lines() + scalar_fits_lines(*old(self), register@, width as int, *failure));
            return;
        }
        let ghost l0 = self.lines();
        let ok_label = self.fresh_label("cast_fit_ok");
        let mut srli = String::new();
        string_push_str(&mut srli, "srli t2, ");
        string_push_str(&mut srli, register);
        string_push_str(&mut srli, ", ");
        push_decimal_u128(&mut srli, width as u128);
        self.emit(srli.as_str());
        let mut beqz = String::new();
        string_push_str(&mut beqz, "beqz t2, ");
        string_push_str(&mut beqz, ok_label.as_str());
        self.emit(beqz.as_str());
        self.emit_fail(failure);
        self.emit_label(ok_label.as_str());
        assert(self.lines() =~= l0 + scalar_fits_lines(*old(self), register@, width as int, *failure));
    }

    /// Fails unless `register` holds 0 or 1.
    pub fn emit_bool_canonical_check(&mut self, register: &str, failure: &RuntimeFailure)
        requires
            can_fail(*old(self)),
            old(self).next_runtime_label < usize::MAX,
        ensures
            final(self).check_appended(old(self), bool_canonical_lines(*old(self), register@, *failure), 1),
            final(self).fail_handler_codes@ == codes_after_fail(*old(self), *failure),
    {
        let ghost l0 = self.lines();
        let ok_label = self.fresh_label("bool_canonical_ok");
        let mut beqz = String::new();
        string_push_str(&mut beqz, "beqz ");
        string_push_str(&mut beqz, register);
        string_push_str(&mut beqz, ", ");
        string_push_str(&mut beqz, ok_label.as_str());
        let mut beq = String::new();
        string_push_str(&mut beq, "beq ");
        string_push_str(&mut beq, register);
        string_push_str(&mut beq, ", t2, ");
        string_push_str(&mut beq, ok_label.as_str());
        let ghost a = spec_emit_lines(beqz@);
        let ghost b = spec_emit_lines("li t2, 1"@);
        let ghost c = spec_emit_lines(beq@);
        let ghost d = fail_lines(*old(self), *failure);
        let ghost e = label_lines(ok_label@);
        self.emit(beqz.as_str());
        self.emit("li t2, 1");
        self.emit(beq.as_str());
        self.emit_fail(failure);
        self.emit_label(ok_label.as_str());
        proof {
            lemma_join5(l0, a, b, c, d, e);
            assert(beqz@ =~= "beqz "@ + register@ + ", "@ + ok_label@);
            assert(beq@ =~= "beq "@ + register@ + ", t2, "@ + ok_label@);
        }
    }

    /// Fails when `register` is zero.
    pub fn emit_divisor_nonzero_guard(&mut self, register: &str, failure: &RuntimeFailure)
        requires
            can_fail(*old(self)),
            old(self).next_runtime_label < usize::MAX,
        ensures
            final(self).check_appended(old(self), divisor_nonzero_lines(*old(self), register@, *failure), 1),
            final(self).fail_handler_codes@ == codes_after_fail(*old(self), *failure),
    {
        let ghost l0 = self.lines();
        let ok_label = self.fresh_label("divisor_nonzero");
        let mut bnez = String::new();
        string_push_str(&mut bnez, "bnez ");
        string_push_str(&mut bnez, register);
        string_push_str(&mut bnez, ", ");
        string_push_str(&mut bnez, ok_label.as_str());
        self.emit(bnez.as_str());
        self.emit_fail(failure);
        self.emit_label(ok_label.as_str());
        assert(self.lines() =~= l0 + divisor_nonzero_lines(*old(self), register@, *failure));
    }
}

/// The message of the error for negating an unsigned value.
pub open spec fn negation_message() -> Seq<char> {
    "unary negation is not supported for unsigned integers"@
}

/// The generator with its label counter advanced by `k`.
pub open spec fn after_labels(g: CodeGenerator, k: int) -> CodeGenerator {
    CodeGenerator { next_runtime_label: (g.next_runtime_label + k) as usize, ..g }
}

/// What a unary operation emits: the operand into `t0`, the operation, and
/// the store to the destination's slot; negation stops after the load.
pub open spec fn unary_lines(g: CodeGenerator, dest: IrVar, op: UnaryOp, operand: IrOperand, f: RuntimeFailure) -> Seq<Seq<char>> {
    let load = operand_load_lines("t0"@, operand, g.pool());
    match op {
        UnaryOp::Neg => load,
        UnaryOp::Not => load + bool_canonical_lines(g, "t0"@, f) + spec_emit_lines("xori t0, t0, 1"@) + stack_access_lines(
            "sd"@,
            "t0"@,
            dest.id * 8,
        ),
        _ => load + spec_emit_lines("# reference conversion (no-op in asm backend)"@) + stack_access_lines(
            "sd"@,
            "t0"@,
            dest.id * 8,
        ),
    }
}

/// The type of a cast's source.
pub open spec fn operand_type(operand: IrOperand) -> IrType {
    match operand {
        IrOperand::Var(v) => v.ty,
        IrOperand::Const(c) => spec_const_type(c),
    }
}

/// Whether a cast to `ty` is carried out at run time.
pub open spec fn cast_target_supported(ty: IrType) -> bool {
    ty is Bool || ty is U8 || ty is U16 || ty is U32 || ty is U64
}

/// The range check and narrowing for a cast to `ty` in `t0`.
pub open spec fn cast_narrow_lines(g: CodeGenerator, ty: IrType, f: RuntimeFailure) -> Seq<Seq<char>> {
    match ty {
        IrType::Bool => scalar_fits_lines(g, "t0"@, 1, f),
        IrType::U8 => scalar_fits_lines(g, "t0"@, 8, f) + spec_emit_lines("andi t0, t0, 255"@),
        IrType::U16 => scalar_fits_lines(g, "t0"@, 16, f) + truncate_lines("t0"@, 16),
        IrType::U32 => scalar_fits_lines(g, "t0"@, 32, f) + truncate_lines("t0"@, 32),
        IrType::U64 => Seq::empty(),
        _ => spec_emit_lines("# cellscript abi: fail closed because runtime cast target is unsupported"@) + fail_lines(g, f),
    }
}

/// What a cast emits: casts to u128 fail closed; otherwise the source into
/// `t0`, a check that a boolean source is 0 or 1, the range check and
/// narrowing, and the store; an unsupported target fails closed instead.
pub open spec fn cast_lines(g: CodeGenerator, dest: IrVar, src: IrOperand, f: RuntimeFailure) -> Seq<Seq<char>> {
    if dest.ty is U128 {
        spec_emit_lines("# cellscript abi: fail closed because runtime casts to u128 are not supported"@) + fail_lines(g, f)
    } else {
        let src_bool = operand_type(src) is Bool;
        let check = if src_bool {
            bool_canonical_lines(g, "t0"@, f)
        } else {
            Seq::empty()
        };
        let g1 = after_labels(g, if src_bool { 1 } else { 0 });
        operand_load_lines("t0"@, src, g.pool()) + check + cast_narrow_lines(g1, dest.ty, f) + if cast_target_supported(
            dest.ty,
        ) {
            stack_access_lines("sd"@, "t0"@, dest.id * 8)
        } else {
            Seq::empty()
        }
    }
}

/// How many labels a cast takes.
pub open spec fn cast_labels(dest: IrVar, src: IrOperand) -> int {
    if dest.ty is U128 {
        0
    } else {
        (if operand_type(src) is Bool { 1int } else { 0int }) + (if dest.ty is Bool || dest.ty is U8 || dest.ty is U16
            || dest.ty is U32 {
            1int
        } else {
            0int
        })
    }
}

/// Whether a cast emits a failure path.
pub open spec fn cast_may_fail(dest: IrVar, src: IrOperand) -> bool {
    dest.ty is U128 || operand_type(src) is Bool || !(dest.ty is U64)
}

/// Operands whose stack slot offset fits an immediate.
pub open spec fn operand_fits(operand: IrOperand) -> bool {
    operand is Var ==> operand->Var_0.id * 8 <= i64::MAX && operand->Var_0.id * 8 <= usize::MAX
}

impl CodeGenerator {
    /// Emits a unary operation into `dest`'s slot. Negation is refused:
    /// every scalar is unsigned.
    #[verifier::rlimit(50)]
    pub fn emit_unary(&mut self, dest: &IrVar, op: UnaryOp, operand: &IrOperand, invalid: &RuntimeFailure) -> (r: Result<(), CompileError>)
        requires
            can_fail(*old(self)),
            old(self).next_runtime_label < usize::MAX,
            operand_fits(*operand),
            dest.id * 8 <= i64::MAX,
            dest.id * 8 <= usize::MAX,
        ensures
            r is Err <==> op is Neg,
            r matches Err(e) ==> e.message@ == negation_message(),
            final(self).lines() == old(self).lines() + unary_lines(*old(self), *dest, op, *operand, *invalid),
            final(self).pool() == operand_pool_after(*operand, old(self).pool()),
            final(self).same_but_fail_codes(old(self)),
            final(self).next_runtime_label == old(self).next_runtime_label + if op is Not { 1int } else { 0int },
            final(self).fail_handler_codes@ == if op is Not {
                codes_after_fail(*old(self), *invalid)
            } else {
                old(self).fail_handler_codes@
            },
    {
        let ghost l0 = self.lines();
        let ghost load = operand_load_lines("t0"@, *operand, old(self).pool());
        let ghost store = stack_access_lines("sd"@, "t0"@, dest.id * 8);
        self.emit_operand_to_register("t0", operand);
        match op {
            UnaryOp::Neg => {
                return Err(CompileError::from_str_message("unary negation is not supported for unsigned integers"));
            },
            UnaryOp::Not => {
                let ghost check = bool_canonical_lines(*old(self), "t0"@, *invalid);
                let ghost xori = spec_emit_lines("xori t0, t0, 1"@);
                self.emit_bool_canonical_check("t0", invalid);
                self.emit("xori t0, t0, 1");
                self.emit_stack_store("t0", dest.id * 8);
                proof {
                    lemma_join4(l0, load, check, xori, store);
                }
            },
            UnaryOp::Ref | UnaryOp::Deref => {
                let ghost note = spec_emit_lines("# reference conversion (no-op in asm backend)"@);
                self.emit("# reference conversion (no-op in asm backend)");
                self.emit_stack_store("t0", dest.id * 8);
                proof {
                    lemma_join3(l0, load, note, store);
                }
            },
        }
        Ok(())
    }

    /// The range check and narrowing of `t0` for a cast to `ty`; `false`
    /// when the target is unsupported and a failure was emitted instead.
    #[verifier::rlimit(50)]
    fn emit_cast_narrow(&mut self, ty: &IrType, invalid: &RuntimeFailure) -> (supported: bool)
        requires
            can_fail(*old(self)),
            old(self).next_runtime_label < usize::MAX,
        ensures
            supported == cast_target_supported(*ty),
            final(self).check_appended(
                old(self),
                cast_narrow_lines(*old(self), *ty, *invalid),
                if ty is Bool || ty is U8 || ty is U16 || ty is U32 { 1int } else { 0int },
            ),
            final(self).fail_handler_codes@ == if ty is U64 {
                old(self).fail_handler_codes@
            } else {
                codes_after_fail(*old(self), *invalid)
            },
    {
        let ghost l0 = self.lines();
        match ty {
            IrType::Bool => {
                self.emit_checked_scalar_fits("t0", 1, invalid);
                true
            },
            IrType::U8 => {
                let ghost fits = scalar_fits_lines(*old(self), "t0"@, 8, *invalid);
                self.emit_checked_scalar_fits("t0", 8, invalid);
                self.emit("andi t0, t0, 255");
                proof {
                    lemma_join2(l0, fits, spec_emit_lines("andi t0, t0, 255"@));
                }
                true
            },
            IrType::U16 => {
                let ghost fits = scalar_fits_lines(*old(self), "t0"@, 16, *invalid);
                self.emit_checked_scalar_fits("t0", 16, invalid);
                self.emit_truncate_register_to_width("t0", 16);
                proof {
                    lemma_join2(l0, fits, truncate_lines("t0"@, 16));
                }
                true
            },
            IrType::U32 => {
                let ghost fits = scalar_fits_lines(*old(self), "t0"@, 32, *invalid);
                self.emit_checked_scalar_fits("t0", 32, invalid);
                self.emit_truncate_register_to_width("t0", 32);
                proof {
                    lemma_join2(l0, fits, truncate_lines("t0"@, 32));
                }
                true
            },
            IrType::U64 => {
                assert(self.lines() =~= l0 + cast_narrow_lines(*old(self), *ty, *invalid));
                true
            },
            _ => {
                let ghost note = spec_emit_lines("# cellscript abi: fail closed because runtime cast target is unsupported"@);
                self.emit("# cellscript abi: fail closed because runtime cast target is unsupported");
                self.emit_fail(invalid);
                proof {
                    lemma_join2(l0, note, fail_lines(*old(self), *invalid));
                }
                false
            },
        }
    }

    /// Emits a cast of `src` into `dest`'s slot, failing at run time when
    /// the value does not fit the target.
    #[verifier::rlimit(50)]
    pub fn emit_cast(&mut self, dest: &IrVar, src: &IrOperand, invalid: &RuntimeFailure) -> (r: Result<(), CompileError>)
        requires
            can_fail(*old(self)),
            old(self).next_runtime_label + 2 <= usize::MAX,
            operand_fits(*src),
            dest.id * 8 <= i64::MAX,
            dest.id * 8 <= usize::MAX,
        ensures
            r is Ok,
            final(self).lines() == old(self).lines() + cast_lines(*old(self), *dest, *src, *invalid),
            final(self).pool() == if dest.ty is U128 {
                old(self).pool()
            } else {
                operand_pool_after(*src, old(self).pool())
            },
            final(self).same_but_fail_codes(old(self)),
            final(self).next_runtime_label == old(self).next_runtime_label + cast_labels(*dest, *src),
            final(self).fail_handler_codes@ == if cast_may_fail(*dest, *src) {
                codes_after_fail(*old(self), *invalid)
            } else {
                old(self).fail_handler_codes@
            },
    {
        let ghost l0 = self.lines();
        if matches!(dest.ty, IrType::U128) {
            let ghost note = spec_emit_lines("# cellscript abi: fail closed because runtime casts to u128 are not supported"@);
            self.emit("# cellscript abi: fail closed because runtime casts to u128 are not supported");
            self.emit_fail(invalid);
            proof {
                lemma_join2(l0, note, fail_lines(*old(self), *invalid));
            }
            return Ok(());
        }
        let ghost load = operand_load_lines("t0"@, *src, old(self).pool());
        self.emit_operand_to_register("t0", src);
        let src_bool = match src {
            IrOperand::Var(var) => matches!(var.ty, IrType::Bool),
            IrOperand::Const(value) => matches!(const_ir_type(value), IrType::Bool),
        };
        let ghost check = if src_bool {
            bool_canonical_lines(*old(self), "t0"@, *invalid)
        } else {
            Seq::empty()
        };
        if src_bool {
            self.emit_bool_canonical_check("t0", invalid);
        } else {
            assert(self.lines() =~= self.lines() + check);
        }
        let ghost g2 = *self;
        assert(cast_narrow_lines(g2, dest.ty, *invalid) == cast_narrow_lines(
            after_labels(*old(self), if src_bool { 1 } else { 0 }),
            dest.ty,
            *invalid,
        ));
        let ghost narrow = cast_narrow_lines(g2, dest.ty, *invalid);
        let supported = self.emit_cast_narrow(&dest.ty, invalid);
        let ghost store = if supported {
            stack_access_lines("sd"@, "t0"@, dest.id * 8)
        } else {
            Seq::empty()
        };
        if supported {
            self.emit_stack_store("t0", dest.id * 8);
        } else {
            assert(self.lines() =~= self.lines() + store);
        }
        proof {
            lemma_join4(l0, load, check, narrow, store);
        }
        Ok(())
    }
}

/// The check that a syscall returned zero in `a0`.
pub open spec fn syscall_ok_lines(g: CodeGenerator, f: RuntimeFailure) -> Seq<Seq<char>> {
    let ok = label_text("ckb_syscall_ok"@, g.next_runtime_label as nat);
    spec_emit_lines("beqz a0, "@ + ok) + fail_lines(g, f) + label_lines(ok)
}

/// A loaded size checked by a runtime helper: the note, the size word into
/// `a0`, the bound into `a1`, the call, and failure unless it returns zero.
pub open spec fn size_check_lines(
    g: CodeGenerator,
    note: Seq<char>,
    size_offset: int,
    bound: int,
    helper: Seq<char>,
    prefix: Seq<char>,
    f: RuntimeFailure,
) -> Seq<Seq<char>> {
    let ok = label_text(prefix, g.next_runtime_label as nat);
    spec_emit_lines(note) + stack_access_lines("ld"@, "a0"@, size_offset) + spec_emit_lines(li_body("a1"@, bound))
        + spec_emit_lines("call "@ + helper) + (spec_emit_lines("beqz a0, "@ + ok) + fail_lines(g, f) + label_lines(ok))
}

/// The note of a minimum-size check.
pub open spec fn bounds_note(context: Seq<char>, required: nat) -> Seq<char> {
    "# cellscript abi: bounds check "@ + context + " required="@ + dec_nat(required)
}

/// The note of an exact-size check.
pub open spec fn exact_size_note(context: Seq<char>, expected: nat) -> Seq<char> {
    "# cellscript abi: exact size check "@ + context + " expected="@ + dec_nat(expected)
}

impl CodeGenerator {
    /// Fails unless the syscall just made returned zero.
    pub fn emit_return_on_syscall_error(&mut self, failure: &RuntimeFailure)
        requires
            can_fail(*old(self)),
            old(self).next_runtime_label < usize::MAX,
        ensures
            final(self).check_appended(old(self), syscall_ok_lines(*old(self), *failure), 1),
            final(self).fail_handler_codes@ == codes_after_fail(*old(self), *failure),
    {
        let ghost l0 = self.lines();
        let ok_label = self.fresh_label("ckb_syscall_ok");
        let mut beqz = String::new();
        string_push_str(&mut beqz, "beqz a0, ");
        string_push_str(&mut beqz, ok_label.as_str());
        self.emit(beqz.as_str());
        self.emit_fail(failure);
        self.emit_label(ok_label.as_str());
        assert(self.lines() =~= l0 + syscall_ok_lines(*old(self), *failure));
    }

    /// A size check through `helper`: see `size_check_lines`.
    #[verifier::rlimit(50)]
    fn emit_helper_size_check(
        &mut self,
        note: &str,
        size_offset: usize,
        bound: usize,
        helper: &str,
        prefix: &str,
        failure: &RuntimeFailure,
    )
        requires
            can_fail(*old(self)),
            old(self).next_runtime_label < usize::MAX,
            size_offset <= i64::MAX,
        ensures
            final(self).check_appended(
                old(self),
                size_check_lines(*old(self), note@, size_offset as int, bound as int, helper@, prefix@, *failure),
                1,
            ),
            final(self).fail_handler_codes@ == codes_after_fail(*old(self), *failure),
    {
        let ghost l0 = self.lines();
        let ghost a = spec_emit_lines(note@);
        let ghost b = stack_access_lines("ld"@, "a0"@, size_offset as int);
        let ghost c = spec_emit_lines(li_body("a1"@, bound as int));
        let ghost d = spec_emit_lines("call "@ + helper@);
        self.emit(note);
        self.emit_stack_load("a0", size_offset);
        let li = mk_li("a1", bound as i128);
        self.emit(li.as_str());
        let mut call = String::new();
        string_push_str(&mut call, "call ");
        string_push_str(&mut call, helper);
        self.emit(call.as_str());
        proof {
            lemma_join4(l0, a, b, c, d);
        }
        let ghost l1 = self.lines();
        let ok_label = self.fresh_label(prefix);
        let mut beqz = String::new();
        string_push_str(&mut beqz, "beqz a0, ");
        string_push_str(&mut beqz, ok_label.as_str());
        let ghost e = spec_emit_lines(beqz@);
        let ghost f = fail_lines(*old(self), *failure);
        let ghost g = label_lines(ok_label@);
        self.emit(beqz.as_str());
        self.emit_fail(failure);
        self.emit_label(ok_label.as_str());
        proof {
            lemma_join3(l1, e, f, g);
            vstd::seq_lib::lemma_concat_associative(l0, a + b + c + d, e + f + g);
        }
    }

    /// Fails unless the loaded value at `size_offset` is at least `required_size` bytes.
    pub fn emit_loaded_schema_bounds_check(&mut self, size_offset: usize, required_size: usize, context: &str, failure: &RuntimeFailure)
        requires
            can_fail(*old(self)),
            old(self).next_runtime_label < usize::MAX,
            size_offset <= i64::MAX,
        ensures
            final(self).check_appended(
                old(self),
                size_check_lines(
                    *old(self),
                    bounds_note(context@, required_size as nat),
                    size_offset as int,
                    required_size as int,
                    "__cellscript_require_min_size"@,
                    "schema_bounds_ok"@,
                    *failure,
                ),
                1,
            ),
            final(self).fail_handler_codes@ == codes_after_fail(*old(self), *failure),
    {
        let mut note = String::new();
        string_push_str(&mut note, "# cellscript abi: bounds check ");
        string_push_str(&mut note, context);
        string_push_str(&mut note, " required=");
        push_decimal_u128(&mut note, required_size as u128);
        self.emit_helper_size_check(
            note.as_str(),
            size_offset,
            required_size,
            "__cellscript_require_min_size",
            "schema_bounds_ok",
            failure,
        );
    }

    /// Fails unless the loaded value at `size_offset` is exactly `expected_size` bytes.
    pub fn emit_loaded_schema_exact_size_check(&mut self, size_offset: usize, expected_size: usize, context: &str, failure: &RuntimeFailure)
        requires
            can_fail(*old(self)),
            old(self).next_runtime_label < usize::MAX,
            size_offset <= i64::MAX,
        ensures
            final(self).check_appended(
                old(self),
                size_check_lines(
                    *old(self),
                    exact_size_note(context@, expected_size as nat),
                    size_offset as int,
                    expected_size as int,
                    "__cellscript_require_exact_size"@,
                    "schema_size_ok"@,
                    *failure,
                ),
                1,
            ),
            final(self).fail_handler_codes@ == codes_after_fail(*old(self), *failure),
    {
        let mut note = String::new();
        string_push_str(&mut note, "# cellscript abi: exact size check ");
        string_push_str(&mut note, context);
        string_push_str(&mut note, " expected=");
        push_decimal_u128(&mut note, expected_size as u128);
        self.emit_helper_size_check(
            note.as_str(),
            size_offset,
            expected_size,
            "__cellscript_require_exact_size",
            "schema_size_ok",
            failure,
        );
    }
}

} // verus!
