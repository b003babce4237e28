//! Bounds checks on Molecule tables and vectors loaded into the frame, and
//! the lengths read from them.

use vstd::prelude::*;

use crate::codegen::checks::{
    after_labels, bounds_note, can_fail, codes_after_fail, fail_lines, label_lines, size_check_lines,
};
use crate::codegen::generator::{label_text, stack_access_lines, unaligned_load_lines, CodeGenerator};
use crate::codegen::lines::{lemma_join2, lemma_join3, lemma_join4, li_body, mk_li, spec_emit_lines};
use crate::codegen::runtime::RuntimeFailure;
use crate::codegen::operands::spec_static_length_from_type;
use crate::codegen::pointers::{lookup, spec_dynamic_length};
use crate::codegen::widths::{
    fixed_scalar_width, molecule_vector_element_fixed_width, spec_fixed_scalar_width, spec_vector_element_width,
};
use crate::codegen::operands::{operand_load_lines, operand_pool_after};
use crate::error::CompileError;
use crate::ir::{IrConst, IrOperand, IrVar};
use crate::text::{dec_nat, push_decimal_u128, string_push_str};

verus! {

/// Fails unless `t2` is zero.
pub open spec fn t2_guard_lines(g: CodeGenerator, prefix: Seq<char>, f: RuntimeFailure) -> Seq<Seq<char>> {
    let ok = label_text(prefix, g.next_runtime_label as nat);
    spec_emit_lines("beqz t2, "@ + ok) + fail_lines(g, f) + label_lines(ok)
}

/// The size of a table header with `count` fields: the total size word and
/// one offset word per field.
pub open spec fn table_header_size(count: int) -> int {
    4 + 4 * count
}

/// The total size word at the table start must equal the loaded size.
pub open spec fn table_total_lines(g: CodeGenerator, base: Seq<char>, size_offset: int, f: RuntimeFailure) -> Seq<Seq<char>> {
    stack_access_lines("ld"@, "a0"@, size_offset) + unaligned_load_lines(base, "t0"@, "t2"@, 0, 4) + spec_emit_lines(
        "sub t2, t0, a0"@,
    ) + t2_guard_lines(g, "molecule_table_total_ok"@, f)
}

/// The field's start offset into `t5`, which must not point into the header.
pub open spec fn table_start_lines(g: CodeGenerator, base: Seq<char>, index: int, header: int, f: RuntimeFailure) -> Seq<Seq<char>> {
    unaligned_load_lines(base, "t5"@, "t2"@, 4 + 4 * index, 4) + spec_emit_lines(li_body("t1"@, header))
        + spec_emit_lines("sltu t2, t5, t1"@) + t2_guard_lines(g, "molecule_table_start_ok"@, f)
}

/// The field's end `t3 = t5 + width` must neither wrap nor pass the table size.
pub open spec fn table_width_lines(g: CodeGenerator, width: int, f: RuntimeFailure) -> Seq<Seq<char>> {
    spec_emit_lines(li_body("t1"@, width)) + spec_emit_lines("add t3, t5, t1"@) + spec_emit_lines("sltu t2, t3, t5"@)
        + t2_guard_lines(g, "molecule_table_field_overflow_ok"@, f) + (spec_emit_lines("sltu t2, a0, t3"@)
        + t2_guard_lines(after_labels(g, 1), "molecule_table_end_ok"@, f))
}

/// The note that opens a table field check.
pub open spec fn table_field_note(context: Seq<char>, index: nat, width: nat) -> Seq<char> {
    "# cellscript abi: molecule table field "@ + context + " index="@ + dec_nat(index) + " min_width="@ + dec_nat(width)
}

/// The checks that put the start of field `index` of the table at `base`
/// into `t5`: the header fits the loaded size, the table's total size word
/// matches it, the field starts past the header, and a field of `width`
/// bytes ends within the table.
pub open spec fn table_field_bounds_lines(
    g: CodeGenerator,
    base: Seq<char>,
    size_offset: int,
    index: int,
    width: int,
    context: Seq<char>,
    f: RuntimeFailure,
) -> Seq<Seq<char>> {
    let header = table_header_size(index + 1);
    spec_emit_lines(table_field_note(context, index as nat, width as nat)) + size_check_lines(
        g,
        bounds_note(context, header as nat),
        size_offset,
        header,
        "__cellscript_require_min_size"@,
        "schema_bounds_ok"@,
        f,
    ) + table_total_lines(after_labels(g, 1), base, size_offset, f) + table_start_lines(
        after_labels(g, 2),
        base,
        index,
        header,
        f,
    ) + if width > 0 {
        table_width_lines(after_labels(g, 3), width, f)
    } else {
        Seq::empty()
    }
}

impl CodeGenerator {
    /// Fails unless `t2` is zero: see `t2_guard_lines`.
    pub fn emit_t2_guard(&mut self, prefix: &str, failure: &RuntimeFailure)
        requires
            can_fail(*old(self)),
            old(self).next_runtime_label < usize::MAX,
        ensures
            final(self).check_appended(old(self), t2_guard_lines(*old(self), prefix@, *failure), 1),
            final(self).fail_handler_codes@ == codes_after_fail(*old(self), *failure),
    {
        let ghost l0 = self.lines();
        let ok_label = self.fresh_label(prefix);
        let mut beqz = String::new();
        string_push_str(&mut beqz, "beqz t2, ");
        string_push_str(&mut beqz, ok_label.as_str());
        self.emit(beqz.as_str());
        self.emit_fail(failure);
        self.emit_label(ok_label.as_str());
        assert(self.lines() =~= l0 + t2_guard_lines(*old(self), prefix@, *failure));
    }

    /// The total-size check of a table: see `table_total_lines`.
    fn emit_table_total_check(&mut self, base_reg: &str, size_offset: usize, failure: &RuntimeFailure)
        requires
            can_fail(*old(self)),
            old(self).next_runtime_label < usize::MAX,
            size_offset <= i64::MAX,
        ensures
            final(self).check_appended(old(self), table_total_lines(*old(self), base_reg@, size_offset as int, *failure), 1),
            final(self).fail_handler_codes@ == codes_after_fail(*old(self), *failure),
    {
        let ghost l0 = self.lines();
        let ghost a = stack_access_lines("ld"@, "a0"@, size_offset as int);
        let ghost b = unaligned_load_lines(base_reg@, "t0"@, "t2"@, 0, 4);
        let ghost c = spec_emit_lines("sub t2, t0, a0"@);
        let ghost d = t2_guard_lines(*old(self), "molecule_table_total_ok"@, *failure);
        self.emit_stack_load("a0", size_offset);
        self.emit_unaligned_scalar_load(base_reg, "t0", "t2", 0, 4);
        self.emit("sub t2, t0, a0");
        self.emit_t2_guard("molecule_table_total_ok", failure);
        proof {
            lemma_join4(l0, a, b, c, d);
        }
    }

    /// The field-start check of a table: see `table_start_lines`.
    fn emit_table_start_check(&mut self, base_reg: &str, index: usize, header: usize, failure: &RuntimeFailure)
        requires
            can_fail(*old(self)),
            old(self).next_runtime_label < usize::MAX,
            4 + 4 * index + 4 <= i64::MAX,
            4 + 4 * index + 4 <= usize::MAX,
        ensures
            final(self).check_appended(
                old(self),
                table_start_lines(*old(self), base_reg@, index as int, header as int, *failure),
                1,
            ),
            final(self).fail_handler_codes@ == codes_after_fail(*old(self), *failure),
    {
        let ghost l0 = self.lines();
        let ghost a = unaligned_load_lines(base_reg@, "t5"@, "t2"@, 4 + 4 * index, 4);
        let ghost b = spec_emit_lines(li_body("t1"@, header as int));
        let ghost c = spec_emit_lines("sltu t2, t5, t1"@);
        let ghost d = t2_guard_lines(*old(self), "molecule_table_start_ok"@, *failure);
        self.emit_unaligned_scalar_load(base_reg, "t5", "t2", 4 + 4 * index, 4);
        let li = mk_li("t1", header as i128);
        self.emit(li.as_str());
        self.emit("sltu t2, t5, t1");
        self.emit_t2_guard("molecule_table_start_ok", failure);
        proof {
            lemma_join4(l0, a, b, c, d);
        }
    }

    /// The field-end checks of a table: see `table_width_lines`.
    fn emit_table_width_check(&mut self, width: usize, failure: &RuntimeFailure)
        requires
            can_fail(*old(self)),
            old(self).next_runtime_label + 2 <= usize::MAX,
        ensures
            final(self).check_appended(old(self), table_width_lines(*old(self), width as int, *failure), 2),
            final(self).fail_handler_codes@ == codes_after_fail(*old(self), *failure),
    {
        let ghost l0 = self.lines();
        let ghost a = spec_emit_lines(li_body("t1"@, width as int));
        let ghost b = spec_emit_lines("add t3, t5, t1"@);
        let ghost c = spec_emit_lines("sltu t2, t3, t5"@);
        let ghost d = t2_guard_lines(*old(self), "molecule_table_field_overflow_ok"@, *failure);
        let li = mk_li("t1", width as i128);
        self.emit(li.as_str());
        self.emit("add t3, t5, t1");
        self.emit("sltu t2, t3, t5");
        self.emit_t2_guard("molecule_table_field_overflow_ok", failure);
        proof {
            lemma_join4(l0, a, b, c, d);
        }
        let ghost l1 = self.lines();
        let ghost e = spec_emit_lines("sltu t2, a0, t3"@);
        let ghost h = t2_guard_lines(after_labels(*old(self), 1), "molecule_table_end_ok"@, *failure);
        self.emit("sltu t2, a0, t3");
        assert(t2_guard_lines(*self, "molecule_table_end_ok"@, *failure) == h);
        self.emit_t2_guard("molecule_table_end_ok", failure);
        proof {
            lemma_join2(l1, e, h);
            vstd::seq_lib::lemma_concat_associative(l0, a + b + c + d, e + h);
        }
    }

    /// Puts the start of field `field_index` of the table at `base_reg` into
    /// `t5`, failing unless the table is well formed around that field:
    /// see `table_field_bounds_lines`.
    #[verifier::rlimit(60)]
    pub fn emit_molecule_table_field_bounds_to_t5(
        &mut self,
        base_reg: &str,
        size_offset: usize,
        field_index: usize,
        field_width: usize,
        context: &str,
        bounds_failed: &RuntimeFailure,
    )
        requires
            can_fail(*old(self)),
            old(self).next_runtime_label + 5 <= usize::MAX,
            size_offset <= i64::MAX,
            4 + 4 * (field_index + 1) <= i64::MAX,
            4 + 4 * (field_index + 1) <= usize::MAX,
        ensures
            final(self).check_appended(
                old(self),
                table_field_bounds_lines(
                    *old(self),
                    base_reg@,
                    size_offset as int,
                    field_index as int,
                    field_width as int,
                    context@,
                    *bounds_failed,
                ),
                if field_width > 0 { 5int } else { 3int },
            ),
            final(self).fail_handler_codes@ == codes_after_fail(*old(self), *bounds_failed),
    {
        let ghost l0 = self.lines();
        let ghost g0 = *old(self);
        let header: usize = 4 + 4 * (field_index + 1);
        let mut note = String::new();
        string_push_str(&mut note, "# cellscript abi: molecule table field ");
        string_push_str(&mut note, context);
        string_push_str(&mut note, " index=");
        push_decimal_u128(&mut note, field_index as u128);
        string_push_str(&mut note, " min_width=");
        push_decimal_u128(&mut note, field_width as u128);
        let ghost p0 = spec_emit_lines(note@);
        let ghost p1 = size_check_lines(
            g0,
            bounds_note(context@, header as nat),
            size_offset as int,
            header as int,
            "__cellscript_require_min_size"@,
            "schema_bounds_ok"@,
            *bounds_failed,
        );
        let ghost p2 = table_total_lines(after_labels(g0, 1), base_reg@, size_offset as int, *bounds_failed);
        let ghost p3 = table_start_lines(after_labels(g0, 2), base_reg@, field_index as int, header as int, *bounds_failed);
        let ghost p4 = if field_width > 0 {
            table_width_lines(after_labels(g0, 3), field_width as int, *bounds_failed)
        } else {
            Seq::<Seq<char>>::empty()
        };
        self.emit(note.as_str());
        assert(size_check_lines(*self, bounds_note(context@, header as nat), size_offset as int, header as int,
            "__cellscript_require_min_size"@, "schema_bounds_ok"@, *bounds_failed) == p1);
        self.emit_loaded_schema_bounds_check(size_offset, header, context, bounds_failed);
        proof {
            lemma_join2(l0, p0, p1);
        }
        assert(table_total_lines(*self, base_reg@, size_offset as int, *bounds_failed) == p2);
        self.emit_table_total_check(base_reg, size_offset, bounds_failed);
        assert(table_start_lines(*self, base_reg@, field_index as int, header as int, *bounds_failed) == p3);
        self.emit_table_start_check(base_reg, field_index, header, bounds_failed);
        let ghost l3 = self.lines();
        if field_width > 0 {
            assert(table_width_lines(*self, field_width as int, *bounds_failed) == p4);
            self.emit_table_width_check(field_width, bounds_failed);
        } else {
            assert(self.lines() =~= l3 + p4);
        }
        proof {
            lemma_join4(l0, p0 + p1, p2, p3, p4);
        }
    }
}

/// The start of the field into `t5` and the start of the next one, or the
/// table size for the last field, into `t6`.
pub open spec fn table_span_load_lines(base: Seq<char>, index: int, count: int) -> Seq<Seq<char>> {
    unaligned_load_lines(base, "t5"@, "t2"@, 4 + 4 * index, 4) + if index + 1 < count {
        unaligned_load_lines(base, "t6"@, "t2"@, 4 + 4 * (index + 1), 4)
    } else {
        spec_emit_lines("add t6, a0, zero"@)
    }
}

/// The span `[t5, t6)` starts past the header, is ordered, and ends within the table.
pub open spec fn table_span_order_lines(g: CodeGenerator, header: int, f: RuntimeFailure) -> Seq<Seq<char>> {
    spec_emit_lines(li_body("t1"@, header)) + spec_emit_lines("sltu t2, t5, t1"@) + t2_guard_lines(
        g,
        "molecule_table_start_ok"@,
        f,
    ) + (spec_emit_lines("sltu t2, t6, t5"@) + t2_guard_lines(after_labels(g, 1), "molecule_table_order_ok"@, f))
        + (spec_emit_lines("sltu t2, a0, t6"@) + t2_guard_lines(after_labels(g, 2), "molecule_table_end_ok"@, f))
}

/// The note that opens a dynamic table field check.
pub open spec fn table_span_note(context: Seq<char>, index: nat, count: nat) -> Seq<char> {
    "# cellscript abi: molecule table dynamic field "@ + context + " index="@ + dec_nat(index) + " field_count="@
        + dec_nat(count)
}

/// The checks that put the span of field `index` of a `count`-field table
/// at `base` into `[t5, t6)`: the header fits the loaded size, the total
/// size word matches it, and the span lies ordered within the table, past
/// the header.
pub open spec fn table_field_span_lines(
    g: CodeGenerator,
    base: Seq<char>,
    size_offset: int,
    index: int,
    count: int,
    context: Seq<char>,
    f: RuntimeFailure,
) -> Seq<Seq<char>> {
    let header = table_header_size(count);
    spec_emit_lines(table_span_note(context, index as nat, count as nat)) + size_check_lines(
        g,
        bounds_note(context, header as nat),
        size_offset,
        header,
        "__cellscript_require_min_size"@,
        "schema_bounds_ok"@,
        f,
    ) + table_total_lines(after_labels(g, 1), base, size_offset, f) + table_span_load_lines(base, index, count)
        + table_span_order_lines(after_labels(g, 2), header, f)
}

impl CodeGenerator {
    /// See `table_span_load_lines`.
    fn emit_table_span_loads(&mut self, base_reg: &str, index: usize, count: usize)
        requires
            4 + 4 * (index + 2) <= i64::MAX,
            4 + 4 * (index + 2) <= usize::MAX,
        ensures
            final(self).text_appended(old(self), table_span_load_lines(base_reg@, index as int, count as int)),
    {
        let ghost l0 = self.lines();
        let ghost a = unaligned_load_lines(base_reg@, "t5"@, "t2"@, 4 + 4 * index, 4);
        self.emit_unaligned_scalar_load(base_reg, "t5", "t2", 4 + 4 * index, 4);
        if index + 1 < count {
            self.emit_unaligned_scalar_load(base_reg, "t6", "t2", 4 + 4 * (index + 1), 4);
            proof {
                lemma_join2(l0, a, unaligned_load_lines(base_reg@, "t6"@, "t2"@, 4 + 4 * (index + 1), 4));
            }
        } else {
            self.emit("add t6, a0, zero");
            proof {
                lemma_join2(l0, a, spec_emit_lines("add t6, a0, zero"@));
            }
        }
    }

    /// See `table_span_order_lines`.
    #[verifier::rlimit(50)]
    fn emit_table_span_order_checks(&mut self, header: usize, failure: &RuntimeFailure)
        requires
            can_fail(*old(self)),
            old(self).next_runtime_label + 3 <= usize::MAX,
        ensures
            final(self).check_appended(old(self), table_span_order_lines(*old(self), header as int, *failure), 3),
            final(self).fail_handler_codes@ == codes_after_fail(*old(self), *failure),
    {
        let ghost l0 = self.lines();
        let ghost a = spec_emit_lines(li_body("t1"@, header as int));
        let ghost b = spec_emit_lines("sltu t2, t5, t1"@);
        let ghost c = t2_guard_lines(*old(self), "molecule_table_start_ok"@, *failure);
        let li = mk_li("t1", header as i128);
        self.emit(li.as_str());
        self.emit("sltu t2, t5, t1");
        self.emit_t2_guard("molecule_table_start_ok", failure);
        proof {
            lemma_join3(l0, a, b, c);
        }
        let ghost l1 = self.lines();
        let ghost d = spec_emit_lines("sltu t2, t6, t5"@);
        let ghost e = t2_guard_lines(after_labels(*old(self), 1), "molecule_table_order_ok"@, *failure);
        self.emit("sltu t2, t6, t5");
        assert(t2_guard_lines(*self, "molecule_table_order_ok"@, *failure) == e);
        self.emit_t2_guard("molecule_table_order_ok", failure);
        proof {
            lemma_join2(l1, d, e);
        }
        let ghost l2 = self.lines();
        let ghost h = spec_emit_lines("sltu t2, a0, t6"@);
        let ghost k = t2_guard_lines(after_labels(*old(self), 2), "molecule_table_end_ok"@, *failure);
        self.emit("sltu t2, a0, t6");
        assert(t2_guard_lines(*self, "molecule_table_end_ok"@, *failure) == k);
        self.emit_t2_guard("molecule_table_end_ok", failure);
        proof {
            lemma_join2(l2, h, k);
            lemma_join3(l0, a + b + c, d + e, h + k);
        }
    }

    /// Puts the span of field `field_index` of a `field_count`-field table
    /// at `base_reg` into `[t5, t6)`, failing unless the table is well
    /// formed around it: see `table_field_span_lines`.
    #[verifier::rlimit(60)]
    pub fn emit_molecule_table_field_span_to_t5_t6(
        &mut self,
        base_reg: &str,
        size_offset: usize,
        field_index: usize,
        field_count: usize,
        context: &str,
        bounds_failed: &RuntimeFailure,
    )
        requires
            can_fail(*old(self)),
            old(self).next_runtime_label + 5 <= usize::MAX,
            size_offset <= i64::MAX,
            4 + 4 * field_count <= usize::MAX,
            4 + 4 * (field_index + 2) <= i64::MAX,
            4 + 4 * (field_index + 2) <= usize::MAX,
        ensures
            final(self).check_appended(
                old(self),
                table_field_span_lines(
                    *old(self),
                    base_reg@,
                    size_offset as int,
                    field_index as int,
                    field_count as int,
                    context@,
                    *bounds_failed,
                ),
                5,
            ),
            final(self).fail_handler_codes@ == codes_after_fail(*old(self), *bounds_failed),
    {
        let ghost l0 = self.lines();
        let ghost g0 = *old(self);
        let header: usize = 4 + 4 * field_count;
        let mut note = String::new();
        string_push_str(&mut note, "# cellscript abi: molecule table dynamic field ");
        string_push_str(&mut note, context);
        string_push_str(&mut note, " index=");
        push_decimal_u128(&mut note, field_index as u128);
        string_push_str(&mut note, " field_count=");
        push_decimal_u128(&mut note, field_count as u128);
        let ghost p0 = spec_emit_lines(note@);
        let ghost p1 = size_check_lines(
            g0,
            bounds_note(context@, header as nat),
            size_offset as int,
            header as int,
            "__cellscript_require_min_size"@,
            "schema_bounds_ok"@,
            *bounds_failed,
        );
        let ghost p2 = table_total_lines(after_labels(g0, 1), base_reg@, size_offset as int, *bounds_failed);
        let ghost p3 = table_span_load_lines(base_reg@, field_index as int, field_count as int);
        let ghost p4 = table_span_order_lines(after_labels(g0, 2), header as int, *bounds_failed);
        self.emit(note.as_str());
        assert(size_check_lines(*self, bounds_note(context@, header as nat), size_offset as int, header as int,
            "__cellscript_require_min_size"@, "schema_bounds_ok"@, *bounds_failed) == p1);
        self.emit_loaded_schema_bounds_check(size_offset, header, context, bounds_failed);
        proof {
            lemma_join2(l0, p0, p1);
        }
        assert(table_total_lines(*self, base_reg@, size_offset as int, *bounds_failed) == p2);
        self.emit_table_total_check(base_reg, size_offset, bounds_failed);
        self.emit_table_span_loads(base_reg, field_index, field_count);
        assert(table_span_order_lines(*self, header as int, *bounds_failed) == p4);
        self.emit_table_span_order_checks(header, bounds_failed);
        proof {
            lemma_join4(l0, p0 + p1, p2, p3, p4);
        }
    }
}

/// The size word and element width of a dynamic Molecule vector variable.
pub open spec fn vector_length_plan(g: CodeGenerator, operand: IrOperand) -> Option<(usize, int)> {
    match operand {
        IrOperand::Var(v) => {
            let so = if lookup(g.dynamic_value_size_offsets@, v.id) is Some {
                lookup(g.dynamic_value_size_offsets@, v.id)
            } else {
                lookup(g.schema_pointer_size_offsets@, v.id)
            };
            match (so, spec_vector_element_width(v.ty, g.type_fixed_sizes, g.enum_fixed_sizes)) {
                (Some(o), Some(w)) => Some((o, w)),
                _ => None,
            }
        },
        IrOperand::Const(_) => None,
    }
}

/// A vector's element count into `t0`, failing unless the loaded size is
/// exactly the header plus that many elements.
pub open spec fn vector_length_lines(g: CodeGenerator, id: usize, so: int, w: int, f: RuntimeFailure) -> Seq<Seq<char>> {
    spec_emit_lines(
        "# cellscript abi: dynamic Molecule vector length element_size="@ + dec_nat(w as nat) + " size_offset="@ + dec_nat(
            so as nat,
        ),
    ) + size_check_lines(
        g,
        bounds_note("dynamic Molecule vector length"@, 4),
        so,
        4,
        "__cellscript_require_min_size"@,
        "schema_bounds_ok"@,
        f,
    ) + (stack_access_lines("ld"@, "t4"@, id * 8) + unaligned_load_lines("t4"@, "t0"@, "t2"@, 0, 4)) + (stack_access_lines(
        "ld"@,
        "t1"@,
        so,
    ) + spec_emit_lines(li_body("t2"@, w)) + spec_emit_lines("mul t3, t0, t2"@) + spec_emit_lines("addi t3, t3, 4"@)
        + spec_emit_lines("sub t2, t1, t3"@)) + t2_guard_lines(after_labels(g, 1), "molecule_vector_size_ok"@, f)
}

/// Size words within immediate reach.
pub open spec fn length_words_in_reach(g: CodeGenerator) -> bool {
    &&& forall|k: usize| #[trigger] g.dynamic_value_size_offsets@.contains_key(k) ==> g.dynamic_value_size_offsets@[k]
        <= i64::MAX
    &&& forall|k: usize| #[trigger] g.schema_pointer_size_offsets@.contains_key(k) ==> g.schema_pointer_size_offsets@[k]
        <= i64::MAX
    &&& forall|k: usize| #[trigger] g.fixed_byte_param_size_offsets@.contains_key(k)
        ==> g.fixed_byte_param_size_offsets@[k] <= i64::MAX
    &&& forall|k: usize| #[trigger] g.cell_buffer_size_offsets@.contains_key(k) ==> g.cell_buffer_size_offsets@[k]
        <= i64::MAX
}

/// What `Length` emits: a static length as an immediate, a stack
/// collection's length word, a checked Molecule vector count, or a loaded
/// value's size word, stored to `dest`; otherwise it fails closed.
pub open spec fn length_lines(
    g: CodeGenerator,
    dest: IrVar,
    operand: IrOperand,
    unsupported: RuntimeFailure,
    bounds_failed: RuntimeFailure,
) -> Seq<Seq<char>> {
    let store = stack_access_lines("sd"@, "t0"@, dest.id * 8);
    spec_emit_lines("# length"@) + match static_length_of(operand) {
        Some(n) => spec_emit_lines(li_body("t0"@, n as int)) + store,
        None => if g.on_stack(operand) {
            spec_emit_lines("# cellscript abi: stack collection length"@) + stack_access_lines(
                "ld"@,
                "t4"@,
                operand->Var_0.id * 8,
            ) + spec_emit_lines("ld t0, -8(t4)"@) + store
        } else {
            length_from_size_lines(g, dest, operand, unsupported, bounds_failed)
        },
    }
}

/// The length of a loaded value: a checked Molecule vector count or its size
/// word, stored to `dest`; otherwise a failure.
pub open spec fn length_from_size_lines(
    g: CodeGenerator,
    dest: IrVar,
    operand: IrOperand,
    unsupported: RuntimeFailure,
    bounds_failed: RuntimeFailure,
) -> Seq<Seq<char>> {
    let store = stack_access_lines("sd"@, "t0"@, dest.id * 8);
    match vector_length_plan(g, operand) {
        Some((so, w)) => vector_length_lines(g, operand->Var_0.id, so as int, w, bounds_failed) + store,
        None => match spec_dynamic_length(g, operand) {
            Some(so) => spec_emit_lines("# cellscript abi: dynamic length from size word at offset="@ + dec_nat(so as nat))
                + stack_access_lines("ld"@, "t0"@, so as int) + store,
            None => spec_emit_lines("# cellscript abi: fail closed because dynamic length is not available"@) + fail_lines(
                g,
                unsupported,
            ),
        },
    }
}

/// The length known from an operand's type or value.
pub open spec fn static_length_of(operand: IrOperand) -> Option<usize> {
    match operand {
        IrOperand::Var(var) => spec_static_length_from_type(var.ty),
        IrOperand::Const(IrConst::Array(items)) => Some(items@.len() as usize),
        _ => None,
    }
}

impl CodeGenerator {
    /// A dynamic Molecule vector's element count into `t0`; `false`,
    /// emitting nothing, when the operand is no such vector: see
    /// `vector_length_plan` and `vector_length_lines`.
    #[verifier::rlimit(60)]
    pub fn emit_dynamic_molecule_vector_length(&mut self, operand: &IrOperand, bounds_failed: &RuntimeFailure) -> (r: bool)
        requires
            can_fail(*old(self)),
            old(self).next_runtime_label + 2 <= usize::MAX,
            length_words_in_reach(*old(self)),
            operand is Var ==> operand->Var_0.id * 8 <= i64::MAX && operand->Var_0.id * 8 <= usize::MAX,
        ensures
            r == vector_length_plan(*old(self), *operand) is Some,
            !r ==> *final(self) == *old(self),
            vector_length_plan(*old(self), *operand) matches Some((so, w)) ==> final(self).check_appended(
                old(self),
                vector_length_lines(*old(self), operand->Var_0.id, so as int, w, *bounds_failed),
                2,
            ),
            r ==> final(self).fail_handler_codes@ == codes_after_fail(*old(self), *bounds_failed),
    {
        let var = match operand {
            IrOperand::Var(v) => v,
            IrOperand::Const(_) => return false,
        };
        let size_offset = match self.dynamic_value_size_offsets.get(&var.id) {
            Some(o) => *o,
            None => match self.schema_pointer_size_offsets.get(&var.id) {
                Some(o) => *o,
                None => return false,
            },
        };
        let element_width = match molecule_vector_element_fixed_width(&var.ty, &self.type_fixed_sizes, &self.enum_fixed_sizes) {
            Some(w) => w,
            None => return false,
        };
        let ghost g0 = *old(self);
        let ghost l0 = self.lines();
        let mut note = String::new();
        string_push_str(&mut note, "# cellscript abi: dynamic Molecule vector length element_size=");
        push_decimal_u128(&mut note, element_width as u128);
        string_push_str(&mut note, " size_offset=");
        push_decimal_u128(&mut note, size_offset as u128);
        let ghost p0 = spec_emit_lines(note@);
        let ghost p1 = size_check_lines(
            g0,
            bounds_note("dynamic Molecule vector length"@, 4),
            size_offset as int,
            4,
            "__cellscript_require_min_size"@,
            "schema_bounds_ok"@,
            *bounds_failed,
        );
        self.emit(note.as_str());
        assert(size_check_lines(*self, bounds_note("dynamic Molecule vector length"@, 4), size_offset as int, 4,
            "__cellscript_require_min_size"@, "schema_bounds_ok"@, *bounds_failed) == p1);
        self.emit_loaded_schema_bounds_check(size_offset, 4, "dynamic Molecule vector length", bounds_failed);
        proof {
            lemma_join2(l0, p0, p1);
        }
        let ghost l2 = self.lines();
        let ghost p2 = stack_access_lines("ld"@, "t4"@, var.id * 8) + unaligned_load_lines("t4"@, "t0"@, "t2"@, 0, 4);
        self.emit_stack_load("t4", var.id * 8);
        self.emit_unaligned_scalar_load("t4", "t0", "t2", 0, 4);
        proof {
            lemma_join2(l2, stack_access_lines("ld"@, "t4"@, var.id * 8), unaligned_load_lines("t4"@, "t0"@, "t2"@, 0, 4));
        }
        let ghost l3 = self.lines();
        let ghost q0 = stack_access_lines("ld"@, "t1"@, size_offset as int);
        let ghost q1 = spec_emit_lines(li_body("t2"@, element_width as int));
        let ghost q2 = spec_emit_lines("mul t3, t0, t2"@);
        let ghost q3 = spec_emit_lines("addi t3, t3, 4"@);
        let ghost q4 = spec_emit_lines("sub t2, t1, t3"@);
        self.emit_stack_load("t1", size_offset);
        let li = mk_li("t2", element_width as i128);
        self.emit(li.as_str());
        self.emit("mul t3, t0, t2");
        self.emit("addi t3, t3, 4");
        self.emit("sub t2, t1, t3");
        proof {
            lemma_join4(l3, q0, q1, q2, q3);
            lemma_join2(l3, q0 + q1 + q2 + q3, q4);
        }
        let ghost l4 = self.lines();
        let ghost p4 = t2_guard_lines(after_labels(g0, 1), "molecule_vector_size_ok"@, *bounds_failed);
        assert(t2_guard_lines(*self, "molecule_vector_size_ok"@, *bounds_failed) == p4);
        self.emit_t2_guard("molecule_vector_size_ok", bounds_failed);
        proof {
            lemma_join4(l0, p0 + p1, p2, q0 + q1 + q2 + q3 + q4, p4);
        }
        true
    }
}

impl CodeGenerator {
    /// See `length_from_size_lines`.
    #[verifier::rlimit(60)]
    fn emit_length_from_size(
        &mut self,
        dest: &IrVar,
        operand: &IrOperand,
        unsupported: &RuntimeFailure,
        bounds_failed: &RuntimeFailure,
    )
        requires
            can_fail(*old(self)),
            old(self).next_runtime_label + 2 <= usize::MAX,
            length_words_in_reach(*old(self)),
            operand is Var ==> operand->Var_0.id * 8 <= i64::MAX && operand->Var_0.id * 8 <= usize::MAX,
            dest.id * 8 <= i64::MAX,
            dest.id * 8 <= usize::MAX,
        ensures
            final(self).lines() == old(self).lines() + length_from_size_lines(
                *old(self),
                *dest,
                *operand,
                *unsupported,
                *bounds_failed,
            ),
            final(self).same_but_fail_codes(old(self)),
            final(self).const_data_entries == old(self).const_data_entries,
    {
        let ghost l0 = self.lines();
        let ghost g0 = *old(self);
        let ghost store = stack_access_lines("sd"@, "t0"@, dest.id * 8);
        if self.emit_dynamic_molecule_vector_length(operand, bounds_failed) {
            self.emit_stack_store("t0", dest.id * 8);
            return;
        }
        match self.dynamic_length_from_size_offset(operand) {
            Some(size_offset) => {
                let mut note = String::new();
                string_push_str(&mut note, "# cellscript abi: dynamic length from size word at offset=");
                push_decimal_u128(&mut note, size_offset as u128);
                let ghost x = spec_emit_lines(note@);
                let ghost y = stack_access_lines("ld"@, "t0"@, size_offset as int);
                self.emit(note.as_str());
                self.emit_stack_load("t0", size_offset);
                self.emit_stack_store("t0", dest.id * 8);
                proof {
                    lemma_join3(l0, x, y, store);
                }
            },
            None => {
                let ghost x = spec_emit_lines("# cellscript abi: fail closed because dynamic length is not available"@);
                self.emit("# cellscript abi: fail closed because dynamic length is not available");
                self.emit_fail(unsupported);
                proof {
                    lemma_join2(l0, x, fail_lines(g0, *unsupported));
                }
            },
        }
    }

    /// `Length`: see `length_lines`.
    #[verifier::rlimit(60)]
    pub fn emit_length(
        &mut self,
        dest: &IrVar,
        operand: &IrOperand,
        unsupported: &RuntimeFailure,
        bounds_failed: &RuntimeFailure,
    ) -> (r: Result<(), CompileError>)
        requires
            can_fail(*old(self)),
            old(self).next_runtime_label + 2 <= usize::MAX,
            length_words_in_reach(*old(self)),
            operand is Var ==> operand->Var_0.id * 8 <= i64::MAX && operand->Var_0.id * 8 <= usize::MAX,
            dest.id * 8 <= i64::MAX,
            dest.id * 8 <= usize::MAX,
        ensures
            r is Ok,
            final(self).lines() == old(self).lines() + length_lines(*old(self), *dest, *operand, *unsupported, *bounds_failed),
            final(self).same_but_fail_codes(old(self)),
            final(self).const_data_entries == old(self).const_data_entries,
    {
        let ghost l0 = self.lines();
        let ghost g0 = *old(self);
        let ghost head = spec_emit_lines("# length"@);
        let ghost store = stack_access_lines("sd"@, "t0"@, dest.id * 8);
        self.emit("# length");
        if let Some(n) = self.static_length(operand) {
            let li = mk_li("t0", n as i128);
            self.emit(li.as_str());
            self.emit_stack_store("t0", dest.id * 8);
            proof {
                let x = spec_emit_lines(li_body("t0"@, n as int));
                lemma_join3(l0, head, x, store);
                assert(head + x + store =~= head + (x + store));
            }
            return Ok(());
        }
        let ghost stack_lines = spec_emit_lines("# cellscript abi: stack collection length"@) + stack_access_lines(
            "ld"@,
            "t4"@,
            operand->Var_0.id * 8,
        ) + spec_emit_lines("ld t0, -8(t4)"@);
        if self.emit_stack_collection_length(operand) {
            self.emit_stack_store("t0", dest.id * 8);
            proof {
                lemma_join3(l0, head, stack_lines, store);
                assert(head + stack_lines + store =~= head + (stack_lines + store));
            }
            return Ok(());
        }
        let ghost tail = length_from_size_lines(g0, *dest, *operand, *unsupported, *bounds_failed);
        assert(length_from_size_lines(*self, *dest, *operand, *unsupported, *bounds_failed) == tail);
        self.emit_length_from_size(dest, operand, unsupported, bounds_failed);
        proof {
            lemma_join2(l0, head, tail);
        }
        Ok(())
    }
}

/// Fails unless `t2` is nonzero.
pub open spec fn t2_nonzero_guard_lines(g: CodeGenerator, prefix: Seq<char>, f: RuntimeFailure) -> Seq<Seq<char>> {
    let ok = label_text(prefix, g.next_runtime_label as nat);
    spec_emit_lines("bnez t2, "@ + ok) + fail_lines(g, f) + label_lines(ok)
}

/// The vector's count into `t0`, checked against its loaded size.
pub open spec fn vector_index_count_lines(g: CodeGenerator, id: usize, so: int, w: int, f: RuntimeFailure) -> Seq<Seq<char>> {
    size_check_lines(
        g,
        bounds_note("dynamic Molecule vector index"@, 4),
        so,
        4,
        "__cellscript_require_min_size"@,
        "schema_bounds_ok"@,
        f,
    ) + (stack_access_lines("ld"@, "t4"@, id * 8) + unaligned_load_lines("t4"@, "t0"@, "t2"@, 0, 4)) + (stack_access_lines(
        "ld"@,
        "t3"@,
        so,
    ) + spec_emit_lines(li_body("t2"@, w)) + spec_emit_lines("mul t5, t0, t2"@) + spec_emit_lines("addi t5, t5, 4"@)
        + spec_emit_lines("sub t2, t3, t5"@)) + t2_guard_lines(after_labels(g, 1), "molecule_vector_index_size_ok"@, f)
}

/// The element at index `t1`, which must be below the count in `t0`.
pub open spec fn vector_index_element_lines(g: CodeGenerator, w: int, scalar: bool, f: RuntimeFailure) -> Seq<Seq<char>> {
    spec_emit_lines("sltu t2, t1, t0"@) + t2_nonzero_guard_lines(g, "molecule_vector_index_bounds_ok"@, f) + (spec_emit_lines(
        li_body("t2"@, w),
    ) + spec_emit_lines("mul t1, t1, t2"@) + spec_emit_lines("addi t1, t1, 4"@) + spec_emit_lines("add t4, t4, t1"@)) + if scalar {
        unaligned_load_lines("t4"@, "t0"@, "t2"@, 0, if w < 8 { w } else { 8 })
    } else {
        spec_emit_lines("addi t0, t4, 0"@)
    }
}

/// Reading element `idx` of a dynamic Molecule vector into `dest`'s slot.
pub open spec fn vector_index_lines(
    g: CodeGenerator,
    dest: IrVar,
    id: usize,
    idx: IrOperand,
    so: int,
    w: int,
    f: RuntimeFailure,
) -> Seq<Seq<char>> {
    spec_emit_lines("# index access"@) + spec_emit_lines(
        "# cellscript abi: dynamic Molecule vector index element_size="@ + dec_nat(w as nat) + " size_offset="@ + dec_nat(
            so as nat,
        ),
    ) + vector_index_count_lines(g, id, so, w, f) + operand_load_lines("t1"@, idx, g.pool()) + (vector_index_element_lines(
        after_labels(g, 2),
        w,
        spec_fixed_scalar_width(dest.ty, Some(w as usize)) is Some,
        f,
    ) + stack_access_lines("sd"@, "t0"@, dest.id * 8))
}

impl CodeGenerator {
    /// See `vector_index_count_lines`.
    #[verifier::rlimit(60)]
    fn emit_vector_index_count(&mut self, id: usize, size_offset: usize, width: usize, failure: &RuntimeFailure)
        requires
            can_fail(*old(self)),
            old(self).next_runtime_label + 2 <= usize::MAX,
            size_offset <= i64::MAX,
            id * 8 <= i64::MAX,
            id * 8 <= usize::MAX,
        ensures
            final(self).check_appended(
                old(self),
                vector_index_count_lines(*old(self), id, size_offset as int, width as int, *failure),
                2,
            ),
            final(self).fail_handler_codes@ == codes_after_fail(*old(self), *failure),
    {
        let ghost l0 = self.lines();
        let ghost g0 = *old(self);
        let ghost p1 = size_check_lines(
            g0,
            bounds_note("dynamic Molecule vector index"@, 4),
            size_offset as int,
            4,
            "__cellscript_require_min_size"@,
            "schema_bounds_ok"@,
            *failure,
        );
        self.emit_loaded_schema_bounds_check(size_offset, 4, "dynamic Molecule vector index", failure);
        let ghost l1 = self.lines();
        let ghost a = stack_access_lines("ld"@, "t4"@, id * 8);
        let ghost b = unaligned_load_lines("t4"@, "t0"@, "t2"@, 0, 4);
        self.emit_stack_load("t4", id * 8);
        self.emit_unaligned_scalar_load("t4", "t0", "t2", 0, 4);
        proof {
            lemma_join2(l1, a, b);
        }
        let ghost l2 = self.lines();
        let ghost q0 = stack_access_lines("ld"@, "t3"@, size_offset as int);
        let ghost q1 = spec_emit_lines(li_body("t2"@, width as int));
        let ghost q2 = spec_emit_lines("mul t5, t0, t2"@);
        let ghost q3 = spec_emit_lines("addi t5, t5, 4"@);
        let ghost q4 = spec_emit_lines("sub t2, t3, t5"@);
        self.emit_stack_load("t3", size_offset);
        let li = mk_li("t2", width as i128);
        self.emit(li.as_str());
        self.emit("mul t5, t0, t2");
        self.emit("addi t5, t5, 4");
        self.emit("sub t2, t3, t5");
        proof {
            lemma_join4(l2, q0, q1, q2, q3);
            lemma_join2(l2, q0 + q1 + q2 + q3, q4);
        }
        let ghost p4 = t2_guard_lines(after_labels(g0, 1), "molecule_vector_index_size_ok"@, *failure);
        assert(t2_guard_lines(*self, "molecule_vector_index_size_ok"@, *failure) == p4);
        self.emit_t2_guard("molecule_vector_index_size_ok", failure);
        proof {
            lemma_join4(l0, p1, a + b, q0 + q1 + q2 + q3 + q4, p4);
        }
    }

    /// See `vector_index_element_lines`.
    #[verifier::rlimit(60)]
    fn emit_vector_index_element(&mut self, width: usize, scalar: bool, failure: &RuntimeFailure)
        requires
            can_fail(*old(self)),
            old(self).next_runtime_label < usize::MAX,
        ensures
            final(self).check_appended(old(self), vector_index_element_lines(*old(self), width as int, scalar, *failure), 1),
            final(self).fail_handler_codes@ == codes_after_fail(*old(self), *failure),
    {
        let ghost l0 = self.lines();
        let ok_label = self.fresh_label("molecule_vector_index_bounds_ok");
        self.emit("sltu t2, t1, t0");
        let mut bnez = String::new();
        string_push_str(&mut bnez, "bnez t2, ");
        string_push_str(&mut bnez, ok_label.as_str());
        self.emit(bnez.as_str());
        self.emit_fail(failure);
        self.emit_label(ok_label.as_str());
        let ghost a = spec_emit_lines("sltu t2, t1, t0"@);
        let ghost b = t2_nonzero_guard_lines(*old(self), "molecule_vector_index_bounds_ok"@, *failure);
        proof {
            assert(spec_emit_lines(bnez@) + fail_lines(*old(self), *failure) + label_lines(ok_label@) == b);
            lemma_join4(l0, a, spec_emit_lines(bnez@), fail_lines(*old(self), *failure), label_lines(ok_label@));
            assert(a + spec_emit_lines(bnez@) + fail_lines(*old(self), *failure) + label_lines(ok_label@) =~= a + b);
        }
        let ghost l1 = self.lines();
        let ghost c0 = spec_emit_lines(li_body("t2"@, width as int));
        let ghost c1 = spec_emit_lines("mul t1, t1, t2"@);
        let ghost c2 = spec_emit_lines("addi t1, t1, 4"@);
        let ghost c3 = spec_emit_lines("add t4, t4, t1"@);
        let li = mk_li("t2", width as i128);
        self.emit(li.as_str());
        self.emit("mul t1, t1, t2");
        self.emit("addi t1, t1, 4");
        self.emit("add t4, t4, t1");
        proof {
            lemma_join4(l1, c0, c1, c2, c3);
        }
        let ghost l2 = self.lines();
        let ghost d = if scalar {
            unaligned_load_lines("t4"@, "t0"@, "t2"@, 0, if width < 8 { width as int } else { 8 })
        } else {
            spec_emit_lines("addi t0, t4, 0"@)
        };
        if scalar {
            let w = if width < 8 {
                width
            } else {
                8
            };
            self.emit_unaligned_scalar_load("t4", "t0", "t2", 0, w);
        } else {
            self.emit("addi t0, t4, 0");
        }
        proof {
            lemma_join3(l0, a + b, c0 + c1 + c2 + c3, d);
        }
    }

    /// Reads an element of a dynamic Molecule vector at a runtime index,
    /// failing unless the loaded size matches the count and the index is
    /// below it; `false`, emitting nothing, when `arr` is no such vector.
    #[verifier::rlimit(80)]
    pub fn emit_dynamic_molecule_vector_index(&mut self, dest: &IrVar, arr: &IrOperand, idx: &IrOperand, bounds_failed: &RuntimeFailure) -> (handled: bool)
        requires
            can_fail(*old(self)),
            old(self).next_runtime_label + 3 <= usize::MAX,
            length_words_in_reach(*old(self)),
            arr is Var ==> arr->Var_0.id * 8 <= i64::MAX && arr->Var_0.id * 8 <= usize::MAX,
            idx is Var ==> idx->Var_0.id * 8 <= i64::MAX && idx->Var_0.id * 8 <= usize::MAX,
            dest.id * 8 <= i64::MAX,
            dest.id * 8 <= usize::MAX,
        ensures
            handled == vector_length_plan(*old(self), *arr) is Some,
            !handled ==> *final(self) == *old(self),
            vector_length_plan(*old(self), *arr) matches Some((so, w)) ==> {
                &&& final(self).lines() == old(self).lines() + vector_index_lines(
                    *old(self),
                    *dest,
                    arr->Var_0.id,
                    *idx,
                    so as int,
                    w,
                    *bounds_failed,
                )
                &&& final(self).pool() == operand_pool_after(*idx, old(self).pool())
                &&& final(self).same_but_fail_codes(old(self))
            },
    {
        let arr_var = match arr {
            IrOperand::Var(v) => v,
            IrOperand::Const(_) => return false,
        };
        let size_offset = match self.dynamic_value_size_offsets.get(&arr_var.id) {
            Some(o) => *o,
            None => match self.schema_pointer_size_offsets.get(&arr_var.id) {
                Some(o) => *o,
                None => return false,
            },
        };
        let width = match molecule_vector_element_fixed_width(&arr_var.ty, &self.type_fixed_sizes, &self.enum_fixed_sizes) {
            Some(w) => w,
            None => return false,
        };
        let scalar = fixed_scalar_width(&dest.ty, Some(width)).is_some();
        let ghost g0 = *old(self);
        let ghost l0 = self.lines();
        let mut info = String::new();
        string_push_str(&mut info, "# cellscript abi: dynamic Molecule vector index element_size=");
        push_decimal_u128(&mut info, width as u128);
        string_push_str(&mut info, " size_offset=");
        push_decimal_u128(&mut info, size_offset as u128);
        let ghost p0 = spec_emit_lines("# index access"@);
        let ghost p1 = spec_emit_lines(info@);
        self.emit("# index access");
        self.emit(info.as_str());
        let ghost p2 = vector_index_count_lines(g0, arr_var.id, size_offset as int, width as int, *bounds_failed);
        assert(vector_index_count_lines(*self, arr_var.id, size_offset as int, width as int, *bounds_failed) == p2);
        self.emit_vector_index_count(arr_var.id, size_offset, width, bounds_failed);
        let ghost p3 = operand_load_lines("t1"@, *idx, g0.pool());
        self.emit_operand_to_register("t1", idx);
        let ghost l4 = self.lines();
        let ghost p4 = vector_index_element_lines(after_labels(g0, 2), width as int, scalar, *bounds_failed);
        assert(vector_index_element_lines(*self, width as int, scalar, *bounds_failed) == p4);
        self.emit_vector_index_element(width, scalar, bounds_failed);
        let ghost store = stack_access_lines("sd"@, "t0"@, dest.id * 8);
        self.emit_stack_store("t0", dest.id * 8);
        proof {
            lemma_join2(l4, p4, store);
            lemma_join4(l0, p0, p1, p2, p3);
            vstd::seq_lib::lemma_concat_associative(l0, p0 + p1 + p2 + p3, p4 + store);
        }
        true
    }
}

} // verus!
