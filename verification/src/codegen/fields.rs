//! Field and element reads from fixed-size values through their pointer.

use vstd::prelude::*;

use crate::codegen::checks::{
    after_labels, bool_canonical_lines, bounds_note, can_fail, codes_after_fail, exact_size_note, size_check_lines,
};
use crate::codegen::generator::{label_text, stack_access_lines, unaligned_load_lines, CodeGenerator};
use crate::codegen::checks::{fail_lines, label_lines};
use crate::codegen::operands::{operand_load_lines, operand_pool_after};
use crate::codegen::lines::{lemma_join2, lemma_join3, lemma_join4, li_body, mk_li, mk_rri, rri_body, spec_emit_lines};
use crate::codegen::mutate::layout_byte_width;
use crate::codegen::pointers::lookup;
use crate::codegen::runtime::RuntimeFailure;
use crate::codegen::schema::{layout_fixed_byte_width, layout_fixed_scalar_width, SchemaFieldLayout};
use crate::codegen::widths::{
    const_usize_operand, fixed_scalar_width, lemma_static_length_nonneg_pub, length_fits, named_type_name, opt_usize,
    spec_const_usize_operand, spec_fixed_scalar_width, spec_named_type_name, spec_static_length, type_static_length,
};
use crate::ir::{IrOperand, IrType, IrVar};
use crate::text::{dec_nat, push_decimal_u128, string_push_str};

verus! {

broadcast use vstd::std_specs::hash::group_hash_axioms;

/// A field's scalar width, or its enum's storage width.
pub open spec fn layout_scalar_width(l: SchemaFieldLayout) -> Option<int> {
    if spec_fixed_scalar_width(l.ty, l.fixed_size) is Some {
        spec_fixed_scalar_width(l.ty, l.fixed_size)
    } else {
        opt_usize(l.fixed_enum_size)
    }
}

/// The schema, layout and byte width of `field` when `obj` is a variable of
/// a fixed-size schema whose field has a fixed byte width.
pub open spec fn generic_field_layout(g: CodeGenerator, obj: IrOperand, field: Seq<char>) -> Option<(Seq<char>, SchemaFieldLayout, int)> {
    match obj {
        IrOperand::Var(v) => match spec_named_type_name(v.ty) {
            Some(t) => if g.type_fixed_sizes.lookup(t) is Some {
                match g.spec_field_layout(t, field) {
                    Some(l) => match layout_byte_width(l) {
                        Some(w) => Some((t, l, w)),
                        None => None,
                    },
                    None => None,
                }
            } else {
                None
            },
            None => None,
        },
        IrOperand::Const(_) => None,
    }
}

/// The size word that bounds a schema variable's bytes, if any.
pub open spec fn bounding_size_offset(g: CodeGenerator, id: usize) -> Option<usize> {
    if lookup(g.schema_pointer_size_offsets@, id) is Some {
        lookup(g.schema_pointer_size_offsets@, id)
    } else {
        lookup(g.fixed_byte_param_size_offsets@, id)
    }
}

/// The bounds check before a field read, when the value's size is known.
pub open spec fn field_bounds_lines(g: CodeGenerator, id: usize, context: Seq<char>, end: int, f: RuntimeFailure) -> Seq<Seq<char>> {
    match bounding_size_offset(g, id) {
        Some(so) => size_check_lines(
            g,
            bounds_note(context, end as nat),
            so as int,
            end,
            "__cellscript_require_min_size"@,
            "schema_bounds_ok"@,
            f,
        ),
        None => Seq::empty(),
    }
}

/// The field value into `t0`: a scalar assembled byte by byte (a boolean
/// checked to be 0 or 1), anything else as its address.
pub open spec fn field_value_lines(g: CodeGenerator, dest: IrVar, scalar: bool, offset: int, w: int, f: RuntimeFailure) -> Seq<Seq<char>> {
    if scalar {
        unaligned_load_lines("t4"@, "t0"@, "t2"@, offset, w) + if dest.ty is Bool {
            bool_canonical_lines(g, "t0"@, f)
        } else {
            Seq::empty()
        }
    } else {
        spec_emit_lines(rri_body("addi"@, "t0"@, "t4"@, offset))
    }
}

/// Reading `field` of the fixed-size schema variable `v` into `dest`'s slot.
pub open spec fn generic_field_lines(
    g: CodeGenerator,
    dest: IrVar,
    v: IrVar,
    field: Seq<char>,
    t: Seq<char>,
    l: SchemaFieldLayout,
    w: int,
    bounds_failed: RuntimeFailure,
    invalid: RuntimeFailure,
) -> Seq<Seq<char>> {
    let context = t + "."@ + field;
    let k = if bounding_size_offset(g, v.id) is Some { 1int } else { 0int };
    spec_emit_lines("# field access ."@ + field) + spec_emit_lines(
        "# cellscript abi: generic field "@ + context + " offset="@ + dec_nat(l.offset as nat) + " size="@ + dec_nat(
            w as nat,
        ),
    ) + field_bounds_lines(g, v.id, context, l.offset + w, bounds_failed) + (stack_access_lines("ld"@, "t4"@, v.id * 8)
        + field_value_lines(after_labels(g, k), dest, layout_scalar_width(l) is Some, l.offset as int, w, invalid)
        + stack_access_lines("sd"@, "t0"@, dest.id * 8))
}

/// Every recorded field ends within immediate reach.
pub open spec fn layouts_in_reach(g: CodeGenerator) -> bool {
    forall|t: Seq<char>, f: Seq<char>| #[trigger] g.spec_field_layout(t, f) matches Some(l) ==> (layout_byte_width(l) matches Some(
        w,
    ) ==> l.offset + w <= i64::MAX && l.offset + w <= usize::MAX)
}

/// Every size word lies within immediate reach.
pub open spec fn size_words_in_reach(g: CodeGenerator) -> bool {
    &&& forall|k: usize| #[trigger] g.schema_pointer_size_offsets@.contains_key(k) ==> g.schema_pointer_size_offsets@[k]
        <= i64::MAX
    &&& forall|k: usize| #[trigger] g.fixed_byte_param_size_offsets@.contains_key(k)
        ==> g.fixed_byte_param_size_offsets@[k] <= i64::MAX
}

impl CodeGenerator {
    /// The bounds check before a field read: see `field_bounds_lines`.
    fn emit_field_bounds_check(&mut self, id: usize, context: &str, end: usize, failure: &RuntimeFailure)
        requires
            can_fail(*old(self)),
            old(self).next_runtime_label < usize::MAX,
            size_words_in_reach(*old(self)),
        ensures
            final(self).check_appended(
                old(self),
                field_bounds_lines(*old(self), id, context@, end as int, *failure),
                if bounding_size_offset(*old(self), id) is Some { 1int } else { 0int },
            ),
            final(self).fail_handler_codes@ == if bounding_size_offset(*old(self), id) is Some {
                codes_after_fail(*old(self), *failure)
            } else {
                old(self).fail_handler_codes@
            },
    {
        let so = match self.schema_pointer_size_offsets.get(&id) {
            Some(o) => Some(*o),
            None => match self.fixed_byte_param_size_offsets.get(&id) {
                Some(o) => Some(*o),
                None => None,
            },
        };
        match so {
            Some(size_offset) => self.emit_loaded_schema_bounds_check(size_offset, end, context, failure),
            None => {
                assert(self.lines() =~= old(self).lines() + field_bounds_lines(*old(self), id, context@, end as int, *failure));
            },
        }
    }

    /// The field value into `t0`: see `field_value_lines`.
    fn emit_field_value(&mut self, dest: &IrVar, scalar: bool, offset: usize, width: usize, invalid: &RuntimeFailure)
        requires
            can_fail(*old(self)),
            old(self).next_runtime_label < usize::MAX,
            offset + width <= i64::MAX,
            offset + width <= usize::MAX,
        ensures
            final(self).check_appended(
                old(self),
                field_value_lines(*old(self), *dest, scalar, offset as int, width as int, *invalid),
                if scalar && dest.ty is Bool { 1int } else { 0int },
            ),
            final(self).fail_handler_codes@ == if scalar && dest.ty is Bool {
                codes_after_fail(*old(self), *invalid)
            } else {
                old(self).fail_handler_codes@
            },
    {
        let ghost l0 = self.lines();
        if scalar {
            let ghost load = unaligned_load_lines("t4"@, "t0"@, "t2"@, offset as int, width as int);
            self.emit_unaligned_scalar_load("t4", "t0", "t2", offset, width);
            if matches!(dest.ty, IrType::Bool) {
                let ghost check = bool_canonical_lines(*old(self), "t0"@, *invalid);
                self.emit_bool_canonical_check("t0", invalid);
                proof {
                    lemma_join2(l0, load, check);
                }
            } else {
                assert(self.lines() =~= l0 + field_value_lines(*old(self), *dest, scalar, offset as int, width as int, *invalid));
            }
        } else {
            let addi = mk_rri("addi", "t0", "t4", offset as i128);
            self.emit(addi.as_str());
        }
    }

    /// Reads a fixed-width field of a fixed-size schema value through its
    /// pointer, with a bounds check when the value's size is known; `false`,
    /// emitting nothing, when `obj` is no such value: see
    /// `generic_field_layout` and `generic_field_lines`.
    #[verifier::rlimit(60)]
    pub fn emit_generic_field_access(
        &mut self,
        dest: &IrVar,
        obj: &IrOperand,
        field: &str,
        bounds_failed: &RuntimeFailure,
        invalid: &RuntimeFailure,
    ) -> (handled: bool)
        requires
            can_fail(*old(self)),
            old(self).next_runtime_label + 2 <= usize::MAX,
            old(self).layouts_fit(),
            layouts_in_reach(*old(self)),
            size_words_in_reach(*old(self)),
            obj is Var ==> obj->Var_0.id * 8 <= i64::MAX && obj->Var_0.id * 8 <= usize::MAX,
            dest.id * 8 <= i64::MAX,
            dest.id * 8 <= usize::MAX,
        ensures
            handled == generic_field_layout(*old(self), *obj, field@) is Some,
            !handled ==> *final(self) == *old(self),
            handled ==> ({
                let (t, l, w) = generic_field_layout(*old(self), *obj, field@)->0;
                let v = obj->Var_0;
                let k = if bounding_size_offset(*old(self), v.id) is Some { 1int } else { 0int };
                let b = layout_scalar_width(l) is Some && dest.ty is Bool;
                &&& final(self).lines() == old(self).lines() + generic_field_lines(
                    *old(self),
                    *dest,
                    v,
                    field@,
                    t,
                    l,
                    w,
                    *bounds_failed,
                    *invalid,
                )
                &&& final(self).same_but_fail_codes(old(self))
                &&& final(self).const_data_entries == old(self).const_data_entries
                &&& final(self).next_runtime_label == old(self).next_runtime_label + k + if b { 1int } else { 0int }
            }),
    {
        let var = match obj {
            IrOperand::Var(v) => v,
            IrOperand::Const(_) => return false,
        };
        let schema = match named_type_name(&var.ty) {
            Some(t) => t,
            None => return false,
        };
        if !self.type_fixed_sizes.contains_key(schema) {
            return false;
        }
        let (offset, width, scalar) = match self.field_layout(schema, field) {
            Some(l) => match layout_fixed_byte_width(l) {
                Some(w) => (l.offset, w, layout_fixed_scalar_width(l).is_some()),
                None => return false,
            },
            None => return false,
        };
        let ghost layout = self.spec_field_layout(schema@, field@)->0;
        let ghost g0 = *old(self);
        let ghost l0 = self.lines();
        let mut note = String::new();
        string_push_str(&mut note, "# field access .");
        string_push_str(&mut note, field);
        let mut context = String::new();
        string_push_str(&mut context, schema);
        string_push_str(&mut context, ".");
        string_push_str(&mut context, field);
        let mut info = String::new();
        string_push_str(&mut info, "# cellscript abi: generic field ");
        string_push_str(&mut info, context.as_str());
        string_push_str(&mut info, " offset=");
        push_decimal_u128(&mut info, offset as u128);
        string_push_str(&mut info, " size=");
        push_decimal_u128(&mut info, width as u128);
        let ghost a = spec_emit_lines(note@);
        let ghost b = spec_emit_lines(info@);
        let ghost c = field_bounds_lines(g0, var.id, context@, offset + width, *bounds_failed);
        self.emit(note.as_str());
        self.emit(info.as_str());
        assert(field_bounds_lines(*self, var.id, context@, offset + width, *bounds_failed) == c);
        self.emit_field_bounds_check(var.id, context.as_str(), offset + width, bounds_failed);
        let ghost l3 = self.lines();
        let ghost k = if bounding_size_offset(g0, var.id) is Some { 1int } else { 0int };
        let ghost d1 = stack_access_lines("ld"@, "t4"@, var.id * 8);
        let ghost d2 = field_value_lines(after_labels(g0, k), *dest, scalar, offset as int, width as int, *invalid);
        let ghost d3 = stack_access_lines("sd"@, "t0"@, dest.id * 8);
        self.emit_stack_load("t4", var.id * 8);
        assert(field_value_lines(*self, *dest, scalar, offset as int, width as int, *invalid) == d2);
        self.emit_field_value(dest, scalar, offset, width, invalid);
        self.emit_stack_store("t0", dest.id * 8);
        proof {
            lemma_join4(l0, a, b, c, d1 + d2 + d3);
            vstd::seq_lib::lemma_concat_associative(l3, d1, d2);
            vstd::seq_lib::lemma_concat_associative(l3, d1 + d2, d3);
        }
        true
    }
}

/// The array variable, element offset, element width, total width and
/// whether the element is a scalar, when `arr` is a fixed-width array
/// parameter and `idx` a constant index within it.
pub open spec fn aggregate_index_plan(g: CodeGenerator, arr: IrOperand, idx: IrOperand) -> Option<(IrVar, int, int, int, bool)> {
    match (arr, spec_const_usize_operand(idx)) {
        (IrOperand::Var(a), Some(i)) => if g.aggregate_pointer_sources@.contains_key(a.id) {
            match a.ty {
                IrType::Array(inner, len) => if i < len {
                    match (spec_static_length(*inner), spec_static_length(a.ty)) {
                        (Some(ew), Some(total)) => Some(
                            (a, i * ew, ew, total, spec_fixed_scalar_width(*inner, Some(ew as usize)) is Some),
                        ),
                        _ => None,
                    }
                } else {
                    None
                },
                _ => None,
            }
        } else {
            None
        },
        _ => None,
    }
}

/// Reading element `i` of the fixed-width array parameter `a` into `dest`'s
/// slot: the parameter's length must be the array's and must cover the
/// element when it is known.
pub open spec fn aggregate_index_lines(
    g: CodeGenerator,
    dest: IrVar,
    i: int,
    plan: (IrVar, int, int, int, bool),
    f: RuntimeFailure,
) -> Seq<Seq<char>> {
    let (a, offset, ew, total, scalar) = plan;
    spec_emit_lines("# index access ["@ + dec_nat(i as nat) + "]"@) + spec_emit_lines(
        "# cellscript abi: fixed aggregate index element_offset="@ + dec_nat(offset as nat) + " element_size="@ + dec_nat(
            ew as nat,
        ),
    ) + match lookup(g.fixed_byte_param_size_offsets@, a.id) {
        Some(so) => size_check_lines(
            g,
            exact_size_note("fixed aggregate param"@, total as nat),
            so as int,
            total,
            "__cellscript_require_exact_size"@,
            "schema_size_ok"@,
            f,
        ) + size_check_lines(
            after_labels(g, 1),
            bounds_note("fixed aggregate index"@, (offset + ew) as nat),
            so as int,
            offset + ew,
            "__cellscript_require_min_size"@,
            "schema_bounds_ok"@,
            f,
        ),
        None => Seq::empty(),
    } + (stack_access_lines("ld"@, "t4"@, a.id * 8) + (if scalar {
        unaligned_load_lines("t4"@, "t0"@, "t2"@, offset, ew)
    } else {
        spec_emit_lines(rri_body("addi"@, "t0"@, "t4"@, offset))
    }) + stack_access_lines("sd"@, "t0"@, dest.id * 8))
}

impl CodeGenerator {
    /// The two length checks of an array parameter: see `aggregate_index_lines`.
    fn emit_aggregate_param_checks(&mut self, size_offset: usize, total: usize, end: usize, failure: &RuntimeFailure)
        requires
            can_fail(*old(self)),
            old(self).next_runtime_label + 2 <= usize::MAX,
            size_offset <= i64::MAX,
        ensures
            final(self).check_appended(
                old(self),
                size_check_lines(
                    *old(self),
                    exact_size_note("fixed aggregate param"@, total as nat),
                    size_offset as int,
                    total as int,
                    "__cellscript_require_exact_size"@,
                    "schema_size_ok"@,
                    *failure,
                ) + size_check_lines(
                    after_labels(*old(self), 1),
                    bounds_note("fixed aggregate index"@, end as nat),
                    size_offset as int,
                    end as int,
                    "__cellscript_require_min_size"@,
                    "schema_bounds_ok"@,
                    *failure,
                ),
                2,
            ),
            final(self).fail_handler_codes@ == codes_after_fail(*old(self), *failure),
    {
        let ghost l0 = self.lines();
        let ghost a = size_check_lines(
            *old(self),
            exact_size_note("fixed aggregate param"@, total as nat),
            size_offset as int,
            total as int,
            "__cellscript_require_exact_size"@,
            "schema_size_ok"@,
            *failure,
        );
        let ghost b = size_check_lines(
            after_labels(*old(self), 1),
            bounds_note("fixed aggregate index"@, end as nat),
            size_offset as int,
            end as int,
            "__cellscript_require_min_size"@,
            "schema_bounds_ok"@,
            *failure,
        );
        self.emit_loaded_schema_exact_size_check(size_offset, total, "fixed aggregate param", failure);
        assert(size_check_lines(*self, bounds_note("fixed aggregate index"@, end as nat), size_offset as int, end as int,
            "__cellscript_require_min_size"@, "schema_bounds_ok"@, *failure) == b);
        self.emit_loaded_schema_bounds_check(size_offset, end, "fixed aggregate index", failure);
        proof {
            lemma_join2(l0, a, b);
        }
    }

    /// Reads a constant-index element of a fixed-width array parameter;
    /// `false`, emitting nothing, when `arr` and `idx` are not such: see
    /// `aggregate_index_plan` and `aggregate_index_lines`.
    #[verifier::rlimit(60)]
    pub fn emit_fixed_aggregate_index(&mut self, dest: &IrVar, arr: &IrOperand, idx: &IrOperand, bounds_failed: &RuntimeFailure) -> (handled: bool)
        requires
            can_fail(*old(self)),
            old(self).next_runtime_label + 2 <= usize::MAX,
            size_words_in_reach(*old(self)),
            arr is Var ==> {
                &&& length_fits(arr->Var_0.ty)
                &&& arr->Var_0.id * 8 <= i64::MAX
                &&& arr->Var_0.id * 8 <= usize::MAX
                &&& spec_static_length(arr->Var_0.ty) matches Some(t) ==> t <= i64::MAX
            },
            dest.id * 8 <= i64::MAX,
            dest.id * 8 <= usize::MAX,
        ensures
            handled == aggregate_index_plan(*old(self), *arr, *idx) is Some,
            !handled ==> *final(self) == *old(self),
            handled ==> ({
                let plan = aggregate_index_plan(*old(self), *arr, *idx)->0;
                let k = if lookup(old(self).fixed_byte_param_size_offsets@, plan.0.id) is Some { 2int } else { 0int };
                &&& final(self).lines() == old(self).lines() + aggregate_index_lines(
                    *old(self),
                    *dest,
                    spec_const_usize_operand(*idx)->0,
                    plan,
                    *bounds_failed,
                )
                &&& final(self).same_but_fail_codes(old(self))
                &&& final(self).const_data_entries == old(self).const_data_entries
                &&& final(self).next_runtime_label == old(self).next_runtime_label + k
            }),
    {
        let arr_var = match arr {
            IrOperand::Var(v) => v,
            IrOperand::Const(_) => return false,
        };
        let index = match const_usize_operand(idx) {
            Some(i) => i,
            None => return false,
        };
        if !self.aggregate_pointer_sources.contains_key(&arr_var.id) {
            return false;
        }
        let (inner, len) = match &arr_var.ty {
            IrType::Array(inner, len) => (inner, *len),
            _ => return false,
        };
        if index >= len {
            return false;
        }
        let element_width = match type_static_length(inner) {
            Some(w) => w,
            None => return false,
        };
        let total_width = match type_static_length(&arr_var.ty) {
            Some(w) => w,
            None => return false,
        };
        proof {
            lemma_static_length_nonneg_pub(**inner);
            assert(total_width == element_width * len);
            assert(index * element_width + element_width <= len * element_width) by (nonlinear_arith)
                requires
                    index < len,
            ;
        }
        let offset = index * element_width;
        let scalar = fixed_scalar_width(inner, Some(element_width)).is_some();
        let ghost g0 = *old(self);
        let ghost l0 = self.lines();
        let mut note = String::new();
        string_push_str(&mut note, "# index access [");
        push_decimal_u128(&mut note, index as u128);
        string_push_str(&mut note, "]");
        let mut info = String::new();
        string_push_str(&mut info, "# cellscript abi: fixed aggregate index element_offset=");
        push_decimal_u128(&mut info, offset as u128);
        string_push_str(&mut info, " element_size=");
        push_decimal_u128(&mut info, element_width as u128);
        let ghost p0 = spec_emit_lines(note@);
        let ghost p1 = spec_emit_lines(info@);
        self.emit(note.as_str());
        self.emit(info.as_str());
        let ghost l2 = self.lines();
        let ghost checks = match lookup(g0.fixed_byte_param_size_offsets@, arr_var.id) {
            Some(so) => size_check_lines(
                g0,
                exact_size_note("fixed aggregate param"@, total_width as nat),
                so as int,
                total_width as int,
                "__cellscript_require_exact_size"@,
                "schema_size_ok"@,
                *bounds_failed,
            ) + size_check_lines(
                after_labels(g0, 1),
                bounds_note("fixed aggregate index"@, (offset + element_width) as nat),
                so as int,
                offset + element_width,
                "__cellscript_require_min_size"@,
                "schema_bounds_ok"@,
                *bounds_failed,
            ),
            None => Seq::<Seq<char>>::empty(),
        };
        match self.fixed_byte_param_size_offsets.get(&arr_var.id) {
            Some(so) => {
                let so = *so;
                self.emit_aggregate_param_checks(so, total_width, offset + element_width, bounds_failed);
            },
            None => {
                assert(self.lines() =~= l2 + checks);
            },
        }
        let ghost l3 = self.lines();
        let ghost d1 = stack_access_lines("ld"@, "t4"@, arr_var.id * 8);
        let ghost d2 = if scalar {
            unaligned_load_lines("t4"@, "t0"@, "t2"@, offset as int, element_width as int)
        } else {
            spec_emit_lines(rri_body("addi"@, "t0"@, "t4"@, offset as int))
        };
        let ghost d3 = stack_access_lines("sd"@, "t0"@, dest.id * 8);
        self.emit_stack_load("t4", arr_var.id * 8);
        if scalar {
            self.emit_unaligned_scalar_load("t4", "t0", "t2", offset, element_width);
        } else {
            let addi = mk_rri("addi", "t0", "t4", offset as i128);
            self.emit(addi.as_str());
        }
        self.emit_stack_store("t0", dest.id * 8);
        proof {
            lemma_join4(l0, p0, p1, checks, d1 + d2 + d3);
            vstd::seq_lib::lemma_concat_associative(l3, d1, d2);
            vstd::seq_lib::lemma_concat_associative(l3, d1 + d2, d3);
        }
        true
    }
}

/// The array variable, length, element width, total width and whether the
/// element is a scalar, when `arr` is a variable of a static array type.
pub open spec fn dynamic_index_plan(arr: IrOperand) -> Option<(IrVar, int, int, int, bool)> {
    match arr {
        IrOperand::Var(a) => match a.ty {
            IrType::Array(inner, len) => match (spec_static_length(*inner), spec_static_length(a.ty)) {
                (Some(ew), Some(total)) => Some((a, len as int, ew, total, spec_fixed_scalar_width(*inner, Some(ew as usize)) is Some)),
                _ => None,
            },
            _ => None,
        },
        IrOperand::Const(_) => None,
    }
}

/// Fails unless `t3` is nonzero.
pub open spec fn t3_nonzero_guard_lines(g: CodeGenerator, prefix: Seq<char>, f: RuntimeFailure) -> Seq<Seq<char>> {
    let ok = label_text(prefix, g.next_runtime_label as nat);
    spec_emit_lines("bnez t3, "@ + ok) + fail_lines(g, f) + label_lines(ok)
}

/// The element at the runtime index: the index must be below the length;
/// a scalar element is loaded, any other is addressed.
pub open spec fn dynamic_index_tail_lines(g: CodeGenerator, len: int, ew: int, scalar: bool, f: RuntimeFailure) -> Seq<Seq<char>> {
    spec_emit_lines(li_body("t2"@, len)) + spec_emit_lines("sltu t3, t1, t2"@) + t3_nonzero_guard_lines(
        g,
        "idx_bounds_ok"@,
        f,
    ) + spec_emit_lines(li_body("t2"@, ew)) + spec_emit_lines("mul t1, t1, t2"@) + if scalar {
        spec_emit_lines("add t4, t4, t1"@) + unaligned_load_lines("t4"@, "t0"@, "t2"@, 0, if ew < 8 { ew } else { 8 })
    } else {
        spec_emit_lines("add t0, t4, t1"@)
    }
}

/// Reading element `idx` of the static array variable `a` into `dest`'s slot.
pub open spec fn dynamic_index_lines(
    g: CodeGenerator,
    dest: IrVar,
    idx: IrOperand,
    plan: (IrVar, int, int, int, bool),
    f: RuntimeFailure,
) -> Seq<Seq<char>> {
    let (a, len, ew, total, scalar) = plan;
    let k = if lookup(g.fixed_byte_param_size_offsets@, a.id) is Some { 1int } else { 0int };
    spec_emit_lines("# index access"@) + spec_emit_lines("# cellscript abi: dynamic index element_size="@ + dec_nat(ew as nat))
        + match lookup(g.fixed_byte_param_size_offsets@, a.id) {
        Some(so) => size_check_lines(
            g,
            exact_size_note("dynamic index aggregate"@, total as nat),
            so as int,
            total,
            "__cellscript_require_exact_size"@,
            "schema_size_ok"@,
            f,
        ),
        None => Seq::empty(),
    } + (stack_access_lines("ld"@, "t4"@, a.id * 8) + operand_load_lines("t1"@, idx, g.pool())) + (dynamic_index_tail_lines(
        after_labels(g, k),
        len,
        ew,
        scalar,
        f,
    ) + stack_access_lines("sd"@, "t0"@, dest.id * 8))
}

impl CodeGenerator {
    /// See `dynamic_index_tail_lines`.
    #[verifier::rlimit(60)]
    fn emit_dynamic_index_tail(&mut self, len: usize, element_width: usize, scalar: bool, failure: &RuntimeFailure)
        requires
            can_fail(*old(self)),
            old(self).next_runtime_label < usize::MAX,
        ensures
            final(self).check_appended(
                old(self),
                dynamic_index_tail_lines(*old(self), len as int, element_width as int, scalar, *failure),
                1,
            ),
            final(self).fail_handler_codes@ == codes_after_fail(*old(self), *failure),
    {
        let ghost l0 = self.lines();
        let ghost a = spec_emit_lines(li_body("t2"@, len as int));
        let ghost b = spec_emit_lines("sltu t3, t1, t2"@);
        let ghost c = t3_nonzero_guard_lines(*old(self), "idx_bounds_ok"@, *failure);
        let ok_label = self.fresh_label("idx_bounds_ok");
        let li = mk_li("t2", len as i128);
        self.emit(li.as_str());
        self.emit("sltu t3, t1, t2");
        let mut bnez = String::new();
        string_push_str(&mut bnez, "bnez t3, ");
        string_push_str(&mut bnez, ok_label.as_str());
        self.emit(bnez.as_str());
        self.emit_fail(failure);
        self.emit_label(ok_label.as_str());
        proof {
            assert(spec_emit_lines(bnez@) + fail_lines(*old(self), *failure) + label_lines(ok_label@) == c);
            lemma_join3(l0, a, b, spec_emit_lines(bnez@) + fail_lines(*old(self), *failure) + label_lines(ok_label@));
            assert(self.lines() =~= l0 + (a + b + c));
        }
        let ghost l1 = self.lines();
        let ghost d = spec_emit_lines(li_body("t2"@, element_width as int));
        let ghost e = spec_emit_lines("mul t1, t1, t2"@);
        let li2 = mk_li("t2", element_width as i128);
        self.emit(li2.as_str());
        self.emit("mul t1, t1, t2");
        let ghost l2 = self.lines();
        if scalar {
            let width = if element_width < 8 {
                element_width
            } else {
                8
            };
            self.emit("add t4, t4, t1");
            self.emit_unaligned_scalar_load("t4", "t0", "t2", 0, width);
            proof {
                lemma_join2(l2, spec_emit_lines("add t4, t4, t1"@), unaligned_load_lines("t4"@, "t0"@, "t2"@, 0, width as int));
            }
        } else {
            self.emit("add t0, t4, t1");
        }
        proof {
            let f_ = if scalar {
                spec_emit_lines("add t4, t4, t1"@) + unaligned_load_lines(
                    "t4"@,
                    "t0"@,
                    "t2"@,
                    0,
                    if element_width < 8 { element_width as int } else { 8 },
                )
            } else {
                spec_emit_lines("add t0, t4, t1"@)
            };
            lemma_join3(l0, a + b + c, d + e, f_);
            lemma_join2(l1, d, e);
            assert(a + b + c + (d + e) + f_ =~= a + b + c + d + e + f_);
        }
    }

    /// Reads an element of a static array variable at a runtime index,
    /// failing unless the index is below the length; `false`, emitting
    /// nothing, when `arr` is no such variable: see `dynamic_index_plan` and
    /// `dynamic_index_lines`.
    #[verifier::rlimit(80)]
    pub fn emit_dynamic_index_access(&mut self, dest: &IrVar, arr: &IrOperand, idx: &IrOperand, bounds_failed: &RuntimeFailure) -> (handled: bool)
        requires
            can_fail(*old(self)),
            old(self).next_runtime_label + 2 <= usize::MAX,
            size_words_in_reach(*old(self)),
            arr is Var ==> {
                &&& length_fits(arr->Var_0.ty)
                &&& arr->Var_0.id * 8 <= i64::MAX
                &&& arr->Var_0.id * 8 <= usize::MAX
            },
            idx is Var ==> idx->Var_0.id * 8 <= i64::MAX && idx->Var_0.id * 8 <= usize::MAX,
            dest.id * 8 <= i64::MAX,
            dest.id * 8 <= usize::MAX,
        ensures
            handled == dynamic_index_plan(*arr) is Some,
            !handled ==> *final(self) == *old(self),
            handled ==> final(self).lines() == old(self).lines() + dynamic_index_lines(
                *old(self),
                *dest,
                *idx,
                dynamic_index_plan(*arr)->0,
                *bounds_failed,
            ),
            handled ==> final(self).pool() == operand_pool_after(*idx, old(self).pool()),
            handled ==> final(self).same_but_fail_codes(old(self)),
    {
        let arr_var = match arr {
            IrOperand::Var(v) => v,
            IrOperand::Const(_) => return false,
        };
        let (inner, len) = match &arr_var.ty {
            IrType::Array(inner, len) => (inner, *len),
            _ => return false,
        };
        let element_width = match type_static_length(inner) {
            Some(w) => w,
            None => return false,
        };
        let total_width = match type_static_length(&arr_var.ty) {
            Some(w) => w,
            None => return false,
        };
        proof {
            lemma_static_length_nonneg_pub(**inner);
        }
        let scalar = fixed_scalar_width(inner, Some(element_width)).is_some();
        let ghost g0 = *old(self);
        let ghost l0 = self.lines();
        let mut info = String::new();
        string_push_str(&mut info, "# cellscript abi: dynamic index element_size=");
        push_decimal_u128(&mut info, element_width as u128);
        let ghost p0 = spec_emit_lines("# index access"@);
        let ghost p1 = spec_emit_lines(info@);
        self.emit("# index access");
        self.emit(info.as_str());
        let ghost l2 = self.lines();
        let ghost checks = match lookup(g0.fixed_byte_param_size_offsets@, arr_var.id) {
            Some(so) => size_check_lines(
                g0,
                exact_size_note("dynamic index aggregate"@, total_width as nat),
                so as int,
                total_width as int,
                "__cellscript_require_exact_size"@,
                "schema_size_ok"@,
                *bounds_failed,
            ),
            None => Seq::<Seq<char>>::empty(),
        };
        match self.fixed_byte_param_size_offsets.get(&arr_var.id) {
            Some(so) => {
                let so = *so;
                self.emit_loaded_schema_exact_size_check(so, total_width, "dynamic index aggregate", bounds_failed);
            },
            None => {
                assert(self.lines() =~= l2 + checks);
            },
        }
        let ghost l3 = self.lines();
        let ghost q0 = stack_access_lines("ld"@, "t4"@, arr_var.id * 8);
        let ghost q1 = operand_load_lines("t1"@, *idx, g0.pool());
        self.emit_stack_load("t4", arr_var.id * 8);
        self.emit_operand_to_register("t1", idx);
        proof {
            lemma_join2(l3, q0, q1);
        }
        let ghost l4 = self.lines();
        let ghost k = if lookup(g0.fixed_byte_param_size_offsets@, arr_var.id) is Some { 1int } else { 0int };
        let ghost tail = dynamic_index_tail_lines(after_labels(g0, k), len as int, element_width as int, scalar, *bounds_failed);
        assert(dynamic_index_tail_lines(*self, len as int, element_width as int, scalar, *bounds_failed) == tail);
        self.emit_dynamic_index_tail(len, element_width, scalar, bounds_failed);
        let ghost store = stack_access_lines("sd"@, "t0"@, dest.id * 8);
        self.emit_stack_store("t0", dest.id * 8);
        proof {
            lemma_join2(l4, tail, store);
            lemma_join4(l0, p0, p1, checks, q0 + q1);
            vstd::seq_lib::lemma_concat_associative(l0 + (p0 + p1 + checks + (q0 + q1)), tail, store);
            assert(p0 + p1 + checks + (q0 + q1) + (tail + store) =~= dynamic_index_lines(
                g0,
                *dest,
                *idx,
                dynamic_index_plan(*arr)->0,
                *bounds_failed,
            ));
            vstd::seq_lib::lemma_concat_associative(l0, p0 + p1 + checks + (q0 + q1), tail + store);
        }
        true
    }
}

} // verus!
