//! What the generator knows of pointer-valued variables: where their lengths
//! live, which cell they come from, and which outputs an action names.

use vstd::prelude::*;
use std::collections::HashMap;
use crate::codegen::generator::{sp_addi_lines, stack_access_lines, AggregatePointerSource, CodeGenerator};
use crate::codegen::lines::{lemma_join2, lemma_join3, lemma_join5, li_body, mk_li, spec_emit_lines};
use crate::error::CompileError;
use crate::codegen::ir_facts::{consumed_operand_var, spec_consumed_operand};
use crate::codegen::widths::{
    byte_width_fits, fixed_aggregate_pointer_param_width, fixed_byte_pointer_param_width, length_fits, named_type_name,
    spec_fixed_byte_width, spec_named_type_name, spec_static_length, static_len_usize,
};
use crate::ir::{type_view, CreatePattern, IrBlock, IrBody, IrInstruction, IrOperand, IrParam, IrType, IrVar, ParamSource, TypeView};
use crate::text::{chars_eq, dec_nat, push_decimal_u128, str_chars, string_push_str};

verus! {

broadcast use {vstd::std_specs::hash::group_hash_axioms, vstd::std_specs::btree::group_btree_axioms};

/// The syscall source selector of transaction inputs.
pub const CKB_SOURCE_INPUT: u64 = 0x01;
/// The syscall source selector of transaction outputs.
pub const CKB_SOURCE_OUTPUT: u64 = 0x02;
/// The syscall source selector of cell dependencies.
pub const CKB_SOURCE_CELL_DEP: u64 = 0x03;

/// The value of `id` in `m`, if any.
pub open spec fn lookup(m: Map<usize, usize>, id: usize) -> Option<usize> {
    if m.contains_key(id) {
        Some(m[id])
    } else {
        None
    }
}

/// Where the length of a variable's bytes is stored: its schema pointer's
/// size word, else its fixed-byte parameter's, else its cell buffer's.
pub open spec fn spec_dynamic_length(g: CodeGenerator, operand: IrOperand) -> Option<usize> {
    match operand {
        IrOperand::Var(v) => if lookup(g.schema_pointer_size_offsets@, v.id) is Some {
            lookup(g.schema_pointer_size_offsets@, v.id)
        } else if lookup(g.fixed_byte_param_size_offsets@, v.id) is Some {
            lookup(g.fixed_byte_param_size_offsets@, v.id)
        } else {
            lookup(g.cell_buffer_size_offsets@, v.id)
        },
        IrOperand::Const(_) => None,
    }
}

/// The cell a variable was loaded from, as a syscall source and an index:
/// a consumed input, an operation's output, a read-only dependency, or a
/// read-only parameter bound to an input or a dependency, in that order.
pub open spec fn spec_cell_location(g: CodeGenerator, operand: IrOperand) -> Option<(u64, usize)> {
    match operand {
        IrOperand::Var(v) => if g.consume_indices@.contains_key(v.id) {
            Some((CKB_SOURCE_INPUT, g.consume_indices@[v.id]))
        } else if g.operation_output_indices@.contains_key(v.id) {
            Some((CKB_SOURCE_OUTPUT, g.operation_output_indices@[v.id]))
        } else if g.read_ref_indices@.contains_key(v.id) {
            Some((CKB_SOURCE_CELL_DEP, g.read_ref_indices@[v.id]))
        } else if g.read_ref_param_input_indices@.contains_key(v.id) {
            Some((CKB_SOURCE_INPUT, g.read_ref_param_input_indices@[v.id]))
        } else if g.read_ref_param_dep_indices@.contains_key(v.id) {
            Some((CKB_SOURCE_CELL_DEP, g.read_ref_param_dep_indices@[v.id]))
        } else {
            None
        },
        IrOperand::Const(_) => None,
    }
}

/// Whether an output pattern is the one an operation names.
pub open spec fn output_matches(p: CreatePattern, operation: Seq<char>, binding: Seq<char>, ty: Seq<char>) -> bool {
    p.operation@ == operation && p.binding@ == binding && p.ty@ == ty
}

/// The first output pattern from `i` on that an operation names.
pub open spec fn first_output_from(ps: Seq<CreatePattern>, operation: Seq<char>, binding: Seq<char>, ty: Seq<char>, i: int) -> Option<usize>
    decreases ps.len() - i,
{
    if i < 0 || i >= ps.len() {
        None
    } else if output_matches(ps[i], operation, binding, ty) {
        Some(i as usize)
    } else {
        first_output_from(ps, operation, binding, ty, i + 1)
    }
}

/// Whether a parameter is bound to cell data at run time: lock arguments,
/// references, and values of cell schemas.
pub open spec fn runtime_bound(g: CodeGenerator, p: IrParam) -> bool {
    ||| p.source == ParamSource::LockArgs
    ||| p.is_ref
    ||| (spec_named_type_name(p.ty) matches Some(n) && g.cell_type_names.lookup(n) is Some)
}

/// A parameter passed as a pointer to a byte block or an aggregate wider than a register.
pub open spec fn pointer_param_type(ty: IrType) -> bool {
    ||| (match spec_fixed_byte_width(ty, static_len_usize(ty)) {
        Some(w) => w > 8,
        None => false,
    })
    ||| (match ty {
        IrType::Array(_, _) | IrType::Tuple(_) => match spec_static_length(ty) {
            Some(w) => w > 8,
            None => false,
        },
        _ => false,
    })
}

/// The binding ids of the first `k` parameters.
pub open spec fn param_ids(ps: Seq<IrParam>, k: int) -> Set<usize>
    decreases k,
{
    if k <= 0 {
        Set::empty()
    } else {
        param_ids(ps, k - 1).insert(ps[k - 1].binding.id)
    }
}

/// The binding ids of the schema-typed parameters among the first `k`.
pub open spec fn schema_param_ids(ps: Seq<IrParam>, k: int) -> Set<usize>
    decreases k,
{
    if k <= 0 {
        Set::empty()
    } else if spec_named_type_name(ps[k - 1].ty) is Some {
        schema_param_ids(ps, k - 1).insert(ps[k - 1].binding.id)
    } else {
        schema_param_ids(ps, k - 1)
    }
}

/// The pointer parameters among the first `k` that are not schemas, with the
/// type each points at (a later parameter with the same id wins).
pub open spec fn aggregate_param_types(ps: Seq<IrParam>, k: int) -> Map<usize, TypeView>
    decreases k,
{
    if k <= 0 {
        Map::empty()
    } else if spec_named_type_name(ps[k - 1].ty) is None && pointer_param_type(ps[k - 1].ty) {
        aggregate_param_types(ps, k - 1).insert(ps[k - 1].binding.id, type_view(ps[k - 1].ty))
    } else {
        aggregate_param_types(ps, k - 1)
    }
}

/// The variable an instruction makes a schema pointer: the destination of a
/// read-only reference, or the consumed operand.
pub open spec fn pointer_pick(i: IrInstruction, consumed: bool) -> Option<usize> {
    if consumed {
        match spec_consumed_operand(i) {
            Some(v) => Some(v.id),
            None => None,
        }
    } else {
        match i {
            IrInstruction::ReadRef { dest, .. } => Some(dest.id),
            _ => None,
        }
    }
}

/// The variables the first `k` instructions make schema pointers.
pub open spec fn picked_in(instrs: Seq<IrInstruction>, consumed: bool, k: int) -> Set<usize>
    decreases k,
{
    if k <= 0 {
        Set::empty()
    } else {
        match pointer_pick(instrs[k - 1], consumed) {
            Some(id) => picked_in(instrs, consumed, k - 1).insert(id),
            None => picked_in(instrs, consumed, k - 1),
        }
    }
}

/// The variables the first `k` blocks make schema pointers.
pub open spec fn picked_blocks(blocks: Seq<IrBlock>, consumed: bool, k: int) -> Set<usize>
    decreases k,
{
    if k <= 0 {
        Set::empty()
    } else {
        picked_blocks(blocks, consumed, k - 1) + picked_in(blocks[k - 1].instructions@, consumed, blocks[k - 1].instructions@.len() as int)
    }
}

/// The schema pointers a body makes, read-only references or consumed operands.
pub open spec fn body_pointer_ids(body: IrBody, consumed: bool) -> Set<usize> {
    picked_blocks(body.blocks@, consumed, body.blocks@.len() as int)
}

/// Whether the output pattern writes a field of this name.
pub open spec fn field_written(p: CreatePattern, name: Seq<char>) -> bool {
    exists|j: int| 0 <= j < p.fields@.len() && (#[trigger] p.fields@[j]).0@ == name
}

/// Whether every field the schema lays out is written by the output pattern.
pub open spec fn fields_cover_type(g: CodeGenerator, p: CreatePattern) -> bool {
    match g.type_layouts.lookup(p.ty@) {
        Some(layouts) => forall|k: int| 0 <= k < layouts.pairs().len() ==> field_written(p, (#[trigger] layouts.pairs()[k]).0),
        None => false,
    }
}

fn same_text(a: &str, b: &str) -> (r: bool)
    ensures
        r == (a@ == b@),
{
    let x = str_chars(a);
    let y = str_chars(b);
    chars_eq(x.as_slice(), y.as_slice())
}

fn map_get(m: &HashMap<usize, usize>, id: usize) -> (r: Option<usize>)
    ensures
        r == lookup(m@, id),
{
    match m.get(&id) {
        Some(v) => Some(*v),
        None => None,
    }
}

impl CodeGenerator {
    /// The stack offset of the length of a variable's bytes, if one is tracked.
    pub fn dynamic_length_from_size_offset(&self, operand: &IrOperand) -> (r: Option<usize>)
        ensures
            r == spec_dynamic_length(*self, *operand),
    {
        let id = match operand {
            IrOperand::Var(var) => var.id,
            IrOperand::Const(_) => return None,
        };
        if let Some(size_offset) = map_get(&self.schema_pointer_size_offsets, id) {
            return Some(size_offset);
        }
        if let Some(size_offset) = map_get(&self.fixed_byte_param_size_offsets, id) {
            return Some(size_offset);
        }
        map_get(&self.cell_buffer_size_offsets, id)
    }

    /// The cell a variable was loaded from, if any.
    pub fn operand_cell_location(&self, operand: &IrOperand) -> (r: Option<(u64, usize)>)
        ensures
            r == spec_cell_location(*self, *operand),
    {
        let id = match operand {
            IrOperand::Var(var) => var.id,
            IrOperand::Const(_) => return None,
        };
        if let Some(input_index) = map_get(&self.consume_indices, id) {
            Some((CKB_SOURCE_INPUT, input_index))
        } else if let Some(output_index) = map_get(&self.operation_output_indices, id) {
            Some((CKB_SOURCE_OUTPUT, output_index))
        } else if let Some(dep_index) = map_get(&self.read_ref_indices, id) {
            Some((CKB_SOURCE_CELL_DEP, dep_index))
        } else if let Some(input_index) = map_get(&self.read_ref_param_input_indices, id) {
            Some((CKB_SOURCE_INPUT, input_index))
        } else {
            match map_get(&self.read_ref_param_dep_indices, id) {
                Some(dep_index) => Some((CKB_SOURCE_CELL_DEP, dep_index)),
                None => None,
            }
        }
    }

    /// The index of the first output pattern that `operation` on `binding`
    /// of type `ty` names.
    pub fn create_output_index(body: &IrBody, operation: &str, binding: &str, ty: &str) -> (r: Option<usize>)
        ensures
            r == first_output_from(body.create_set@, operation@, binding@, ty@, 0),
    {
        let mut i: usize = 0;
        while i < body.create_set.len()
            invariant
                i <= body.create_set@.len(),
                first_output_from(body.create_set@, operation@, binding@, ty@, 0) == first_output_from(
                    body.create_set@,
                    operation@,
                    binding@,
                    ty@,
                    i as int,
                ),
            decreases body.create_set@.len() - i,
        {
            let p = &body.create_set[i];
            if same_text(p.operation.as_str(), operation) && same_text(p.binding.as_str(), binding) && same_text(
                p.ty.as_str(),
                ty,
            ) {
                return Some(i);
            }
            i = i + 1;
        }
        None
    }

    /// The output that `operation` produces into `dest`: the pattern named
    /// by the destination's name and schema type.
    pub fn create_output_index_for_dest(body: &IrBody, operation: &str, dest: &IrVar) -> (r: Option<usize>)
        ensures
            r == (match spec_named_type_name(dest.ty) {
                Some(t) => first_output_from(body.create_set@, operation@, dest.name@, t, 0),
                None => None,
            }),
    {
        let ty = match named_type_name(&dest.ty) {
            Some(t) => t,
            None => return None,
        };
        Self::create_output_index(body, operation, dest.name.as_str(), ty)
    }

    /// Whether a parameter is bound to cell data at run time.
    pub fn param_is_runtime_bound(&self, param: &IrParam) -> (r: bool)
        ensures
            r == runtime_bound(*self, *param),
    {
        let lock_args = match param.source {
            ParamSource::LockArgs => true,
            _ => false,
        };
        if lock_args || param.is_ref {
            return true;
        }
        match named_type_name(&param.ty) {
            Some(name) => self.cell_type_names.contains_key(name),
            None => false,
        }
    }
}

impl CodeGenerator {
    /// Records the parameters: every binding is a parameter variable, schema
    /// values are schema pointers, and fixed-width blocks and aggregates
    /// wider than a register remember the type they point at.
    pub fn set_schema_pointer_params(&mut self, params: &[IrParam])
        requires
            forall|i: int| 0 <= i < params@.len() ==> length_fits(#[trigger] params@[i].ty) && byte_width_fits(params@[i].ty),
        ensures
            final(self).schema_pointer_vars@ == schema_param_ids(params@, params@.len() as int),
            final(self).param_vars@ == param_ids(params@, params@.len() as int),
            final(self).aggregate_pointer_sources@.dom() == aggregate_param_types(params@, params@.len() as int).dom(),
            forall|id: usize| #[trigger] final(self).aggregate_pointer_sources@.contains_key(id) ==> type_view(
                final(self).aggregate_pointer_sources@[id].ty,
            ) == aggregate_param_types(params@, params@.len() as int)[id],
            final(self).same_except_pointers(old(self)),
            final(self).schema_pointer_size_offsets == old(self).schema_pointer_size_offsets,
            final(self).lines() == old(self).lines(),
            final(self).next_runtime_label == old(self).next_runtime_label,
            final(self).const_data_entries == old(self).const_data_entries,
    {
        self.schema_pointer_vars.clear();
        self.param_vars.clear();
        self.aggregate_pointer_sources.clear();
        let mut k: usize = 0;
        while k < params.len()
            invariant
                k <= params@.len(),
                forall|i: int| 0 <= i < params@.len() ==> length_fits(#[trigger] params@[i].ty) && byte_width_fits(params@[i].ty),
                self.schema_pointer_vars@ == schema_param_ids(params@, k as int),
                self.param_vars@ == param_ids(params@, k as int),
                self.aggregate_pointer_sources@.dom() == aggregate_param_types(params@, k as int).dom(),
                forall|id: usize| #[trigger] self.aggregate_pointer_sources@.contains_key(id) ==> type_view(
                    self.aggregate_pointer_sources@[id].ty,
                ) == aggregate_param_types(params@, k as int)[id],
                self.same_except_pointers(old(self)),
                self.schema_pointer_size_offsets == old(self).schema_pointer_size_offsets,
                self.lines() == old(self).lines(),
                self.next_runtime_label == old(self).next_runtime_label,
                self.const_data_entries == old(self).const_data_entries,
            decreases params@.len() - k,
        {
            let param = &params[k];
            let id = param.binding.id;
            assert(length_fits(params@[k as int].ty) && byte_width_fits(params@[k as int].ty));
            self.param_vars.insert(id);
            if named_type_name(&param.ty).is_some() {
                self.schema_pointer_vars.insert(id);
            } else if fixed_byte_pointer_param_width(&param.ty).is_some() || fixed_aggregate_pointer_param_width(&param.ty).is_some() {
                let ty = param.ty.clone();
                self.aggregate_pointer_sources.insert(id, AggregatePointerSource { ty });
            }
            proof {
                assert(self.param_vars@ =~= param_ids(params@, k + 1));
                assert(self.schema_pointer_vars@ =~= schema_param_ids(params@, k + 1));
                assert(self.aggregate_pointer_sources@.dom() =~= aggregate_param_types(params@, k + 1).dom());
            }
            k = k + 1;
        }
    }

    /// Marks the schema pointers a body makes, and gives each the size word
    /// of its cell buffer when there is one.
    fn mark_schema_pointers(&mut self, body: &IrBody, consumed: bool)
        ensures
            final(self).schema_pointer_vars@ == old(self).schema_pointer_vars@ + body_pointer_ids(*body, consumed),
            final(self).schema_pointer_size_offsets@ == old(self).schema_pointer_size_offsets@.union_prefer_right(
                old(self).cell_buffer_size_offsets@.restrict(body_pointer_ids(*body, consumed)),
            ),
            final(self).same_except_pointers(old(self)),
            final(self).param_vars == old(self).param_vars,
            final(self).aggregate_pointer_sources == old(self).aggregate_pointer_sources,
            final(self).lines() == old(self).lines(),
            final(self).next_runtime_label == old(self).next_runtime_label,
            final(self).const_data_entries == old(self).const_data_entries,
    {
        let ghost vars0 = self.schema_pointer_vars@;
        let ghost sizes0 = self.schema_pointer_size_offsets@;
        let ghost cb = self.cell_buffer_size_offsets@;
        let mut b: usize = 0;
        while b < body.blocks.len()
            invariant
                b <= body.blocks@.len(),
                self.schema_pointer_vars@ == vars0 + picked_blocks(body.blocks@, consumed, b as int),
                self.schema_pointer_size_offsets@ == sizes0.union_prefer_right(cb.restrict(picked_blocks(body.blocks@, consumed, b as int))),
                cb == self.cell_buffer_size_offsets@,
                self.same_except_pointers(old(self)),
                self.param_vars == old(self).param_vars,
                self.aggregate_pointer_sources == old(self).aggregate_pointer_sources,
                self.lines() == old(self).lines(),
                self.next_runtime_label == old(self).next_runtime_label,
                self.const_data_entries == old(self).const_data_entries,
                vars0 == old(self).schema_pointer_vars@,
                sizes0 == old(self).schema_pointer_size_offsets@,
            decreases body.blocks@.len() - b,
        {
            let instrs = &body.blocks[b].instructions;
            let ghost before = picked_blocks(body.blocks@, consumed, b as int);
            let mut i: usize = 0;
            while i < instrs.len()
                invariant
                    i <= instrs@.len(),
                    instrs@ == body.blocks@[b as int].instructions@,
                    self.schema_pointer_vars@ == vars0 + before + picked_in(instrs@, consumed, i as int),
                    self.schema_pointer_size_offsets@ == sizes0.union_prefer_right(
                        cb.restrict(before + picked_in(instrs@, consumed, i as int)),
                    ),
                    cb == self.cell_buffer_size_offsets@,
                    self.same_except_pointers(old(self)),
                    self.param_vars == old(self).param_vars,
                    self.aggregate_pointer_sources == old(self).aggregate_pointer_sources,
                    self.lines() == old(self).lines(),
                    self.next_runtime_label == old(self).next_runtime_label,
                    self.const_data_entries == old(self).const_data_entries,
                decreases instrs@.len() - i,
            {
                let picked = if consumed {
                    match consumed_operand_var(&instrs[i]) {
                        Some(v) => Some(v.id),
                        None => None,
                    }
                } else {
                    match &instrs[i] {
                        IrInstruction::ReadRef { dest, .. } => Some(dest.id),
                        _ => None,
                    }
                };
                let ghost s_old = before + picked_in(instrs@, consumed, i as int);
                assert(picked == pointer_pick(instrs@[i as int], consumed));
                if let Some(id) = picked {
                    self.schema_pointer_vars.insert(id);
                    let size = match self.cell_buffer_size_offsets.get(&id) {
                        Some(s) => Some(*s),
                        None => None,
                    };
                    if let Some(s) = size {
                        self.schema_pointer_size_offsets.insert(id, s);
                    }
                    proof {
                        assert(before + picked_in(instrs@, consumed, i + 1) =~= s_old.insert(id));
                        assert(self.schema_pointer_vars@ =~= vars0 + (before + picked_in(instrs@, consumed, i + 1)));
                        assert(self.schema_pointer_size_offsets@ =~= sizes0.union_prefer_right(
                            cb.restrict(before + picked_in(instrs@, consumed, i + 1)),
                        ));
                    }
                } else {
                    assert(picked_in(instrs@, consumed, i + 1) == picked_in(instrs@, consumed, i as int));
                }
                i = i + 1;
            }
            proof {
                assert(picked_blocks(body.blocks@, consumed, b + 1) == before + picked_in(instrs@, consumed, instrs@.len() as int));
            }
            b = b + 1;
        }
    }

    /// Marks the destinations of read-only references as schema pointers,
    /// each with the size word of its cell buffer when there is one.
    pub fn set_read_ref_schema_pointers(&mut self, body: &IrBody)
        ensures
            final(self).schema_pointer_vars@ == old(self).schema_pointer_vars@ + body_pointer_ids(*body, false),
            final(self).schema_pointer_size_offsets@ == old(self).schema_pointer_size_offsets@.union_prefer_right(
                old(self).cell_buffer_size_offsets@.restrict(body_pointer_ids(*body, false)),
            ),
            final(self).same_except_pointers(old(self)),
            final(self).param_vars == old(self).param_vars,
            final(self).aggregate_pointer_sources == old(self).aggregate_pointer_sources,
            final(self).lines() == old(self).lines(),
            final(self).next_runtime_label == old(self).next_runtime_label,
            final(self).const_data_entries == old(self).const_data_entries,
    {
        self.mark_schema_pointers(body, false);
    }

    /// Marks consumed operands as schema pointers, each with the size word of
    /// its cell buffer when there is one.
    pub fn set_consumed_schema_pointers(&mut self, body: &IrBody)
        ensures
            final(self).schema_pointer_vars@ == old(self).schema_pointer_vars@ + body_pointer_ids(*body, true),
            final(self).schema_pointer_size_offsets@ == old(self).schema_pointer_size_offsets@.union_prefer_right(
                old(self).cell_buffer_size_offsets@.restrict(body_pointer_ids(*body, true)),
            ),
            final(self).same_except_pointers(old(self)),
            final(self).param_vars == old(self).param_vars,
            final(self).aggregate_pointer_sources == old(self).aggregate_pointer_sources,
            final(self).lines() == old(self).lines(),
            final(self).next_runtime_label == old(self).next_runtime_label,
            final(self).const_data_entries == old(self).const_data_entries,
    {
        self.mark_schema_pointers(body, true);
    }
}

impl CodeGenerator {
    /// Whether an output pattern writes every field of its schema.
    pub fn create_output_fields_cover_type(&self, pattern: &CreatePattern) -> (r: bool)
        ensures
            r == fields_cover_type(*self, *pattern),
    {
        let i = match self.type_layouts.position(pattern.ty.as_str()) {
            Some(i) => i,
            None => return false,
        };
        let layouts = &self.type_layouts.entries[i].1;
        let ghost lp = layouts.pairs();
        let mut k: usize = 0;
        while k < layouts.entries.len()
            invariant
                k <= layouts.entries@.len(),
                lp == layouts.pairs(),
                lp.len() == layouts.entries@.len(),
                self.type_layouts.lookup(pattern.ty@) == Some(*layouts),
                forall|q: int| 0 <= q < k ==> field_written(*pattern, (#[trigger] lp[q]).0),
            decreases layouts.entries@.len() - k,
        {
            let name = layouts.entries[k].0.as_str();
            let mut j: usize = 0;
            let mut found = false;
            while j < pattern.fields.len() && !found
                invariant
                    j <= pattern.fields@.len(),
                    found ==> field_written(*pattern, name@),
                    !found ==> forall|w: int| 0 <= w < j ==> (#[trigger] pattern.fields@[w]).0@ != name@,
                decreases pattern.fields@.len() - j + (if found { 0int } else { 1int }),
            {
                if same_text(pattern.fields[j].0.as_str(), name) {
                    found = true;
                } else {
                    j = j + 1;
                }
            }
            assert(lp[k as int].0 == name@);
            if !found {
                assert(!field_written(*pattern, lp[k as int].0));
                assert(self.type_layouts.lookup(pattern.ty@)->0.pairs()[k as int] == lp[k as int]);
                return false;
            }
            k = k + 1;
        }
        true
    }

    /// Uses the prelude's verification of an operation's output: `dest`
    /// holds the output's index (its recorded one, else the next virtual
    /// one); `false`, with nothing emitted, when the output is not verified.
    pub fn emit_verified_operation_output_handle(&mut self, dest: &IrVar, operation: &str) -> (r: bool)
        requires
            dest.id * 8 <= i64::MAX,
            dest.id * 8 <= usize::MAX,
            old(self).next_virtual_output < usize::MAX,
            forall|id: usize| #[trigger] old(self).operation_output_indices@.contains_key(id) ==> old(self).operation_output_indices@[id] < i64::MAX
                && old(self).operation_output_indices@[id] < usize::MAX,
        ensures
            r == old(self).verified_operation_outputs@.contains(dest.id),
            !r ==> final(self).text_appended(old(self), Seq::empty()) && final(self).next_virtual_output == old(self).next_virtual_output,
            r ==> {
                let index = match lookup(old(self).operation_output_indices@, dest.id) {
                    Some(i) => i as int,
                    None => old(self).next_virtual_output as int,
                };
                &&& final(self).lines() == old(self).lines() + spec_emit_lines(
                    "# cellscript abi: "@ + operation@ + " output relation verified by prelude Output#"@ + dec_nat(index as nat),
                ) + spec_emit_lines(li_body("t0"@, index)) + stack_access_lines("sd"@, "t0"@, dest.id * 8)
                &&& final(self).next_virtual_output == if old(self).next_virtual_output >= index + 1 {
                    old(self).next_virtual_output as int
                } else {
                    index + 1
                }
            },
            final(self).same_except_pointers(old(self)),
            final(self).schema_pointer_size_offsets == old(self).schema_pointer_size_offsets,
            final(self).schema_pointer_vars == old(self).schema_pointer_vars,
            final(self).param_vars == old(self).param_vars,
            final(self).aggregate_pointer_sources == old(self).aggregate_pointer_sources,
            final(self).next_runtime_label == old(self).next_runtime_label,
            final(self).const_data_entries == old(self).const_data_entries,
    {
        if !self.verified_operation_outputs.contains(&dest.id) {
            assert(self.lines() =~= old(self).lines() + Seq::<Seq<char>>::empty());
            return false;
        }
        let index = match self.operation_output_indices.get(&dest.id) {
            Some(i) => *i,
            None => self.next_virtual_output,
        };
        let ghost l0 = self.lines();
        let mut comment = String::new();
        string_push_str(&mut comment, "# cellscript abi: ");
        string_push_str(&mut comment, operation);
        string_push_str(&mut comment, " output relation verified by prelude Output#");
        push_decimal_u128(&mut comment, index as u128);
        self.emit(comment.as_str());
        self.emit(mk_li("t0", index as i128).as_str());
        self.emit_stack_store("t0", dest.id * 8);
        proof {
            lemma_join3(
                l0,
                spec_emit_lines("# cellscript abi: "@ + operation@ + " output relation verified by prelude Output#"@ + dec_nat(index as nat)),
                spec_emit_lines(li_body("t0"@, index as int)),
                stack_access_lines("sd"@, "t0"@, dest.id * 8),
            );
        }
        if self.next_virtual_output < index + 1 {
            self.next_virtual_output = index + 1;
        }
        true
    }

    /// Stores `max_bytes` as the length word at `size_offset(sp)` and sets up
    /// the load-data arguments: `a0` the buffer, `a1` the length word, `a2` zero.
    pub fn emit_store_data_args_at(&mut self, max_bytes: usize, size_offset: usize, buffer_offset: usize)
        requires
            size_offset <= i64::MAX,
            buffer_offset <= i64::MAX,
            max_bytes <= i64::MAX,
        ensures
            final(self).text_appended(
                old(self),
                spec_emit_lines(li_body("t0"@, max_bytes as int)) + stack_access_lines("sd"@, "t0"@, size_offset as int) + sp_addi_lines(
                    "a0"@,
                    buffer_offset as int,
                ) + sp_addi_lines("a1"@, size_offset as int) + spec_emit_lines("li a2, 0"@),
            ),
    {
        let ghost l0 = self.lines();
        self.emit(mk_li("t0", max_bytes as i128).as_str());
        self.emit_stack_store("t0", size_offset);
        self.emit_sp_addi("a0", buffer_offset);
        self.emit_sp_addi("a1", size_offset);
        self.emit("li a2, 0");
        proof {
            lemma_join5(
                l0,
                spec_emit_lines(li_body("t0"@, max_bytes as int)),
                stack_access_lines("sd"@, "t0"@, size_offset as int),
                sp_addi_lines("a0"@, buffer_offset as int),
                sp_addi_lines("a1"@, size_offset as int),
                spec_emit_lines("li a2, 0"@),
            );
        }
    }

    /// A tuple aggregate value: a comment and a zeroed slot for `dest`.
    pub fn emit_tuple(&mut self, dest: &IrVar, fields: &[IrOperand]) -> (r: Result<(), CompileError>)
        requires
            dest.id * 8 <= i64::MAX,
            dest.id * 8 <= usize::MAX,
        ensures
            r is Ok,
            final(self).text_appended(
                old(self),
                spec_emit_lines(
                    "# cellscript abi: construct tuple aggregate var"@ + dec_nat(dest.id as nat) + " fields="@ + dec_nat(
                        fields@.len(),
                    ),
                ) + stack_access_lines("sd"@, "zero"@, dest.id * 8),
            ),
    {
        let ghost l0 = self.lines();
        let mut comment = String::new();
        string_push_str(&mut comment, "# cellscript abi: construct tuple aggregate var");
        push_decimal_u128(&mut comment, dest.id as u128);
        string_push_str(&mut comment, " fields=");
        push_decimal_u128(&mut comment, fields.len() as u128);
        self.emit(comment.as_str());
        self.emit_stack_store("zero", dest.id * 8);
        proof {
            lemma_join2(
                l0,
                spec_emit_lines(
                    "# cellscript abi: construct tuple aggregate var"@ + dec_nat(dest.id as nat) + " fields="@ + dec_nat(fields@.len()),
                ),
                stack_access_lines("sd"@, "zero"@, dest.id * 8),
            );
        }
        Ok(())
    }
}

} // verus!
