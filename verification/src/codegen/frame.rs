//! The stack frame of a function body: where each local, parameter word and
//! loaded cell buffer lives, and how large the frame is. The layout is the
//! one `frame_model` describes.

use vstd::prelude::*;
use std::collections::{BTreeSet, HashMap};

use crate::codegen::frame_model::{
    ascending_insert, ascending_pos, body_scan, consume_pattern, consumed_operand, create_scan, dynamic_field,
    first_create, first_param, fold_items, initial_model, last_binding, lemma_fold_items_all, lemma_fold_items_step,
    mutate_binds, mutate_pattern, name_before, name_before_from, name_insert, name_pos, param_word, params_max, put_cell,
    put_fixed_local, put_named, put_word, read_ref, readonly_param, scan_blocks, scan_inst, scan_step, schema_param,
    type_hash_step, FrameModel, FrameScan, WordSlot, consume_step, consumed_step, create_step, fixed_step,
    fold_blocks, frame_model, inst_total, lemma_fold_blocks_all, lemma_fold_blocks_step, lemma_inst_total_prefix,
    locals_size, mutate_step, named_step, param_word_step, read_ref_step, readonly_step,
    lemma_param_slots_below_frame, lemma_frame_mutate_params, mutate_bindings,
};
use crate::codegen::ir_facts::spec_consumed_operand;
use crate::codegen::pointers::first_output_from;
use crate::codegen::calls::max_after_terminator;
use crate::codegen::generator::{
    CodeGenerator, RUNTIME_CELL_SLOT_SIZE, RUNTIME_COLLECTION_BUFFER_SIZE, RUNTIME_EXPR_TEMP_SIZE, RUNTIME_SCRATCH_SIZE,
};
use crate::codegen::ir_facts::consumed_operand_var;
use crate::codegen::operands::{fixed_byte_locals_after, wide_dest};
use crate::codegen::schema::layout_fixed_byte_width;
use crate::codegen::widths::{
    byte_width_fits, fixed_aggregate_pointer_param_width, fixed_byte_pointer_param_width, length_fits,
    molecule_vector_element_fixed_width, named_type_name, spec_named_type_name,
};
use crate::error::CompileError;
use crate::ir::{CellPattern, CreatePattern, IrBlock, IrBody, IrInstruction, IrOperand, IrParam, MutatePattern, ParamSource};
use crate::names::NameMap;
use crate::text::{chars_eq, str_chars, string_push_str};

verus! {

broadcast use vstd::std_specs::hash::group_hash_axioms;

/// `size` rounded up to the 16-byte stack alignment.
pub open spec fn align_frame_spec(size: int) -> int {
    (size + 15) / 16 * 16
}

/// Rounds a frame size up to the 16-byte stack alignment.
pub fn align_frame(size: usize) -> (r: usize)
    requires
        size + 15 <= usize::MAX,
    ensures
        r as int == align_frame_spec(size as int),
        size <= r,
        r % 16 == 0,
{
    let q = (size + 15) / 16;
    assert(q * 16 <= size + 15 && size <= q * 16 && (q * 16) % 16 == 0) by (nonlinear_arith)
        requires
            q == (size + 15) / 16,
    ;
    q * 16
}

/// Every offset in `m` is word-aligned and lies in `[lo, hi)`.
pub open spec fn slots_within(m: Map<usize, usize>, lo: int, hi: int) -> bool {
    forall|k: usize| #[trigger] m.contains_key(k) ==> m[k] % 8 == 0 && lo <= m[k] && m[k] < hi
}

/// Every offset bound to a name is word-aligned and lies in `[lo, hi)`.
pub open spec fn named_within(s: Seq<(Seq<char>, usize)>, lo: int, hi: int) -> bool {
    forall|i: int| 0 <= i < s.len() ==> (#[trigger] s[i]).1 % 8 == 0 && lo <= s[i].1 && s[i].1 < hi
}

/// Each loaded cell has its size word directly below its buffer.
pub open spec fn cell_pairs(size: Map<usize, usize>, buf: Map<usize, usize>) -> bool {
    &&& size.dom() == buf.dom()
    &&& forall|k: usize| #[trigger] buf.contains_key(k) ==> buf[k] == size[k] + 8
}

/// Every slot of a layout is word-aligned and lies in `[lo, hi)`, and cell
/// buffers sit right above their size words.
pub open spec fn layout_within(m: FrameModel, lo: int, hi: int) -> bool {
    &&& slots_within(m.schema_pointer_size_offsets, lo, hi)
    &&& slots_within(m.cell_buffer_size_offsets, lo, hi)
    &&& slots_within(m.cell_buffer_offsets, lo, hi)
    &&& slots_within(m.fixed_byte_param_size_offsets, lo, hi)
    &&& slots_within(m.param_type_hash_pointer_offsets, lo, hi)
    &&& slots_within(m.param_type_hash_size_offsets, lo, hi)
    &&& slots_within(m.dynamic_value_size_offsets, lo, hi)
    &&& slots_within(m.fixed_byte_local_offsets, lo, hi)
    &&& named_within(m.named_var_offsets, lo, hi)
    &&& cell_pairs(m.cell_buffer_size_offsets, m.cell_buffer_offsets)
}

proof fn lemma_slots_raise(m: Map<usize, usize>, lo: int, a: int, b: int)
    requires
        slots_within(m, lo, a),
        a <= b,
    ensures
        slots_within(m, lo, b),
{
}

proof fn lemma_slots_insert(m: Map<usize, usize>, k: usize, v: usize, lo: int, hi: int)
    requires
        slots_within(m, lo, hi),
        v % 8 == 0,
        lo <= v < hi,
    ensures
        slots_within(m.insert(k, v), lo, hi),
{
    assert forall|j: usize| #[trigger] m.insert(k, v).contains_key(j) implies m.insert(k, v)[j] % 8 == 0 && lo <= m.insert(
        k,
        v,
    )[j] && m.insert(k, v)[j] < hi by {
        if j != k {
            assert(m.contains_key(j));
        }
    }
}

proof fn lemma_layout_raise(m: FrameModel, lo: int, a: int, b: int)
    requires
        layout_within(m, lo, a),
        a <= b,
    ensures
        layout_within(m, lo, b),
{
    lemma_slots_raise(m.schema_pointer_size_offsets, lo, a, b);
    lemma_slots_raise(m.cell_buffer_size_offsets, lo, a, b);
    lemma_slots_raise(m.cell_buffer_offsets, lo, a, b);
    lemma_slots_raise(m.fixed_byte_param_size_offsets, lo, a, b);
    lemma_slots_raise(m.param_type_hash_pointer_offsets, lo, a, b);
    lemma_slots_raise(m.param_type_hash_size_offsets, lo, a, b);
    lemma_slots_raise(m.dynamic_value_size_offsets, lo, a, b);
    lemma_slots_raise(m.fixed_byte_local_offsets, lo, a, b);
}

/// The frame under construction, with the first free offset.
pub struct FrameBuild {
    /// Where the slots after the variable slots start.
    pub base: usize,
    pub next: usize,
    pub over: bool,
    pub schema_pointer_size_offsets: HashMap<usize, usize>,
    pub cell_buffer_size_offsets: HashMap<usize, usize>,
    pub cell_buffer_offsets: HashMap<usize, usize>,
    pub fixed_byte_param_size_offsets: HashMap<usize, usize>,
    pub param_type_hash_pointer_offsets: HashMap<usize, usize>,
    pub param_type_hash_size_offsets: HashMap<usize, usize>,
    pub dynamic_value_size_offsets: HashMap<usize, usize>,
    pub fixed_byte_local_offsets: HashMap<usize, usize>,
    pub named_var_offsets: NameMap<usize>,
    pub output_param_ids: NameMap<usize>,
    pub read_ref_param_ids: NameMap<usize>,
    pub read_ref_param_input_indices: HashMap<usize, usize>,
    pub read_ref_param_dep_indices: HashMap<usize, usize>,
    pub read_ref_param_count: usize,
    pub mutate_param_ids: NameMap<usize>,
    pub consume_binding_ids: NameMap<usize>,
    pub consume_type_names: HashMap<usize, String>,
    pub consume_indices: HashMap<usize, usize>,
    pub consume_order: Vec<usize>,
    pub read_ref_order: Vec<usize>,
    pub read_ref_indices: HashMap<usize, usize>,
    pub create_outputs: HashMap<usize, usize>,
    pub next_create: usize,
    pub output_type_hash_sources: HashMap<usize, usize>,
}

impl FrameBuild {
    /// The layout built so far.
    pub open spec fn model(&self) -> FrameModel {
        FrameModel {
            next: self.next as int,
            over: self.over,
            schema_pointer_size_offsets: self.schema_pointer_size_offsets@,
            cell_buffer_size_offsets: self.cell_buffer_size_offsets@,
            cell_buffer_offsets: self.cell_buffer_offsets@,
            fixed_byte_param_size_offsets: self.fixed_byte_param_size_offsets@,
            param_type_hash_pointer_offsets: self.param_type_hash_pointer_offsets@,
            param_type_hash_size_offsets: self.param_type_hash_size_offsets@,
            dynamic_value_size_offsets: self.dynamic_value_size_offsets@,
            fixed_byte_local_offsets: self.fixed_byte_local_offsets@,
            named_var_offsets: self.named_var_offsets.pairs(),
            output_param_ids: self.output_param_ids.pairs(),
            read_ref_param_ids: self.read_ref_param_ids.pairs(),
            read_ref_param_input_indices: self.read_ref_param_input_indices@,
            read_ref_param_dep_indices: self.read_ref_param_dep_indices@,
            read_ref_param_count: self.read_ref_param_count as int,
            mutate_param_ids: self.mutate_param_ids.pairs(),
            consume_binding_ids: self.consume_binding_ids.pairs(),
            consume_indices: self.consume_indices@,
            consume_order: self.consume_order@,
            read_ref_order: self.read_ref_order@,
            read_ref_indices: self.read_ref_indices@,
            create_outputs: self.create_outputs@,
            next_create: self.next_create as int,
            output_type_hash_sources: self.output_type_hash_sources@,
        }
    }

    /// Slots lie between `base` and the first free offset, which stays
    /// word-aligned and, until the frame overflows, at or above `base`.
    pub open spec fn wf(&self) -> bool {
        &&& self.next % 8 == 0
        &&& !self.over ==> self.base <= self.next
        &&& layout_within(self.model(), self.base as int, self.next as int)
    }

    /// An empty frame whose variable slots take `locals` bytes.
    pub fn new(locals: usize, over: bool) -> (s: Self)
        requires
            locals % 8 == 0,
            over ==> locals == 0,
        ensures
            s.next == locals,
            s.over == over,
            s.base == locals,
            s.model() == (FrameModel { next: locals as int, over, ..initial_model(0) }),
            s.wf(),
    {
        let s = FrameBuild {
            base: locals,
            next: locals,
            over,
            schema_pointer_size_offsets: HashMap::new(),
            cell_buffer_size_offsets: HashMap::new(),
            cell_buffer_offsets: HashMap::new(),
            fixed_byte_param_size_offsets: HashMap::new(),
            param_type_hash_pointer_offsets: HashMap::new(),
            param_type_hash_size_offsets: HashMap::new(),
            dynamic_value_size_offsets: HashMap::new(),
            fixed_byte_local_offsets: HashMap::new(),
            named_var_offsets: NameMap::new(),
            output_param_ids: NameMap::new(),
            read_ref_param_ids: NameMap::new(),
            read_ref_param_input_indices: HashMap::new(),
            read_ref_param_dep_indices: HashMap::new(),
            read_ref_param_count: 0,
            mutate_param_ids: NameMap::new(),
            consume_binding_ids: NameMap::new(),
            consume_type_names: HashMap::new(),
            consume_indices: HashMap::new(),
            consume_order: Vec::new(),
            read_ref_order: Vec::new(),
            read_ref_indices: HashMap::new(),
            create_outputs: HashMap::new(),
            next_create: 0,
            output_type_hash_sources: HashMap::new(),
        };
        assert(s.model() =~= FrameModel { next: locals as int, over, ..initial_model(0) });
        s
    }

    /// See `put_word`.
    pub fn alloc_word(&mut self, slot: WordSlot, id: usize)
        requires
            old(self).wf(),
        ensures
            final(self).model() == put_word(old(self).model(), slot, id),
            final(self).wf(),
            final(self).base == old(self).base,
            old(self).over ==> final(self).over,
            final(self).read_ref_param_count == old(self).read_ref_param_count,
    {
        let ghost m0 = self.model();
        if self.over || self.next > usize::MAX - 8 {
            self.over = true;
            assert(self.model() =~= put_word(m0, slot, id));
            return;
        }
        let o = self.next;
        proof {
            lemma_layout_raise(m0, self.base as int, o as int, o + 8);
        }
        match slot {
            WordSlot::SchemaPointerSize => {
                proof { lemma_slots_insert(m0.schema_pointer_size_offsets, id, o, self.base as int, o + 8); }
                self.schema_pointer_size_offsets.insert(id, o);
            },
            WordSlot::FixedByteParamSize => {
                proof { lemma_slots_insert(m0.fixed_byte_param_size_offsets, id, o, self.base as int, o + 8); }
                self.fixed_byte_param_size_offsets.insert(id, o);
            },
            WordSlot::TypeHashPointer => {
                proof { lemma_slots_insert(m0.param_type_hash_pointer_offsets, id, o, self.base as int, o + 8); }
                self.param_type_hash_pointer_offsets.insert(id, o);
            },
            WordSlot::TypeHashSize => {
                proof { lemma_slots_insert(m0.param_type_hash_size_offsets, id, o, self.base as int, o + 8); }
                self.param_type_hash_size_offsets.insert(id, o);
            },
            WordSlot::DynamicValueSize => {
                proof { lemma_slots_insert(m0.dynamic_value_size_offsets, id, o, self.base as int, o + 8); }
                self.dynamic_value_size_offsets.insert(id, o);
            },
        }
        self.next = o + 8;
        assert(self.model() =~= put_word(m0, slot, id));
    }

    /// See `put_cell`.
    pub fn alloc_cell(&mut self, id: usize, schema_pointer: bool)
        requires
            old(self).wf(),
        ensures
            final(self).model() == put_cell(old(self).model(), id, schema_pointer),
            final(self).wf(),
            final(self).base == old(self).base,
            old(self).over ==> final(self).over,
            final(self).read_ref_param_count == old(self).read_ref_param_count,
    {
        let ghost m0 = self.model();
        if self.over || self.next > usize::MAX - 520 {
            self.over = true;
            assert(self.model() =~= put_cell(m0, id, schema_pointer));
            return;
        }
        let o = self.next;
        let top: usize = o + 520;
        proof {
            lemma_layout_raise(m0, self.base as int, o as int, top as int);
            lemma_slots_insert(m0.cell_buffer_size_offsets, id, o, self.base as int, top as int);
            lemma_slots_insert(m0.cell_buffer_offsets, id, (o + 8) as usize, self.base as int, top as int);
            lemma_slots_insert(m0.schema_pointer_size_offsets, id, o, self.base as int, top as int);
        }
        if schema_pointer {
            self.schema_pointer_size_offsets.insert(id, o);
        }
        self.cell_buffer_size_offsets.insert(id, o);
        self.cell_buffer_offsets.insert(id, o + 8);
        proof {
            assert(self.cell_buffer_size_offsets@.dom() =~= self.cell_buffer_offsets@.dom());
            assert forall|k: usize| #[trigger] self.cell_buffer_offsets@.contains_key(k) implies self.cell_buffer_offsets@[k]
                == self.cell_buffer_size_offsets@[k] + 8 by {
                if k != id {
                    assert(m0.cell_buffer_offsets.contains_key(k));
                }
            }
        }
        self.next = top;
        assert(self.model() =~= put_cell(m0, id, schema_pointer));
    }

    /// See `put_fixed_local`.
    pub fn alloc_fixed_local(&mut self, id: usize, width: usize)
        requires
            old(self).wf(),
            0 < width,
        ensures
            final(self).model() == put_fixed_local(old(self).model(), id, width),
            final(self).wf(),
            final(self).base == old(self).base,
            old(self).over ==> final(self).over,
            final(self).read_ref_param_count == old(self).read_ref_param_count,
    {
        let ghost m0 = self.model();
        if self.over || width > usize::MAX - 7 {
            self.over = true;
            assert(self.model() =~= put_fixed_local(m0, id, width));
            return;
        }
        let rounded = (width + 7) / 8 * 8;
        assert(rounded <= width + 7 && rounded % 8 == 0 && width <= rounded) by (nonlinear_arith)
            requires
                rounded == (width + 7) / 8 * 8,
        ;
        if self.next > usize::MAX - rounded {
            self.over = true;
            assert(self.model() =~= put_fixed_local(m0, id, width));
            return;
        }
        let o = self.next;
        let top: usize = o + rounded;
        proof {
            lemma_layout_raise(m0, self.base as int, o as int, top as int);
            lemma_slots_insert(m0.fixed_byte_local_offsets, id, o, self.base as int, top as int);
        }
        self.fixed_byte_local_offsets.insert(id, o);
        self.next = top;
        assert(self.model() =~= put_fixed_local(m0, id, width));
    }

    /// See `put_named`.
    pub fn alloc_named(&mut self, name: String)
        requires
            old(self).wf(),
        ensures
            final(self).model() == put_named(old(self).model(), name@),
            final(self).wf(),
            final(self).base == old(self).base,
            old(self).over ==> final(self).over,
            final(self).read_ref_param_count == old(self).read_ref_param_count,
    {
        let ghost m0 = self.model();
        if self.over || self.next > usize::MAX - 8 {
            self.over = true;
            assert(self.model() =~= put_named(m0, name@));
            return;
        }
        let o = self.next;
        proof {
            lemma_layout_raise(m0, self.base as int, o as int, o + 8);
        }
        self.named_var_offsets.insert(name, o);
        self.next = o + 8;
        assert(self.model() =~= put_named(m0, name@));
    }
}

fn same_name(a: &str, b: &str) -> (r: bool)
    ensures
        r == (a@ == b@),
{
    let x = str_chars(a);
    let y = str_chars(b);
    chars_eq(x.as_slice(), y.as_slice())
}

/// Whether `a` sorts before `b`, comparing characters in order.
fn name_less(a: &str, b: &str) -> (r: bool)
    ensures
        r == name_before(a@, b@),
{
    let x = str_chars(a);
    let y = str_chars(b);
    let mut i: usize = 0;
    while i < x.len() && i < y.len()
        invariant
            i <= x@.len(),
            x@ == a@,
            y@ == b@,
            name_before_from(a@, b@, 0) == name_before_from(a@, b@, i as int),
        decreases x@.len() - i,
    {
        if x[i] != y[i] {
            return (x[i] as u32) < (y[i] as u32);
        }
        i = i + 1;
    }
    x.len() < y.len()
}

/// The names of a list of strings.
pub open spec fn names_view(v: Seq<String>) -> Seq<Seq<char>> {
    v.map_values(|s: String| s@)
}

/// Inserts `name` into a list kept in name order, once.
fn insert_name_sorted(names: &mut Vec<String>, name: &str)
    ensures
        names_view(final(names)@) == name_insert(names_view(old(names)@), name@),
{
    let ghost v = names_view(names@);
    let mut pos: usize = 0;
    while pos < names.len()
        invariant
            pos <= names@.len(),
            v == names_view(names@),
            names@ == old(names)@,
            name_pos(v, name@, 0) == name_pos(v, name@, pos as int),
        ensures
            pos <= names@.len(),
            v == names_view(names@),
            names@ == old(names)@,
            name_pos(v, name@, 0) == Some(pos as int),
        decreases names@.len() - pos,
    {
        if same_name(names[pos].as_str(), name) {
            return;
        }
        if name_less(name, names[pos].as_str()) {
            break;
        }
        pos = pos + 1;
    }
    let mut s = String::new();
    string_push_str(&mut s, name);
    names.insert(pos, s);
    assert(names_view(names@) =~= v.insert(pos as int, name@));
}

/// Inserts `id` into an ascending list, once.
fn insert_ascending(ids: &mut Vec<usize>, id: usize)
    ensures
        final(ids)@ == ascending_insert(old(ids)@, id),
{
    let mut pos: usize = 0;
    while pos < ids.len()
        invariant
            pos <= ids@.len(),
            ids@ == old(ids)@,
            ascending_pos(ids@, id, 0) == ascending_pos(ids@, id, pos as int),
        ensures
            pos <= ids@.len(),
            ids@ == old(ids)@,
            ascending_pos(ids@, id, 0) == Some(pos as int),
        decreases ids@.len() - pos,
    {
        if ids[pos] == id {
            return;
        }
        if id < ids[pos] {
            break;
        }
        pos = pos + 1;
    }
    ids.insert(pos, id);
}

/// The id of the variable an instruction writes, as `wide_dest` reads it.
fn wide_dest_id(inst: &IrInstruction) -> (r: Option<usize>)
    ensures
        r == (match wide_dest(*inst) {
            Some(d) => Some(d.id),
            None => None,
        }),
{
    match inst {
        IrInstruction::LoadConst { dest, .. }
        | IrInstruction::LoadVar { dest, .. }
        | IrInstruction::Unary { dest, .. }
        | IrInstruction::FieldAccess { dest, .. }
        | IrInstruction::Index { dest, .. }
        | IrInstruction::Length { dest, .. }
        | IrInstruction::TypeHash { dest, .. }
        | IrInstruction::Create { dest, .. }
        | IrInstruction::CreateUnique { dest, .. }
        | IrInstruction::ReplaceUnique { dest, .. }
        | IrInstruction::Transfer { dest, .. }
        | IrInstruction::Claim { dest, .. }
        | IrInstruction::Settle { dest, .. }
        | IrInstruction::ReadRef { dest, .. }
        | IrInstruction::CollectionCapacity { dest, .. }
        | IrInstruction::CollectionContains { dest, .. }
        | IrInstruction::CollectionRemove { dest, .. }
        | IrInstruction::CollectionPop { dest, .. }
        | IrInstruction::CollectionNew { dest, .. }
        | IrInstruction::Move { dest, .. }
        | IrInstruction::Cast { dest, .. }
        | IrInstruction::Tuple { dest, .. }
        | IrInstruction::Binary { dest, .. } => Some(dest.id),
        IrInstruction::Call { dest, .. } => match dest {
            Some(d) => Some(d.id),
            None => None,
        },
        _ => None,
    }
}

/// Whether some parameter bound to variable `id` has a schema type.
fn is_schema_param(params: &[IrParam], id: usize) -> (r: bool)
    ensures
        r == schema_param(params@, id),
{
    let mut i: usize = 0;
    while i < params.len()
        invariant
            i <= params@.len(),
            forall|j: int| 0 <= j < i ==> !(params@[j].binding.id == id && spec_named_type_name(params@[j].ty) is Some),
        decreases params@.len() - i,
    {
        if params[i].binding.id == id && named_type_name(&params[i].ty).is_some() {
            return true;
        }
        i = i + 1;
    }
    false
}

fn contains_id(ids: &Vec<usize>, id: usize) -> (r: bool)
    ensures
        r == ids@.contains(id),
{
    let mut i: usize = 0;
    while i < ids.len()
        invariant
            i <= ids@.len(),
            forall|j: int| 0 <= j < i ==> ids@[j] != id,
        decreases ids@.len() - i,
    {
        if ids[i] == id {
            return true;
        }
        i = i + 1;
    }
    false
}

/// What the first pass over the body collects.
pub struct BodyScan {
    pub max: Option<usize>,
    pub fixed: HashMap<usize, usize>,
    pub fixed_ids: Vec<usize>,
    pub names: Vec<String>,
    pub type_hash_ids: Vec<usize>,
    pub type_hash_sources: HashMap<usize, usize>,
}

impl BodyScan {
    pub open spec fn view(&self) -> FrameScan {
        FrameScan {
            max: self.max,
            fixed: self.fixed@,
            fixed_ids: self.fixed_ids@,
            names: names_view(self.names@),
            type_hash_ids: self.type_hash_ids@,
            type_hash_sources: self.type_hash_sources@,
        }
    }

    /// Every fixed-byte local is 16 or 32 bytes wide.
    pub open spec fn widths_ok(&self) -> bool {
        forall|k: usize| #[trigger] self.fixed@.contains_key(k) ==> self.fixed@[k] == 16 || self.fixed@[k] == 32
    }
}

impl CodeGenerator {
    /// See `scan_inst`.
    fn scan_instruction(&self, params: &[IrParam], s: &mut BodyScan, inst: &IrInstruction)
        requires
            old(s).widths_ok(),
        ensures
            final(s).view() == scan_inst(params@, old(s).view(), *inst),
            final(s).widths_ok(),
    {
        let ghost v0 = s.view();
        self.record_instruction_var(inst, &mut s.max);
        let ghost before = s.fixed@;
        self.record_instruction_fixed_byte_local(inst, &mut s.fixed);
        assert forall|k: usize| #[trigger] s.fixed@.contains_key(k) implies s.fixed@[k] == 16 || s.fixed@[k] == 32 by {
            if before.contains_key(k) {
            }
        }
        if let Some(id) = wide_dest_id(inst) {
            if s.fixed.contains_key(&id) {
                insert_ascending(&mut s.fixed_ids, id);
            }
        }
        if let IrInstruction::StoreVar { name, .. } = inst {
            insert_name_sorted(&mut s.names, name.as_str());
        }
        if let IrInstruction::TypeHash { dest, operand: IrOperand::Var(v) } = inst {
            if is_schema_param(params, v.id) {
                if !contains_id(&s.type_hash_ids, v.id) {
                    s.type_hash_ids.push(v.id);
                }
                s.type_hash_sources.insert(dest.id, v.id);
            }
        }
        assert(s.view() =~= scan_inst(params@, v0, *inst));
    }

    /// The first pass over the body: see `body_scan`.
    fn scan_body(&self, body: &IrBody, params: &[IrParam]) -> (s: BodyScan)
        ensures
            s.view() == body_scan(*body, params@),
            s.widths_ok(),
    {
        let mut s = BodyScan {
            max: None,
            fixed: HashMap::new(),
            fixed_ids: Vec::new(),
            names: Vec::new(),
            type_hash_ids: Vec::new(),
            type_hash_sources: HashMap::new(),
        };
        let mut p: usize = 0;
        while p < params.len()
            invariant
                p <= params@.len(),
                s.max == params_max(None, params@.take(p as int)),
                s.fixed@ == Map::<usize, usize>::empty(),
                s.fixed_ids@ == Seq::<usize>::empty(),
                s.names@ == Seq::<String>::empty(),
                s.type_hash_ids@ == Seq::<usize>::empty(),
                s.type_hash_sources@ == Map::<usize, usize>::empty(),
            decreases params@.len() - p,
        {
            assert(params@.take(p + 1).drop_last() =~= params@.take(p as int));
            self.record_var(&params[p].binding, &mut s.max);
            p = p + 1;
        }
        assert(params@.take(params@.len() as int) =~= params@);
        let ghost s0 = s.view();
        assert(s0 =~= (FrameScan {
            max: params_max(None, params@),
            fixed: Map::empty(),
            fixed_ids: Seq::empty(),
            names: Seq::empty(),
            type_hash_ids: Seq::empty(),
            type_hash_sources: Map::empty(),
        }));
        let blocks = &body.blocks;
        let mut b: usize = 0;
        while b < blocks.len()
            invariant
                b <= blocks@.len(),
                s.view() == scan_blocks(params@, s0, blocks@.take(b as int)),
                s.widths_ok(),
            decreases blocks@.len() - b,
        {
            let block = &blocks[b];
            let ghost start = s.view();
            let mut i: usize = 0;
            while i < block.instructions.len()
                invariant
                    i <= block.instructions@.len(),
                    s.view() == fold_items(start, block.instructions@.take(i as int), scan_step(params@)),
                    s.widths_ok(),
                decreases block.instructions@.len() - i,
            {
                proof {
                    lemma_fold_items_step(start, block.instructions@, i as int, scan_step(params@));
                }
                self.scan_instruction(params, &mut s, &block.instructions[i]);
                i = i + 1;
            }
            proof {
                lemma_fold_items_all(start, block.instructions@, scan_step(params@));
            }
            self.record_terminator_var(&block.terminator, &mut s.max);
            proof {
                assert(blocks@.take(b + 1).drop_last() =~= blocks@.take(b as int));
                assert(blocks@.take(b + 1).last() == blocks@[b as int]);
                assert(s.view() =~= scan_blocks(params@, s0, blocks@.take(b + 1)));
            }
            b = b + 1;
        }
        assert(blocks@.take(blocks@.len() as int) =~= blocks@);
        s
    }
}

/// The message of the error for a frame larger than the address space.
pub open spec fn frame_overflow_message() -> Seq<char> {
    "stack frame size overflow: too many local variables or cell buffers"@
}

fn frame_overflow() -> (e: CompileError)
    ensures
        e.message@ == frame_overflow_message(),
{
    CompileError::from_str_message("stack frame size overflow: too many local variables or cell buffers")
}

/// The text of `name` as a new string.
fn owned(name: &str) -> (s: String)
    ensures
        s@ == name@,
{
    let mut s = String::new();
    string_push_str(&mut s, name);
    s
}

/// The first parameter named `name`.
fn find_param(params: &[IrParam], name: &str) -> (r: Option<usize>)
    ensures
        match r {
            Some(i) => i < params@.len() && first_param(params@, name@, 0) == Some(i as int),
            None => first_param(params@, name@, 0) is None,
        },
{
    let mut i: usize = 0;
    while i < params.len()
        invariant
            i <= params@.len(),
            first_param(params@, name@, 0) == first_param(params@, name@, i as int),
        decreases params@.len() - i,
    {
        if same_name(params[i].name.as_str(), name) {
            return Some(i);
        }
        i = i + 1;
    }
    None
}

/// The last pattern bound to `name`.
fn last_binding_index(patterns: &Vec<CellPattern>, name: &str) -> (r: Option<usize>)
    ensures
        match r {
            Some(i) => last_binding(patterns@, name@) == Some(i as int),
            None => last_binding(patterns@, name@) is None,
        },
{
    let mut i: usize = patterns.len();
    assert(patterns@.take(i as int) =~= patterns@);
    while i > 0
        invariant
            i <= patterns@.len(),
            last_binding(patterns@, name@) == last_binding(patterns@.take(i as int), name@),
        decreases i,
    {
        assert(patterns@.take(i as int).drop_last() =~= patterns@.take(i - 1));
        if same_name(patterns[i - 1].binding.as_str(), name) {
            return Some(i - 1);
        }
        i = i - 1;
    }
    None
}

/// Whether a mutation binds `name`.
fn mutate_binds_name(patterns: &Vec<MutatePattern>, name: &str) -> (r: bool)
    ensures
        r == mutate_binds(patterns@, name@),
{
    let mut i: usize = 0;
    while i < patterns.len()
        invariant
            i <= patterns@.len(),
            forall|j: int| 0 <= j < i ==> patterns@[j].binding@ != name@,
        decreases patterns@.len() - i,
    {
        if same_name(patterns[i].binding.as_str(), name) {
            return true;
        }
        i = i + 1;
    }
    false
}

/// The output index the first `create` pattern takes, or the pattern count.
fn first_create_position(patterns: &Vec<CreatePattern>) -> (r: usize)
    ensures
        r == first_create(patterns@, 0),
        r <= patterns@.len(),
{
    let mut i: usize = 0;
    while i < patterns.len()
        invariant
            i <= patterns@.len(),
            first_create(patterns@, 0) == first_create(patterns@, i as int),
        decreases patterns@.len() - i,
    {
        if same_name(patterns[i].operation.as_str(), "create") {
            return i;
        }
        i = i + 1;
    }
    patterns.len()
}

impl FrameBuild {
    /// See `param_word`.
    fn step_param_word(&mut self, p: &IrParam)
        requires
            old(self).wf(),
            length_fits(p.ty),
            byte_width_fits(p.ty),
        ensures
            final(self).model() == param_word(old(self).model(), *p),
            final(self).wf(),
            final(self).base == old(self).base,
            old(self).over ==> final(self).over,
            final(self).read_ref_param_count == old(self).read_ref_param_count,
    {
        if self.over {
            return;
        }
        let id = p.binding.id;
        match p.source {
            ParamSource::Output => {
                let ghost m0 = self.model();
                self.output_param_ids.insert(owned(p.name.as_str()), id);
                assert(self.model() =~= (FrameModel { output_param_ids: m0.output_param_ids.push((p.name@, id)), ..m0 }));
                self.alloc_cell(id, true);
            },
            _ => {
                if named_type_name(&p.ty).is_some() {
                    self.alloc_word(WordSlot::SchemaPointerSize, id);
                } else if fixed_byte_pointer_param_width(&p.ty).is_some() || fixed_aggregate_pointer_param_width(
                    &p.ty,
                ).is_some() {
                    self.alloc_word(WordSlot::FixedByteParamSize, id);
                }
            },
        }
    }

    /// See `type_hash_step`.
    fn step_type_hash(&mut self, p: &IrParam, ids: &Vec<usize>)
        requires
            old(self).wf(),
        ensures
            final(self).model() == (type_hash_step(ids@))(old(self).model(), *p),
            final(self).wf(),
            final(self).base == old(self).base,
            old(self).over ==> final(self).over,
            final(self).read_ref_param_count == old(self).read_ref_param_count,
    {
        if self.over || !contains_id(ids, p.binding.id) {
            return;
        }
        self.alloc_word(WordSlot::TypeHashPointer, p.binding.id);
        self.alloc_word(WordSlot::TypeHashSize, p.binding.id);
    }

    /// See `readonly_param`.
    fn step_readonly(&mut self, g: &CodeGenerator, body: &IrBody, p: &IrParam)
        requires
            old(self).wf(),
            body.consume_set@.len() + body.mutate_set@.len() + old(self).read_ref_param_count < usize::MAX,
        ensures
            final(self).model() == readonly_param(*g, *body, old(self).model(), *p),
            final(self).wf(),
            final(self).base == old(self).base,
            old(self).over ==> final(self).over,
            final(self).read_ref_param_count <= old(self).read_ref_param_count + 1,
    {
        if self.over {
            return;
        }
        let is_output = match p.source {
            ParamSource::Output => true,
            _ => false,
        };
        let name = p.name.as_str();
        if is_output || !g.param_is_runtime_bound(p) || mutate_binds_name(&body.mutate_set, name)
            || last_binding_index(&body.consume_set, name).is_some() {
            return;
        }
        let id = p.binding.id;
        let ghost m0 = self.model();
        self.read_ref_param_ids.insert(owned(name), id);
        let ghost m1 = FrameModel { read_ref_param_ids: m0.read_ref_param_ids.push((p.name@, id)), ..m0 };
        assert(self.model() =~= m1);
        match last_binding_index(&body.read_refs, name) {
            Some(dep) => {
                self.read_ref_param_dep_indices.insert(id, dep);
                assert(self.model() =~= (FrameModel {
                    read_ref_param_dep_indices: m1.read_ref_param_dep_indices.insert(id, dep),
                    ..m1
                }));
            },
            None => {
                let input_index = body.consume_set.len() + body.mutate_set.len() + self.read_ref_param_count;
                self.read_ref_param_input_indices.insert(id, input_index);
                self.read_ref_param_count = self.read_ref_param_count + 1;
                assert(self.model() =~= (FrameModel {
                    read_ref_param_input_indices: m1.read_ref_param_input_indices.insert(id, input_index),
                    read_ref_param_count: m1.read_ref_param_count + 1,
                    ..m1
                }));
            },
        }
        self.alloc_cell(id, true);
    }

    /// See `mutate_pattern`.
    fn step_mutate(&mut self, params: &[IrParam], pat: &MutatePattern)
        requires
            old(self).wf(),
        ensures
            final(self).model() == mutate_pattern(params@, old(self).model(), *pat),
            final(self).wf(),
            final(self).base == old(self).base,
            old(self).over ==> final(self).over,
    {
        if self.over {
            return;
        }
        let pi = match find_param(params, pat.binding.as_str()) {
            Some(i) => i,
            None => return,
        };
        let id = params[pi].binding.id;
        let ghost m0 = self.model();
        self.mutate_param_ids.insert(owned(pat.binding.as_str()), id);
        self.consume_type_names.insert(id, owned(pat.ty.as_str()));
        self.consume_binding_ids.insert(owned(pat.binding.as_str()), id);
        self.consume_indices.insert(id, pat.input_index);
        assert(self.model() =~= (FrameModel {
            mutate_param_ids: m0.mutate_param_ids.push((pat.binding@, id)),
            consume_binding_ids: m0.consume_binding_ids.push((pat.binding@, id)),
            consume_indices: m0.consume_indices.insert(id, pat.input_index),
            ..m0
        }));
        self.alloc_cell(id, true);
    }

    /// See `consume_pattern`.
    fn step_consume(&mut self, body: &IrBody, params: &[IrParam], pat: &CellPattern)
        requires
            old(self).wf(),
        ensures
            final(self).model() == consume_pattern(*body, params@, old(self).model(), *pat),
            final(self).wf(),
            final(self).base == old(self).base,
            old(self).over ==> final(self).over,
    {
        if self.over {
            return;
        }
        let binding = pat.binding.as_str();
        let pi = match find_param(params, binding) {
            Some(i) => i,
            None => return,
        };
        if self.consume_binding_ids.contains_key(binding) {
            return;
        }
        let id = params[pi].binding.id;
        if let Some(schema) = named_type_name(&params[pi].ty) {
            self.consume_type_names.insert(id, owned(schema));
        }
        let ghost m0 = self.model();
        self.consume_binding_ids.insert(owned(binding), id);
        assert(self.model() =~= (FrameModel { consume_binding_ids: m0.consume_binding_ids.push((pat.binding@, id)), ..m0 }));
        self.alloc_cell(id, true);
        let ghost m1 = self.model();
        self.consume_order.push(id);
        let index = match last_binding_index(&body.consume_set, binding) {
            Some(i) => i,
            None => 0,
        };
        self.consume_indices.insert(id, index);
        assert(self.model() =~= (FrameModel {
            consume_order: m1.consume_order.push(id),
            consume_indices: m1.consume_indices.insert(id, index),
            ..m1
        }));
    }

    /// See `consumed_operand`.
    fn step_consumed(&mut self, body: &IrBody, inst: &IrInstruction)
        requires
            old(self).wf(),
        ensures
            final(self).model() == consumed_operand(*body, old(self).model(), *inst),
            final(self).wf(),
            final(self).base == old(self).base,
            old(self).over ==> final(self).over,
    {
        if self.over {
            return;
        }
        let var = match consumed_operand_var(inst) {
            Some(v) => v,
            None => return,
        };
        let name = var.name.as_str();
        if self.consume_binding_ids.contains_key(name) {
            return;
        }
        if let Some(schema) = named_type_name(&var.ty) {
            self.consume_type_names.insert(var.id, owned(schema));
        }
        let ghost m0 = self.model();
        self.consume_binding_ids.insert(owned(name), var.id);
        assert(self.model() =~= (FrameModel { consume_binding_ids: m0.consume_binding_ids.push((var.name@, var.id)), ..m0 }));
        self.alloc_cell(var.id, true);
        let ghost m1 = self.model();
        self.consume_order.push(var.id);
        let index = match last_binding_index(&body.consume_set, name) {
            Some(i) => i,
            None => self.consume_order.len() - 1,
        };
        self.consume_indices.insert(var.id, index);
        assert(self.model() =~= (FrameModel {
            consume_order: m1.consume_order.push(var.id),
            consume_indices: m1.consume_indices.insert(var.id, index),
            ..m1
        }));
    }

    /// See `read_ref`.
    fn step_read_ref(&mut self, inst: &IrInstruction)
        requires
            old(self).wf(),
        ensures
            final(self).model() == read_ref(old(self).model(), *inst),
            final(self).wf(),
            final(self).base == old(self).base,
            old(self).over ==> final(self).over,
    {
        if self.over {
            return;
        }
        if let IrInstruction::ReadRef { dest, .. } = inst {
            self.alloc_cell(dest.id, false);
            let ghost m1 = self.model();
            let index = self.read_ref_order.len();
            self.read_ref_order.push(dest.id);
            self.read_ref_indices.insert(dest.id, index);
            assert(self.model() =~= (FrameModel {
                read_ref_order: m1.read_ref_order.push(dest.id),
                read_ref_indices: m1.read_ref_indices.insert(dest.id, index),
                ..m1
            }));
        }
    }

    /// Records the output an operation writes into `dest`.
    fn record_output(&mut self, dest: usize, output: Option<usize>)
        ensures
            final(self).model() == (match output {
                Some(o) => FrameModel { create_outputs: old(self).model().create_outputs.insert(dest, o), ..old(self).model() },
                None => old(self).model(),
            }),
            final(self).wf() == old(self).wf(),
            final(self).base == old(self).base,
            final(self).over == old(self).over,
    {
        if let Some(o) = output {
            let ghost m0 = self.model();
            self.create_outputs.insert(dest, o);
            assert(self.model() =~= (FrameModel { create_outputs: m0.create_outputs.insert(dest, o), ..m0 }));
        }
    }
}

impl FrameBuild {
    /// See `create_scan`.
    fn step_create(&mut self, g: &CodeGenerator, body: &IrBody, inst: &IrInstruction)
        requires
            old(self).wf(),
            g.layouts_fit(),
            old(self).next_create < usize::MAX,
        ensures
            final(self).model() == create_scan(*g, *body, old(self).model(), *inst),
            final(self).wf(),
            final(self).base == old(self).base,
            old(self).over ==> final(self).over,
            final(self).next_create <= old(self).next_create + 1,
    {
        if self.over {
            return;
        }
        match inst {
            IrInstruction::FieldAccess { dest, obj, field } => {
                let mut dynamic = false;
                if let IrOperand::Var(obj) = obj {
                    if named_type_name(&dest.ty).is_some() {
                        if let Some(schema) = named_type_name(&obj.ty) {
                            if let Some(layout) = g.field_layout(schema, field.as_str()) {
                                dynamic = layout_fixed_byte_width(layout).is_none()
                                    && molecule_vector_element_fixed_width(
                                    &layout.ty,
                                    &g.type_fixed_sizes,
                                    &g.enum_fixed_sizes,
                                ).is_some();
                            }
                        }
                    }
                }
                assert(dynamic == dynamic_field(*g, *inst));
                if dynamic {
                    self.alloc_word(WordSlot::DynamicValueSize, dest.id);
                }
            },
            IrInstruction::Create { dest, pattern } => {
                if same_name(pattern.operation.as_str(), "create") {
                    let ghost m0 = self.model();
                    let o = self.next_create;
                    self.create_outputs.insert(dest.id, o);
                    self.next_create = o + 1;
                    assert(self.model() =~= (FrameModel {
                        create_outputs: m0.create_outputs.insert(dest.id, o),
                        next_create: m0.next_create + 1,
                        ..m0
                    }));
                } else {
                    let o = CodeGenerator::create_output_index(
                        body,
                        pattern.operation.as_str(),
                        pattern.binding.as_str(),
                        pattern.ty.as_str(),
                    );
                    self.record_output(dest.id, o);
                }
            },
            IrInstruction::CreateUnique { dest, pattern, .. } | IrInstruction::ReplaceUnique { dest, pattern, .. } => {
                let o = CodeGenerator::create_output_index(
                    body,
                    pattern.operation.as_str(),
                    pattern.binding.as_str(),
                    pattern.ty.as_str(),
                );
                self.record_output(dest.id, o);
            },
            IrInstruction::Transfer { dest, .. } => {
                let o = CodeGenerator::create_output_index_for_dest(body, "transfer", dest);
                self.record_output(dest.id, o);
            },
            IrInstruction::Claim { dest, .. } => {
                let o = CodeGenerator::create_output_index_for_dest(body, "claim", dest);
                self.record_output(dest.id, o);
            },
            IrInstruction::Settle { dest, .. } => {
                let o = CodeGenerator::create_output_index_for_dest(body, "settle", dest);
                self.record_output(dest.id, o);
            },
            IrInstruction::TypeHash { dest, operand: IrOperand::Var(v) } => {
                match self.create_outputs.get(&v.id) {
                    Some(o) => {
                        let o = *o;
                        let ghost m0 = self.model();
                        self.output_type_hash_sources.insert(dest.id, o);
                        assert(self.model() =~= (FrameModel {
                            output_type_hash_sources: m0.output_type_hash_sources.insert(dest.id, o),
                            ..m0
                        }));
                        self.alloc_cell(dest.id, false);
                    },
                    None => {
                        if self.consume_indices.contains_key(&v.id) || self.read_ref_indices.contains_key(&v.id)
                            || self.read_ref_param_input_indices.contains_key(&v.id) {
                            self.alloc_cell(dest.id, false);
                        }
                    },
                }
            },
            _ => {},
        }
    }
}

/// How many `CollectionNew` instructions a run of instructions holds.
pub open spec fn collection_news(insts: Seq<IrInstruction>) -> nat
    decreases insts.len(),
{
    if insts.len() == 0 {
        0
    } else {
        collection_news(insts.drop_last()) + if insts.last() is CollectionNew {
            1nat
        } else {
            0nat
        }
    }
}

/// How many `CollectionNew` instructions the blocks hold.
pub open spec fn block_collection_news(blocks: Seq<IrBlock>) -> nat
    decreases blocks.len(),
{
    if blocks.len() == 0 {
        0
    } else {
        block_collection_news(blocks.drop_last()) + collection_news(blocks.last().instructions@)
    }
}

/// Bytes reserved at the top of every frame: expression temporaries, the two
/// scratch slots, and the saved return address and frame pointer.
pub open spec fn frame_reserve() -> int {
    RUNTIME_EXPR_TEMP_SIZE + RUNTIME_SCRATCH_SIZE + 16
}

/// The bytes of one stack collection slot: its length word and buffer.
pub open spec fn collection_slot_size() -> int {
    8 + RUNTIME_COLLECTION_BUFFER_SIZE
}

/// Whether the frame of `body` would not fit `usize`: its slots pass
/// `usize::MAX`, or the collection region and the reserve, rounded to 16
/// bytes, would.
pub open spec fn frame_overflows(g: CodeGenerator, body: IrBody, params: Seq<IrParam>) -> bool {
    let m = frame_model(g, body, params);
    m.over || m.next + block_collection_news(body.blocks@) * collection_slot_size() + frame_reserve() + 15 > usize::MAX
}

/// The frame size of a layout whose collection region starts at `region`.
pub open spec fn frame_size_for(body: IrBody, region: int) -> int {
    align_frame_spec(region + block_collection_news(body.blocks@) * collection_slot_size() + frame_reserve())
}

/// The counts that index into patterns and outputs fit `usize`.
pub open spec fn frame_inputs_fit(body: IrBody, params: Seq<IrParam>) -> bool {
    &&& body.create_set@.len() + inst_total(body.blocks@) < usize::MAX
    &&& body.consume_set@.len() + body.mutate_set@.len() + params.len() < usize::MAX
}

/// The number of `CollectionNew` instructions in the blocks.
fn count_collection_news(blocks: &Vec<IrBlock>) -> (n: usize)
    requires
        inst_total(blocks@) <= usize::MAX,
    ensures
        n == block_collection_news(blocks@),
{
    let mut n: usize = 0;
    let mut b: usize = 0;
    assert(blocks@.take(0) =~= Seq::<IrBlock>::empty());
    while b < blocks.len()
        invariant
            b <= blocks@.len(),
            n == block_collection_news(blocks@.take(b as int)),
            n <= inst_total(blocks@.take(b as int)),
            inst_total(blocks@) <= usize::MAX,
        decreases blocks@.len() - b,
    {
        let insts = &blocks[b].instructions;
        let mut i: usize = 0;
        let mut m: usize = 0;
        assert(insts@.take(0) =~= Seq::<IrInstruction>::empty());
        while i < insts.len()
            invariant
                i <= insts@.len(),
                m == collection_news(insts@.take(i as int)),
                m <= i,
            decreases insts@.len() - i,
        {
            assert(insts@.take(i + 1).drop_last() =~= insts@.take(i as int));
            if let IrInstruction::CollectionNew { .. } = &insts[i] {
                m = m + 1;
            }
            i = i + 1;
        }
        assert(insts@.take(insts@.len() as int) =~= insts@);
        proof {
            lemma_fold_blocks_step(0int, blocks@, b as int, |s: int, x: IrInstruction| s);
            lemma_inst_total_prefix(blocks@, b + 1);
            assert(blocks@.take(b + 1).drop_last() =~= blocks@.take(b as int));
        }
        n = n + m;
        b = b + 1;
    }
    assert(blocks@.take(blocks@.len() as int) =~= blocks@);
    n
}

/// A frame laid out for a body, before it is installed in the generator.
pub struct FrameLayout {
    pub build: FrameBuild,
    pub type_hash_sources: HashMap<usize, usize>,
    pub collection_region_start: usize,
    pub frame_size: usize,
}

impl CodeGenerator {
    /// Lays out the frame of `body`, as `frame_model` describes it; fails
    /// exactly when the frame would not fit `usize`.
    #[verifier::rlimit(100)]
    pub fn compute_frame_layout(&self, body: &IrBody, params: &[IrParam]) -> (r: Result<FrameLayout, CompileError>)
        requires
            self.layouts_fit(),
            forall|i: int| 0 <= i < params@.len() ==> length_fits(#[trigger] params@[i].ty) && byte_width_fits(params@[i].ty),
            frame_inputs_fit(*body, params@),
        ensures
            r is Ok <==> !frame_overflows(*self, *body, params@),
            r matches Ok(l) ==> {
                &&& l.build.model() == frame_model(*self, *body, params@)
                &&& l.type_hash_sources@ == body_scan(*body, params@).type_hash_sources
                &&& l.collection_region_start == frame_model(*self, *body, params@).next
                &&& l.frame_size == frame_size_for(*body, l.collection_region_start as int)
                &&& layout_within(
                    l.build.model(),
                    locals_size(body_scan(*body, params@).max),
                    l.collection_region_start as int,
                )
            },
            r matches Err(e) ==> e.message@ == frame_overflow_message(),
    {
        let g = self;
        let ghost fm = frame_model(*g, *body, params@);
        let scan = self.scan_body(body, params);
        let ghost sv = scan.view();
        let (locals, over) = match scan.max {
            Some(id) => if id >= usize::MAX / 8 {
                assert((id + 1) * 8 > usize::MAX) by (nonlinear_arith)
                    requires
                        id >= usize::MAX / 8,
                ;
                (0usize, true)
            } else {
                assert((id + 1) * 8 <= usize::MAX && ((id + 1) * 8) % 8 == 0) by (nonlinear_arith)
                    requires
                        id < usize::MAX / 8,
                ;
                ((id + 1) * 8, false)
            },
            None => (0usize, false),
        };
        let mut fb = FrameBuild::new(locals, over);
        let ghost m0 = fb.model();
        assert(m0 =~= initial_model(locals_size(sv.max)));

        // Fixed-byte locals in variable order.
        let mut k: usize = 0;
        while k < scan.fixed_ids.len()
            invariant
                k <= scan.fixed_ids@.len(),
                fb.wf(),
                fb.base == locals,
                over ==> fb.over,
                fb.read_ref_param_count == 0,
                scan.widths_ok(),
                fb.model() == fold_items(m0, scan.fixed_ids@.take(k as int), fixed_step(scan.fixed@)),
            decreases scan.fixed_ids@.len() - k,
        {
            proof {
                lemma_fold_items_step(m0, scan.fixed_ids@, k as int, fixed_step(scan.fixed@));
            }
            let id = scan.fixed_ids[k];
            if !fb.over {
                match scan.fixed.get(&id) {
                    Some(w) => fb.alloc_fixed_local(id, *w),
                    None => {},
                }
            }
            k = k + 1;
        }
        proof {
            lemma_fold_items_all(m0, scan.fixed_ids@, fixed_step(scan.fixed@));
        }

        // Named variables in name order.
        let ghost m1 = fb.model();
        let mut k: usize = 0;
        while k < scan.names.len()
            invariant
                k <= scan.names@.len(),
                fb.wf(),
                fb.base == locals,
                over ==> fb.over,
                fb.read_ref_param_count == 0,
                fb.model() == fold_items(m1, names_view(scan.names@).take(k as int), named_step()),
            decreases scan.names@.len() - k,
        {
            proof {
                lemma_fold_items_step(m1, names_view(scan.names@), k as int, named_step());
            }
            if !fb.over {
                fb.alloc_named(owned(scan.names[k].as_str()));
            }
            k = k + 1;
        }
        proof {
            lemma_fold_items_all(m1, names_view(scan.names@), named_step());
        }

        // Parameter words and output cells, then type-hash words.
        let ghost m2 = fb.model();
        let mut p: usize = 0;
        while p < params.len()
            invariant
                p <= params@.len(),
                fb.wf(),
                fb.base == locals,
                over ==> fb.over,
                fb.read_ref_param_count == 0,
                forall|i: int| 0 <= i < params@.len() ==> length_fits(#[trigger] params@[i].ty) && byte_width_fits(params@[i].ty),
                fb.model() == fold_items(m2, params@.take(p as int), param_word_step()),
            decreases params@.len() - p,
        {
            proof {
                lemma_fold_items_step(m2, params@, p as int, param_word_step());
            }
            fb.step_param_word(&params[p]);
            p = p + 1;
        }
        proof {
            lemma_fold_items_all(m2, params@, param_word_step());
        }
        let ghost m3 = fb.model();
        let mut p: usize = 0;
        while p < params.len()
            invariant
                p <= params@.len(),
                fb.wf(),
                fb.base == locals,
                over ==> fb.over,
                fb.read_ref_param_count == 0,
                fb.model() == fold_items(m3, params@.take(p as int), type_hash_step(scan.type_hash_ids@)),
            decreases params@.len() - p,
        {
            proof {
                lemma_fold_items_step(m3, params@, p as int, type_hash_step(scan.type_hash_ids@));
            }
            fb.step_type_hash(&params[p], &scan.type_hash_ids);
            p = p + 1;
        }
        proof {
            lemma_fold_items_all(m3, params@, type_hash_step(scan.type_hash_ids@));
        }

        // Read-only schema parameters bound to cells at entry.
        let ghost m4 = fb.model();
        if g.bind_readonly_schema_params {
            let mut p: usize = 0;
            while p < params.len()
                invariant
                    p <= params@.len(),
                    fb.wf(),
                    fb.base == locals,
                over ==> fb.over,
                    fb.read_ref_param_count <= p,
                    frame_inputs_fit(*body, params@),
                    fb.model() == fold_items(m4, params@.take(p as int), readonly_step(*g, *body)),
                decreases params@.len() - p,
            {
                proof {
                    lemma_fold_items_step(m4, params@, p as int, readonly_step(*g, *body));
                }
                fb.step_readonly(g, body, &params[p]);
                p = p + 1;
            }
            proof {
                lemma_fold_items_all(m4, params@, readonly_step(*g, *body));
            }
        }

        // Mutated parameters, then consumed ones.
        let ghost m5 = fb.model();
        let mut q: usize = 0;
        while q < body.mutate_set.len()
            invariant
                q <= body.mutate_set@.len(),
                fb.wf(),
                fb.base == locals,
                over ==> fb.over,
                fb.model() == fold_items(m5, body.mutate_set@.take(q as int), mutate_step(params@)),
            decreases body.mutate_set@.len() - q,
        {
            proof {
                lemma_fold_items_step(m5, body.mutate_set@, q as int, mutate_step(params@));
            }
            fb.step_mutate(params, &body.mutate_set[q]);
            q = q + 1;
        }
        proof {
            lemma_fold_items_all(m5, body.mutate_set@, mutate_step(params@));
        }
        let ghost m6 = fb.model();
        let mut q: usize = 0;
        while q < body.consume_set.len()
            invariant
                q <= body.consume_set@.len(),
                fb.wf(),
                fb.base == locals,
                over ==> fb.over,
                fb.model() == fold_items(m6, body.consume_set@.take(q as int), consume_step(*body, params@)),
            decreases body.consume_set@.len() - q,
        {
            proof {
                lemma_fold_items_step(m6, body.consume_set@, q as int, consume_step(*body, params@));
            }
            fb.step_consume(body, params, &body.consume_set[q]);
            q = q + 1;
        }
        proof {
            lemma_fold_items_all(m6, body.consume_set@, consume_step(*body, params@));
        }

        // Consumed operands, then cells read by reference.
        let blocks = &body.blocks;
        let ghost m7 = fb.model();
        let mut b: usize = 0;
        while b < blocks.len()
            invariant
                b <= blocks@.len(),
                fb.wf(),
                fb.base == locals,
                over ==> fb.over,
                fb.model() == fold_blocks(m7, blocks@.take(b as int), consumed_step(*body)),
            decreases blocks@.len() - b,
        {
            let insts = &blocks[b].instructions;
            let ghost start = fb.model();
            let mut i: usize = 0;
            while i < insts.len()
                invariant
                    i <= insts@.len(),
                    fb.wf(),
                    fb.base == locals,
                over ==> fb.over,
                    fb.model() == fold_items(start, insts@.take(i as int), consumed_step(*body)),
                decreases insts@.len() - i,
            {
                proof {
                    lemma_fold_items_step(start, insts@, i as int, consumed_step(*body));
                }
                fb.step_consumed(body, &insts[i]);
                i = i + 1;
            }
            proof {
                lemma_fold_items_all(start, insts@, consumed_step(*body));
                lemma_fold_blocks_step(m7, blocks@, b as int, consumed_step(*body));
            }
            b = b + 1;
        }
        proof {
            lemma_fold_blocks_all(m7, blocks@, consumed_step(*body));
        }
        let ghost m8 = fb.model();
        let mut b: usize = 0;
        while b < blocks.len()
            invariant
                b <= blocks@.len(),
                fb.wf(),
                fb.base == locals,
                over ==> fb.over,
                fb.model() == fold_blocks(m8, blocks@.take(b as int), read_ref_step()),
            decreases blocks@.len() - b,
        {
            let insts = &blocks[b].instructions;
            let ghost start = fb.model();
            let mut i: usize = 0;
            while i < insts.len()
                invariant
                    i <= insts@.len(),
                    fb.wf(),
                    fb.base == locals,
                over ==> fb.over,
                    fb.model() == fold_items(start, insts@.take(i as int), read_ref_step()),
                decreases insts@.len() - i,
            {
                proof {
                    lemma_fold_items_step(start, insts@, i as int, read_ref_step());
                }
                fb.step_read_ref(&insts[i]);
                i = i + 1;
            }
            proof {
                lemma_fold_items_all(start, insts@, read_ref_step());
                lemma_fold_blocks_step(m8, blocks@, b as int, read_ref_step());
            }
            b = b + 1;
        }
        proof {
            lemma_fold_blocks_all(m8, blocks@, read_ref_step());
        }

        // Dynamic field lengths, operation outputs and type-hash cells.
        let ghost m9 = fb.model();
        fb.next_create = first_create_position(&body.create_set);
        let ghost m9b = fb.model();
        assert(m9b =~= (FrameModel { next_create: first_create(body.create_set@, 0), ..m9 }));
        let mut b: usize = 0;
        while b < blocks.len()
            invariant
                b <= blocks@.len(),
                fb.wf(),
                fb.base == locals,
                over ==> fb.over,
                g.layouts_fit(),
                frame_inputs_fit(*body, params@),
                blocks@ == body.blocks@,
                fb.next_create <= body.create_set@.len() + inst_total(blocks@.take(b as int)),
                fb.model() == fold_blocks(m9b, blocks@.take(b as int), create_step(*g, *body)),
            decreases blocks@.len() - b,
        {
            let insts = &blocks[b].instructions;
            let ghost start = fb.model();
            proof {
                lemma_fold_blocks_step(m9b, blocks@, b as int, create_step(*g, *body));
                lemma_inst_total_prefix(blocks@, b + 1);
                assert(insts@ == blocks@[b as int].instructions@);
                assert(inst_total(blocks@.take(b + 1)) <= inst_total(body.blocks@));
            }
            let mut i: usize = 0;
            while i < insts.len()
                invariant
                    i <= insts@.len(),
                    fb.wf(),
                    fb.base == locals,
                over ==> fb.over,
                    g.layouts_fit(),
                    fb.next_create <= body.create_set@.len() + inst_total(blocks@.take(b as int)) + i,
                    body.create_set@.len() + inst_total(blocks@.take(b as int)) + insts@.len() < usize::MAX,
                    fb.model() == fold_items(start, insts@.take(i as int), create_step(*g, *body)),
                decreases insts@.len() - i,
            {
                proof {
                    lemma_fold_items_step(start, insts@, i as int, create_step(*g, *body));
                }
                fb.step_create(g, body, &insts[i]);
                i = i + 1;
            }
            proof {
                lemma_fold_items_all(start, insts@, create_step(*g, *body));
            }
            b = b + 1;
        }
        proof {
            lemma_fold_blocks_all(m9b, blocks@, create_step(*g, *body));
            assert(fb.model() == fm);
            lemma_inst_total_prefix(blocks@, blocks@.len() as int);
        }

        // The collection region, then the temporaries, scratch and saved registers.
        let count = count_collection_news(&body.blocks);
        if fb.over {
            return Err(frame_overflow());
        }
        let region = fb.next;
        let slot: usize = 8 + RUNTIME_COLLECTION_BUFFER_SIZE;
        let room = (usize::MAX - region) / slot;
        if count > room {
            assert(count * slot > usize::MAX - region) by (nonlinear_arith)
                requires
                    count > room,
                    room == (usize::MAX - region) as int / slot as int,
                    slot > 0,
            ;
            return Err(frame_overflow());
        }
        assert(count * slot <= usize::MAX - region) by (nonlinear_arith)
            requires
                count <= room,
                room == (usize::MAX - region) as int / slot as int,
                slot > 0,
                region <= usize::MAX,
        ;
        let region_end = region + count * slot;
        let reserve: usize = RUNTIME_EXPR_TEMP_SIZE + RUNTIME_SCRATCH_SIZE + 16;
        if region_end > usize::MAX - reserve - 15 {
            return Err(frame_overflow());
        }
        let frame_size = align_frame(region_end + reserve);
        proof {
            assert(!fb.over);
            assert(locals as int == locals_size(sv.max));
            assert(fb.model() == frame_model(*self, *body, params@));
            assert(scan.type_hash_sources@ == body_scan(*body, params@).type_hash_sources);
            assert(frame_size as int == frame_size_for(*body, region as int));
            assert(layout_within(fb.model(), locals_size(body_scan(*body, params@).max), region as int));
        }
        Ok(FrameLayout { build: fb, type_hash_sources: scan.type_hash_sources, collection_region_start: region, frame_size })
    }
}


/// The generator `n` holds the frame of `body` as `frame_model` lays it out
/// for `o`, with the per-function tables cleared and the rest of `o` kept.
pub open spec fn holds_frame(o: CodeGenerator, n: CodeGenerator, body: IrBody, params: Seq<IrParam>) -> bool {
    let m = frame_model(o, body, params);
    &&& n.schema_pointer_size_offsets@ == m.schema_pointer_size_offsets
    &&& n.cell_buffer_size_offsets@ == m.cell_buffer_size_offsets
    &&& n.cell_buffer_offsets@ == m.cell_buffer_offsets
    &&& n.fixed_byte_param_size_offsets@ == m.fixed_byte_param_size_offsets
    &&& n.param_type_hash_pointer_offsets@ == m.param_type_hash_pointer_offsets
    &&& n.param_type_hash_size_offsets@ == m.param_type_hash_size_offsets
    &&& n.dynamic_value_size_offsets@ == m.dynamic_value_size_offsets
    &&& n.fixed_byte_local_offsets@ == m.fixed_byte_local_offsets
    &&& n.named_var_offsets.pairs() == m.named_var_offsets
    &&& n.output_param_ids.pairs() == m.output_param_ids
    &&& n.read_ref_param_ids.pairs() == m.read_ref_param_ids
    &&& n.read_ref_param_input_indices@ == m.read_ref_param_input_indices
    &&& n.read_ref_param_dep_indices@ == m.read_ref_param_dep_indices
    &&& n.mutate_param_ids.pairs() == m.mutate_param_ids
    &&& n.consume_binding_ids.pairs() == m.consume_binding_ids
    &&& n.consume_indices@ == m.consume_indices
    &&& n.consume_order@ == m.consume_order
    &&& n.read_ref_order@ == m.read_ref_order
    &&& n.read_ref_indices@ == m.read_ref_indices
    &&& n.output_type_hash_sources@ == m.output_type_hash_sources
    &&& n.param_type_hash_sources@ == body_scan(body, params).type_hash_sources
    &&& n.collection_region_start as int == m.next
    &&& n.next_collection_slot == 0
    &&& n.frame_size as int == frame_size_for(body, m.next)
    &&& n.empty_molecule_vector_vars@ == Set::<usize>::empty()
    &&& n.constructed_byte_vectors@ == Map::<usize, Vec<IrOperand>>::empty()
    &&& n.constructed_byte_vector_roots@ == Map::<usize, usize>::empty()
    &&& n.verified_collection_construction_vectors@ == Set::<usize>::empty()
    &&& n.options == o.options
    &&& n.assembly@ == o.assembly@
    &&& n.current_function == o.current_function
    &&& n.next_runtime_label == o.next_runtime_label
    &&& n.bind_readonly_schema_params == o.bind_readonly_schema_params
    &&& n.type_fixed_sizes == o.type_fixed_sizes
    &&& n.enum_fixed_sizes == o.enum_fixed_sizes
    &&& n.type_layouts == o.type_layouts
    &&& n.cell_type_names == o.cell_type_names
    &&& n.const_data_entries@ == o.const_data_entries@
}

impl CodeGenerator {
    /// Lays out the frame of the function with `body` and `params` and
    /// installs it: every slot, index and order that later emission reads.
    /// Fails, leaving the generator as it was, exactly when the frame would
    /// not fit `usize`.
    pub fn prepare_function_layout(&mut self, body: &IrBody, params: &[IrParam]) -> (r: Result<(), CompileError>)
        requires
            old(self).layouts_fit(),
            forall|i: int| 0 <= i < params@.len() ==> length_fits(#[trigger] params@[i].ty) && byte_width_fits(params@[i].ty),
            frame_inputs_fit(*body, params@),
        ensures
            r is Ok <==> !frame_overflows(*old(self), *body, params@),
            r is Ok ==> holds_frame(*old(self), *final(self), *body, params@),
            r is Ok ==> layout_within(
                frame_model(*old(self), *body, params@),
                locals_size(body_scan(*body, params@).max),
                final(self).collection_region_start as int,
            ),
            forall|i: int| 0 <= i < params@.len() ==>
                (#[trigger] params@[i]).binding.id * 8 + 8 <= locals_size(body_scan(*body, params@).max),
            r is Ok ==> final(self).mutate_param_ids.pairs() == mutate_bindings(params@, body.mutate_set@),
            r matches Err(e) ==> e.message@ == frame_overflow_message() && *final(self) == *old(self),
    {
        assert forall|i: int| 0 <= i < params@.len() implies
            (#[trigger] params@[i]).binding.id * 8 + 8 <= locals_size(body_scan(*body, params@).max) by {
            lemma_param_slots_below_frame(*body, params@, i);
        }
        let l = match self.compute_frame_layout(body, params) {
            Ok(l) => l,
            Err(e) => return Err(e),
        };
        proof {
            lemma_frame_mutate_params(*self, *body, params@);
        }
        let fb = l.build;
        self.schema_pointer_size_offsets = fb.schema_pointer_size_offsets;
        self.cell_buffer_size_offsets = fb.cell_buffer_size_offsets;
        self.cell_buffer_offsets = fb.cell_buffer_offsets;
        self.fixed_byte_param_size_offsets = fb.fixed_byte_param_size_offsets;
        self.param_type_hash_pointer_offsets = fb.param_type_hash_pointer_offsets;
        self.param_type_hash_size_offsets = fb.param_type_hash_size_offsets;
        self.dynamic_value_size_offsets = fb.dynamic_value_size_offsets;
        self.fixed_byte_local_offsets = fb.fixed_byte_local_offsets;
        self.named_var_offsets = fb.named_var_offsets;
        self.output_param_ids = fb.output_param_ids;
        self.read_ref_param_ids = fb.read_ref_param_ids;
        self.read_ref_param_input_indices = fb.read_ref_param_input_indices;
        self.read_ref_param_dep_indices = fb.read_ref_param_dep_indices;
        self.mutate_param_ids = fb.mutate_param_ids;
        self.consume_binding_ids = fb.consume_binding_ids;
        self.consume_type_names = fb.consume_type_names;
        self.consume_indices = fb.consume_indices;
        self.consume_order = fb.consume_order;
        self.read_ref_order = fb.read_ref_order;
        self.read_ref_indices = fb.read_ref_indices;
        self.output_type_hash_sources = fb.output_type_hash_sources;
        self.param_type_hash_sources = l.type_hash_sources;
        self.collection_region_start = l.collection_region_start;
        self.next_collection_slot = 0;
        self.frame_size = l.frame_size;
        self.empty_molecule_vector_vars = BTreeSet::new();
        self.constructed_byte_vectors = HashMap::new();
        self.constructed_byte_vector_roots = HashMap::new();
        self.verified_collection_construction_vectors = BTreeSet::new();
        Ok(())
    }
}

} // verus!
