//! What the frame layout of a body is, step by step: the passes over the
//! parameters, patterns and instructions, each handing out slots from the
//! next free offset. Once the frame would pass `usize::MAX` it is marked as
//! overflowing and nothing more is handed out.

use vstd::prelude::*;

use crate::codegen::calls::{instruction_ids, max_after_terminator, max_over, max_with};
use crate::codegen::generator::{CodeGenerator, RUNTIME_CELL_SLOT_SIZE, RUNTIME_COLLECTION_BUFFER_SIZE};
use crate::codegen::ir_facts::spec_consumed_operand;
use crate::codegen::mutate::layout_byte_width;
use crate::codegen::operands::{fixed_byte_locals_after, wide_dest};
use crate::codegen::pointers::{first_output_from, pointer_param_type, runtime_bound};
use crate::codegen::widths::{spec_named_type_name, spec_vector_element_width};
use crate::ir::{CellPattern, CreatePattern, IrBlock, IrBody, IrInstruction, IrOperand, IrParam, MutatePattern, ParamSource};
use crate::names::find_last;

verus! {

/// The layout as it is handed out.
#[verifier::ext_equal]
pub ghost struct FrameModel {
    /// The first free offset.
    pub next: int,
    /// Whether the frame has passed `usize::MAX`.
    pub over: bool,
    pub schema_pointer_size_offsets: Map<usize, usize>,
    pub cell_buffer_size_offsets: Map<usize, usize>,
    pub cell_buffer_offsets: Map<usize, usize>,
    pub fixed_byte_param_size_offsets: Map<usize, usize>,
    pub param_type_hash_pointer_offsets: Map<usize, usize>,
    pub param_type_hash_size_offsets: Map<usize, usize>,
    pub dynamic_value_size_offsets: Map<usize, usize>,
    pub fixed_byte_local_offsets: Map<usize, usize>,
    pub named_var_offsets: Seq<(Seq<char>, usize)>,
    pub output_param_ids: Seq<(Seq<char>, usize)>,
    pub read_ref_param_ids: Seq<(Seq<char>, usize)>,
    pub read_ref_param_input_indices: Map<usize, usize>,
    pub read_ref_param_dep_indices: Map<usize, usize>,
    pub read_ref_param_count: int,
    pub mutate_param_ids: Seq<(Seq<char>, usize)>,
    pub consume_binding_ids: Seq<(Seq<char>, usize)>,
    pub consume_indices: Map<usize, usize>,
    pub consume_order: Seq<usize>,
    pub read_ref_order: Seq<usize>,
    pub read_ref_indices: Map<usize, usize>,
    pub create_outputs: Map<usize, usize>,
    pub next_create: int,
    pub output_type_hash_sources: Map<usize, usize>,
}

/// Which single-word slot map a word goes to.
#[derive(Clone, Copy, PartialEq, Eq)]
pub enum WordSlot {
    SchemaPointerSize,
    FixedByteParamSize,
    TypeHashPointer,
    TypeHashSize,
    DynamicValueSize,
}

/// Whether `size` more bytes fit before `usize::MAX`.
pub open spec fn has_room(m: FrameModel, size: int) -> bool {
    !m.over && m.next + size <= usize::MAX
}

/// The model marked as overflowing.
pub open spec fn overflowed(m: FrameModel) -> FrameModel {
    FrameModel { over: true, ..m }
}

/// One word for `id` in the chosen map.
pub open spec fn put_word(m: FrameModel, slot: WordSlot, id: usize) -> FrameModel {
    if !has_room(m, 8) {
        overflowed(m)
    } else {
        let o = m.next as usize;
        let m1 = FrameModel { next: m.next + 8, ..m };
        match slot {
            WordSlot::SchemaPointerSize => FrameModel {
                schema_pointer_size_offsets: m.schema_pointer_size_offsets.insert(id, o),
                ..m1
            },
            WordSlot::FixedByteParamSize => FrameModel {
                fixed_byte_param_size_offsets: m.fixed_byte_param_size_offsets.insert(id, o),
                ..m1
            },
            WordSlot::TypeHashPointer => FrameModel {
                param_type_hash_pointer_offsets: m.param_type_hash_pointer_offsets.insert(id, o),
                ..m1
            },
            WordSlot::TypeHashSize => FrameModel {
                param_type_hash_size_offsets: m.param_type_hash_size_offsets.insert(id, o),
                ..m1
            },
            WordSlot::DynamicValueSize => FrameModel {
                dynamic_value_size_offsets: m.dynamic_value_size_offsets.insert(id, o),
                ..m1
            },
        }
    }
}

/// A cell slot for `id`: its size word, then the buffer; the size word is
/// also the schema pointer's when asked.
pub open spec fn put_cell(m: FrameModel, id: usize, schema_pointer: bool) -> FrameModel {
    if !has_room(m, RUNTIME_CELL_SLOT_SIZE as int) {
        overflowed(m)
    } else {
        let o = m.next as usize;
        FrameModel {
            next: m.next + RUNTIME_CELL_SLOT_SIZE,
            schema_pointer_size_offsets: if schema_pointer {
                m.schema_pointer_size_offsets.insert(id, o)
            } else {
                m.schema_pointer_size_offsets
            },
            cell_buffer_size_offsets: m.cell_buffer_size_offsets.insert(id, o),
            cell_buffer_offsets: m.cell_buffer_offsets.insert(id, (o + 8) as usize),
            ..m
        }
    }
}

/// `width` rounded up to whole words.
pub open spec fn round_words(width: int) -> int {
    (width + 7) / 8 * 8
}

/// A fixed-byte local of `width` bytes, rounded up to whole words.
pub open spec fn put_fixed_local(m: FrameModel, id: usize, width: usize) -> FrameModel {
    if !has_room(m, round_words(width as int)) {
        overflowed(m)
    } else {
        FrameModel {
            next: m.next + round_words(width as int),
            fixed_byte_local_offsets: m.fixed_byte_local_offsets.insert(id, m.next as usize),
            ..m
        }
    }
}

/// One word for a named variable.
pub open spec fn put_named(m: FrameModel, name: Seq<char>) -> FrameModel {
    if !has_room(m, 8) {
        overflowed(m)
    } else {
        FrameModel { next: m.next + 8, named_var_offsets: m.named_var_offsets.push((name, m.next as usize)), ..m }
    }
}

// ---------------------------------------------------------------------------
// Folds
// ---------------------------------------------------------------------------

/// `step` applied to each item in turn.
pub open spec fn fold_items<S, T>(s: S, items: Seq<T>, step: spec_fn(S, T) -> S) -> S
    decreases items.len(),
{
    if items.len() == 0 {
        s
    } else {
        step(fold_items(s, items.drop_last(), step), items.last())
    }
}

/// `step` applied to each instruction of each block in turn.
pub open spec fn fold_blocks<S>(s: S, blocks: Seq<IrBlock>, step: spec_fn(S, IrInstruction) -> S) -> S
    decreases blocks.len(),
{
    if blocks.len() == 0 {
        s
    } else {
        fold_items(fold_blocks(s, blocks.drop_last(), step), blocks.last().instructions@, step)
    }
}

/// The instructions of all blocks, counted.
pub open spec fn inst_total(blocks: Seq<IrBlock>) -> nat
    decreases blocks.len(),
{
    if blocks.len() == 0 {
        0
    } else {
        inst_total(blocks.drop_last()) + blocks.last().instructions@.len()
    }
}

pub proof fn lemma_fold_items_step<S, T>(s: S, items: Seq<T>, i: int, step: spec_fn(S, T) -> S)
    requires
        0 <= i < items.len(),
    ensures
        fold_items(s, items.take(i + 1), step) == step(fold_items(s, items.take(i), step), items[i]),
{
    assert(items.take(i + 1).drop_last() =~= items.take(i));
}

pub proof fn lemma_fold_items_all<S, T>(s: S, items: Seq<T>, step: spec_fn(S, T) -> S)
    ensures
        fold_items(s, items.take(items.len() as int), step) == fold_items(s, items, step),
{
    assert(items.take(items.len() as int) =~= items);
}

pub proof fn lemma_fold_blocks_step<S>(s: S, blocks: Seq<IrBlock>, b: int, step: spec_fn(S, IrInstruction) -> S)
    requires
        0 <= b < blocks.len(),
    ensures
        fold_blocks(s, blocks.take(b + 1), step) == fold_items(
            fold_blocks(s, blocks.take(b), step),
            blocks[b].instructions@,
            step,
        ),
        inst_total(blocks.take(b + 1)) == inst_total(blocks.take(b)) + blocks[b].instructions@.len(),
{
    assert(blocks.take(b + 1).drop_last() =~= blocks.take(b));
}

pub proof fn lemma_fold_blocks_all<S>(s: S, blocks: Seq<IrBlock>, step: spec_fn(S, IrInstruction) -> S)
    ensures
        fold_blocks(s, blocks.take(blocks.len() as int), step) == fold_blocks(s, blocks, step),
        inst_total(blocks.take(blocks.len() as int)) == inst_total(blocks),
{
    assert(blocks.take(blocks.len() as int) =~= blocks);
}

/// A prefix of the blocks holds no more instructions than all of them.
pub proof fn lemma_inst_total_prefix(blocks: Seq<IrBlock>, b: int)
    requires
        0 <= b <= blocks.len(),
    ensures
        inst_total(blocks.take(b)) <= inst_total(blocks),
    decreases blocks.len() - b,
{
    if b < blocks.len() {
        lemma_fold_blocks_step(0int, blocks, b, |s: int, x: IrInstruction| s);
        lemma_inst_total_prefix(blocks, b + 1);
    } else {
        assert(blocks.take(b) =~= blocks);
    }
}

// ---------------------------------------------------------------------------
// The scan of the body: variable ids, fixed-byte locals, named variables and
// type hashes of schema parameters.
// ---------------------------------------------------------------------------

/// What the first pass over the body collects.
#[verifier::ext_equal]
pub ghost struct FrameScan {
    pub max: Option<usize>,
    pub fixed: Map<usize, usize>,
    pub fixed_ids: Seq<usize>,
    pub names: Seq<Seq<char>>,
    pub type_hash_ids: Seq<usize>,
    pub type_hash_sources: Map<usize, usize>,
}

/// Where `id` goes in an ascending list, or `None` when it is there.
pub open spec fn ascending_pos(s: Seq<usize>, id: usize, i: int) -> Option<int>
    decreases s.len() - i,
{
    if i < 0 || i >= s.len() {
        Some(s.len() as int)
    } else if s[i] == id {
        None
    } else if id < s[i] {
        Some(i)
    } else {
        ascending_pos(s, id, i + 1)
    }
}

/// `id` added to an ascending list, once.
pub open spec fn ascending_insert(s: Seq<usize>, id: usize) -> Seq<usize> {
    match ascending_pos(s, id, 0) {
        Some(p) => s.insert(p, id),
        None => s,
    }
}

/// Whether `a` sorts before `b`, comparing characters from `i` on.
pub open spec fn name_before_from(a: Seq<char>, b: Seq<char>, i: int) -> bool
    decreases a.len() - i,
{
    if i < 0 || i >= a.len() || i >= b.len() {
        a.len() < b.len()
    } else if a[i] != b[i] {
        (a[i] as u32) < (b[i] as u32)
    } else {
        name_before_from(a, b, i + 1)
    }
}

/// Whether `a` sorts before `b` in character order.
pub open spec fn name_before(a: Seq<char>, b: Seq<char>) -> bool {
    name_before_from(a, b, 0)
}

/// Where `n` goes in a name-ordered list, or `None` when it is there.
pub open spec fn name_pos(s: Seq<Seq<char>>, n: Seq<char>, i: int) -> Option<int>
    decreases s.len() - i,
{
    if i < 0 || i >= s.len() {
        Some(s.len() as int)
    } else if s[i] == n {
        None
    } else if name_before(n, s[i]) {
        Some(i)
    } else {
        name_pos(s, n, i + 1)
    }
}

/// `n` added to a name-ordered list, once.
pub open spec fn name_insert(s: Seq<Seq<char>>, n: Seq<char>) -> Seq<Seq<char>> {
    match name_pos(s, n, 0) {
        Some(p) => s.insert(p, n),
        None => s,
    }
}

/// Whether some parameter bound to variable `id` has a schema type.
pub open spec fn schema_param(params: Seq<IrParam>, id: usize) -> bool {
    exists|i: int| 0 <= i < params.len() && #[trigger] params[i].binding.id == id && spec_named_type_name(params[i].ty) is Some
}

/// The scan after one instruction.
pub open spec fn scan_inst(params: Seq<IrParam>, s: FrameScan, inst: IrInstruction) -> FrameScan {
    let fixed = fixed_byte_locals_after(s.fixed, inst);
    let fixed_ids = match wide_dest(inst) {
        Some(d) => if fixed.contains_key(d.id) {
            ascending_insert(s.fixed_ids, d.id)
        } else {
            s.fixed_ids
        },
        None => s.fixed_ids,
    };
    let names = match inst {
        IrInstruction::StoreVar { name, .. } => name_insert(s.names, name@),
        _ => s.names,
    };
    let (type_hash_ids, type_hash_sources) = match inst {
        IrInstruction::TypeHash { dest, operand: IrOperand::Var(v) } => if schema_param(params, v.id) {
            (
                if s.type_hash_ids.contains(v.id) {
                    s.type_hash_ids
                } else {
                    s.type_hash_ids.push(v.id)
                },
                s.type_hash_sources.insert(dest.id, v.id),
            )
        } else {
            (s.type_hash_ids, s.type_hash_sources)
        },
        _ => (s.type_hash_ids, s.type_hash_sources),
    };
    FrameScan { max: max_over(s.max, instruction_ids(inst)), fixed, fixed_ids, names, type_hash_ids, type_hash_sources }
}

pub open spec fn scan_step(params: Seq<IrParam>) -> spec_fn(FrameScan, IrInstruction) -> FrameScan {
    |s: FrameScan, inst: IrInstruction| scan_inst(params, s, inst)
}

/// The scan of the blocks, each block's terminator after its instructions.
pub open spec fn scan_blocks(params: Seq<IrParam>, s: FrameScan, blocks: Seq<IrBlock>) -> FrameScan
    decreases blocks.len(),
{
    if blocks.len() == 0 {
        s
    } else {
        let s1 = fold_items(scan_blocks(params, s, blocks.drop_last()), blocks.last().instructions@, scan_step(params));
        FrameScan { max: max_after_terminator(s1.max, blocks.last().terminator), ..s1 }
    }
}

/// The highest variable id among the parameters.
pub open spec fn params_max(m: Option<usize>, params: Seq<IrParam>) -> Option<usize>
    decreases params.len(),
{
    if params.len() == 0 {
        m
    } else {
        max_with(params_max(m, params.drop_last()), params.last().binding.id)
    }
}

/// The scan of the whole body.
pub open spec fn body_scan(body: IrBody, params: Seq<IrParam>) -> FrameScan {
    scan_blocks(
        params,
        FrameScan {
            max: params_max(None, params),
            fixed: Map::empty(),
            fixed_ids: Seq::empty(),
            names: Seq::empty(),
            type_hash_ids: Seq::empty(),
            type_hash_sources: Map::empty(),
        },
        body.blocks@,
    )
}

/// The highest id seen so far is at least `id`.
pub open spec fn covers(m: Option<usize>, id: usize) -> bool {
    m matches Some(c) && id <= c
}

proof fn lemma_max_over_covers(m: Option<usize>, ids: Seq<usize>, id: usize)
    ensures
        covers(m, id) ==> covers(max_over(m, ids), id),
        ids.contains(id) ==> covers(max_over(m, ids), id),
    decreases ids.len(),
{
    if ids.len() > 0 {
        lemma_max_over_covers(m, ids.drop_last(), id);
        if ids.contains(id) && ids.last() != id {
            let k = choose|k: int| 0 <= k < ids.len() && ids[k] == id;
            assert(ids.drop_last()[k] == id);
        }
    }
}

proof fn lemma_scan_items_covers(params: Seq<IrParam>, s: FrameScan, insts: Seq<IrInstruction>, k: int, id: usize)
    requires
        covers(s.max, id) || (0 <= k < insts.len() && instruction_ids(insts[k]).contains(id)),
    ensures
        covers(fold_items(s, insts, scan_step(params)).max, id),
    decreases insts.len(),
{
    if insts.len() > 0 {
        let prev = fold_items(s, insts.drop_last(), scan_step(params));
        if k == insts.len() - 1 && instruction_ids(insts[k]).contains(id) && !covers(s.max, id) {
            lemma_max_over_covers(prev.max, instruction_ids(insts.last()), id);
        } else {
            if !covers(s.max, id) {
                assert(insts.drop_last()[k] == insts[k]);
            }
            lemma_scan_items_covers(params, s, insts.drop_last(), k, id);
            lemma_max_over_covers(prev.max, instruction_ids(insts.last()), id);
        }
    }
}

proof fn lemma_terminator_keeps_cover(m: Option<usize>, t: crate::ir::IrTerminator, id: usize)
    requires
        covers(m, id),
    ensures
        covers(max_after_terminator(m, t), id),
{
}

proof fn lemma_scan_blocks_covers(params: Seq<IrParam>, s: FrameScan, blocks: Seq<IrBlock>, b: int, k: int, id: usize)
    requires
        covers(s.max, id) || (0 <= b < blocks.len() && 0 <= k < blocks[b].instructions@.len()
            && instruction_ids(blocks[b].instructions@[k]).contains(id)),
    ensures
        covers(scan_blocks(params, s, blocks).max, id),
    decreases blocks.len(),
{
    if blocks.len() > 0 {
        let prev = scan_blocks(params, s, blocks.drop_last());
        let insts = blocks.last().instructions@;
        if b == blocks.len() - 1 && !covers(s.max, id) {
            lemma_scan_items_covers(params, prev, insts, k, id);
        } else {
            if !covers(s.max, id) {
                assert(blocks.drop_last()[b] == blocks[b]);
            }
            lemma_scan_blocks_covers(params, s, blocks.drop_last(), b, k, id);
            lemma_scan_items_covers(params, prev, insts, -1, id);
        }
        lemma_terminator_keeps_cover(fold_items(prev, insts, scan_step(params)).max, blocks.last().terminator, id);
    }
}

proof fn lemma_params_max_covers(m: Option<usize>, params: Seq<IrParam>, i: int)
    requires
        0 <= i < params.len(),
    ensures
        covers(params_max(m, params), params[i].binding.id),
    decreases params.len(),
{
    if i < params.len() - 1 {
        lemma_params_max_covers(m, params.drop_last(), i);
        assert(params.drop_last()[i] == params[i]);
    }
}

/// The variable slots hold every parameter: the slots that the frame lays
/// out after them, all at or above `locals_size`, start past the slot of
/// each parameter's variable.
pub proof fn lemma_param_slots_below_frame(body: IrBody, params: Seq<IrParam>, i: int)
    requires
        0 <= i < params.len(),
    ensures
        (params[i].binding.id + 1) * 8 <= locals_size(body_scan(body, params).max),
{
    lemma_params_max_covers(None, params, i);
    let s0 = FrameScan {
        max: params_max(None, params),
        fixed: Map::empty(),
        fixed_ids: Seq::empty(),
        names: Seq::empty(),
        type_hash_ids: Seq::empty(),
        type_hash_sources: Map::empty(),
    };
    lemma_scan_blocks_covers(params, s0, body.blocks@, -1, -1, params[i].binding.id);
}

/// The variable slots hold every variable that an instruction of the body
/// defines or reads: the frame's other slots start past each of them.
pub proof fn lemma_instruction_slots_below_frame(body: IrBody, params: Seq<IrParam>, b: int, k: int, id: usize)
    requires
        0 <= b < body.blocks@.len(),
        0 <= k < body.blocks@[b].instructions@.len(),
        instruction_ids(body.blocks@[b].instructions@[k]).contains(id),
    ensures
        (id + 1) * 8 <= locals_size(body_scan(body, params).max),
{
    let s0 = FrameScan {
        max: params_max(None, params),
        fixed: Map::empty(),
        fixed_ids: Seq::empty(),
        names: Seq::empty(),
        type_hash_ids: Seq::empty(),
        type_hash_sources: Map::empty(),
    };
    lemma_scan_blocks_covers(params, s0, body.blocks@, b, k, id);
}

/// The bytes of the variable slots: eight per id up to the highest.
pub open spec fn locals_size(max: Option<usize>) -> int {
    match max {
        Some(id) => (id + 1) * 8,
        None => 0,
    }
}

/// An empty layout starting after the variable slots.
pub open spec fn initial_model(locals: int) -> FrameModel {
    FrameModel {
        next: if locals <= usize::MAX { locals } else { 0 },
        over: locals > usize::MAX,
        schema_pointer_size_offsets: Map::empty(),
        cell_buffer_size_offsets: Map::empty(),
        cell_buffer_offsets: Map::empty(),
        fixed_byte_param_size_offsets: Map::empty(),
        param_type_hash_pointer_offsets: Map::empty(),
        param_type_hash_size_offsets: Map::empty(),
        dynamic_value_size_offsets: Map::empty(),
        fixed_byte_local_offsets: Map::empty(),
        named_var_offsets: Seq::empty(),
        output_param_ids: Seq::empty(),
        read_ref_param_ids: Seq::empty(),
        read_ref_param_input_indices: Map::empty(),
        read_ref_param_dep_indices: Map::empty(),
        read_ref_param_count: 0,
        mutate_param_ids: Seq::empty(),
        consume_binding_ids: Seq::empty(),
        consume_indices: Map::empty(),
        consume_order: Seq::empty(),
        read_ref_order: Seq::empty(),
        read_ref_indices: Map::empty(),
        create_outputs: Map::empty(),
        next_create: 0,
        output_type_hash_sources: Map::empty(),
    }
}

// ---------------------------------------------------------------------------
// The passes that hand out slots.
// ---------------------------------------------------------------------------

pub open spec fn fixed_step(fixed: Map<usize, usize>) -> spec_fn(FrameModel, usize) -> FrameModel {
    |m: FrameModel, id: usize| if m.over || !fixed.contains_key(id) {
        m
    } else {
        put_fixed_local(m, id, fixed[id])
    }
}

pub open spec fn named_step() -> spec_fn(FrameModel, Seq<char>) -> FrameModel {
    |m: FrameModel, n: Seq<char>| if m.over {
        m
    } else {
        put_named(m, n)
    }
}

/// A parameter's words: an output parameter's cell, a schema parameter's
/// size word, or a pointer parameter's length word.
pub open spec fn param_word(m: FrameModel, p: IrParam) -> FrameModel {
    if m.over {
        m
    } else if p.source == ParamSource::Output {
        put_cell(FrameModel { output_param_ids: m.output_param_ids.push((p.name@, p.binding.id)), ..m }, p.binding.id, true)
    } else if spec_named_type_name(p.ty) is Some {
        put_word(m, WordSlot::SchemaPointerSize, p.binding.id)
    } else if pointer_param_type(p.ty) {
        put_word(m, WordSlot::FixedByteParamSize, p.binding.id)
    } else {
        m
    }
}

pub open spec fn param_word_step() -> spec_fn(FrameModel, IrParam) -> FrameModel {
    |m: FrameModel, p: IrParam| param_word(m, p)
}

/// The type-hash pointer and length words of a parameter whose type hash is taken.
pub open spec fn type_hash_step(ids: Seq<usize>) -> spec_fn(FrameModel, IrParam) -> FrameModel {
    |m: FrameModel, p: IrParam| if m.over || !ids.contains(p.binding.id) {
        m
    } else {
        put_word(put_word(m, WordSlot::TypeHashPointer, p.binding.id), WordSlot::TypeHashSize, p.binding.id)
    }
}

/// The last pattern bound to `name`.
pub open spec fn last_binding(patterns: Seq<CellPattern>, name: Seq<char>) -> Option<int>
    decreases patterns.len(),
{
    if patterns.len() == 0 {
        None
    } else if patterns.last().binding@ == name {
        Some(patterns.len() - 1)
    } else {
        last_binding(patterns.drop_last(), name)
    }
}

/// Whether a mutation binds `name`.
pub open spec fn mutate_binds(patterns: Seq<MutatePattern>, name: Seq<char>) -> bool {
    exists|i: int| 0 <= i < patterns.len() && #[trigger] patterns[i].binding@ == name
}

/// A read-only parameter bound to a cell at entry: a dependency it is read
/// from, or the next input after the consumed and mutated ones.
pub open spec fn readonly_param(g: CodeGenerator, body: IrBody, m: FrameModel, p: IrParam) -> FrameModel {
    if m.over || p.source == ParamSource::Output || !runtime_bound(g, p) || mutate_binds(body.mutate_set@, p.name@)
        || last_binding(body.consume_set@, p.name@) is Some {
        m
    } else {
        let id = p.binding.id;
        let m1 = FrameModel { read_ref_param_ids: m.read_ref_param_ids.push((p.name@, id)), ..m };
        let m2 = match last_binding(body.read_refs@, p.name@) {
            Some(dep) => FrameModel { read_ref_param_dep_indices: m1.read_ref_param_dep_indices.insert(id, dep as usize), ..m1 },
            None => FrameModel {
                read_ref_param_input_indices: m1.read_ref_param_input_indices.insert(
                    id,
                    (body.consume_set@.len() + body.mutate_set@.len() + m1.read_ref_param_count) as usize,
                ),
                read_ref_param_count: m1.read_ref_param_count + 1,
                ..m1
            },
        };
        put_cell(m2, id, true)
    }
}

pub open spec fn readonly_step(g: CodeGenerator, body: IrBody) -> spec_fn(FrameModel, IrParam) -> FrameModel {
    |m: FrameModel, p: IrParam| readonly_param(g, body, m, p)
}

/// The first parameter named `name`.
pub open spec fn first_param(params: Seq<IrParam>, name: Seq<char>, i: int) -> Option<int>
    decreases params.len() - i,
{
    if i < 0 || i >= params.len() {
        None
    } else if params[i].name@ == name {
        Some(i)
    } else {
        first_param(params, name, i + 1)
    }
}

/// A mutated parameter: its input index and a cell buffer.
pub open spec fn mutate_pattern(params: Seq<IrParam>, m: FrameModel, pat: MutatePattern) -> FrameModel {
    if m.over {
        m
    } else {
        match first_param(params, pat.binding@, 0) {
            None => m,
            Some(pi) => {
                let id = params[pi].binding.id;
                put_cell(
                    FrameModel {
                        mutate_param_ids: m.mutate_param_ids.push((pat.binding@, id)),
                        consume_binding_ids: m.consume_binding_ids.push((pat.binding@, id)),
                        consume_indices: m.consume_indices.insert(id, pat.input_index),
                        ..m
                    },
                    id,
                    true,
                )
            },
        }
    }
}

pub open spec fn mutate_step(params: Seq<IrParam>) -> spec_fn(FrameModel, MutatePattern) -> FrameModel {
    |m: FrameModel, pat: MutatePattern| mutate_pattern(params, m, pat)
}

/// A consumed parameter not bound yet: a cell buffer, its place in the
/// consume order, and the index of its last pattern.
pub open spec fn consume_pattern(body: IrBody, params: Seq<IrParam>, m: FrameModel, pat: CellPattern) -> FrameModel {
    if m.over {
        m
    } else {
        match first_param(params, pat.binding@, 0) {
            None => m,
            Some(pi) => if find_last(m.consume_binding_ids, pat.binding@) is Some {
                m
            } else {
                let id = params[pi].binding.id;
                let m1 = put_cell(
                    FrameModel { consume_binding_ids: m.consume_binding_ids.push((pat.binding@, id)), ..m },
                    id,
                    true,
                );
                FrameModel {
                    consume_order: m1.consume_order.push(id),
                    consume_indices: m1.consume_indices.insert(
                        id,
                        match last_binding(body.consume_set@, pat.binding@) {
                            Some(i) => i as usize,
                            None => 0,
                        },
                    ),
                    ..m1
                }
            },
        }
    }
}

pub open spec fn consume_step(body: IrBody, params: Seq<IrParam>) -> spec_fn(FrameModel, CellPattern) -> FrameModel {
    |m: FrameModel, pat: CellPattern| consume_pattern(body, params, m, pat)
}

/// A consumed schema operand not bound yet, as a consumed parameter is.
pub open spec fn consumed_operand(body: IrBody, m: FrameModel, inst: IrInstruction) -> FrameModel {
    if m.over {
        m
    } else {
        match spec_consumed_operand(inst) {
            None => m,
            Some(v) => if find_last(m.consume_binding_ids, v.name@) is Some {
                m
            } else {
                let m1 = put_cell(FrameModel { consume_binding_ids: m.consume_binding_ids.push((v.name@, v.id)), ..m }, v.id, true);
                let order = m1.consume_order.push(v.id);
                FrameModel {
                    consume_order: order,
                    consume_indices: m1.consume_indices.insert(
                        v.id,
                        match last_binding(body.consume_set@, v.name@) {
                            Some(i) => i as usize,
                            None => (order.len() - 1) as usize,
                        },
                    ),
                    ..m1
                }
            },
        }
    }
}

pub open spec fn consumed_step(body: IrBody) -> spec_fn(FrameModel, IrInstruction) -> FrameModel {
    |m: FrameModel, inst: IrInstruction| consumed_operand(body, m, inst)
}

/// A cell read by reference: a cell buffer and the next dependency index.
pub open spec fn read_ref(m: FrameModel, inst: IrInstruction) -> FrameModel {
    if m.over {
        m
    } else {
        match inst {
            IrInstruction::ReadRef { dest, .. } => {
                let m1 = put_cell(m, dest.id, false);
                FrameModel {
                    read_ref_order: m1.read_ref_order.push(dest.id),
                    read_ref_indices: m1.read_ref_indices.insert(dest.id, m1.read_ref_order.len() as usize),
                    ..m1
                }
            },
            _ => m,
        }
    }
}

pub open spec fn read_ref_step() -> spec_fn(FrameModel, IrInstruction) -> FrameModel {
    |m: FrameModel, inst: IrInstruction| read_ref(m, inst)
}

/// The output an operation writes into `dest`, by pattern.
pub open spec fn dest_output(body: IrBody, operation: Seq<char>, d: crate::ir::IrVar) -> Option<usize> {
    match spec_named_type_name(d.ty) {
        Some(t) => first_output_from(body.create_set@, operation, d.name@, t, 0),
        None => None,
    }
}

/// Whether a field read yields a dynamic vector whose length needs a word.
pub open spec fn dynamic_field(g: CodeGenerator, inst: IrInstruction) -> bool {
    match inst {
        IrInstruction::FieldAccess { dest, obj: IrOperand::Var(obj), field } => {
            &&& spec_named_type_name(dest.ty) is Some
            &&& spec_named_type_name(obj.ty) matches Some(t)
            &&& g.spec_field_layout(t, field@) matches Some(l)
            &&& layout_byte_width(l) is None
            &&& spec_vector_element_width(l.ty, g.type_fixed_sizes, g.enum_fixed_sizes) is Some
        },
        _ => false,
    }
}

/// Dynamic field lengths, the outputs that operations write, and the cell
/// buffers of type hashes taken of an output or of a loaded cell.
pub open spec fn create_scan(g: CodeGenerator, body: IrBody, m: FrameModel, inst: IrInstruction) -> FrameModel {
    if m.over {
        m
    } else {
        match inst {
            IrInstruction::FieldAccess { dest, .. } => if dynamic_field(g, inst) {
                put_word(m, WordSlot::DynamicValueSize, dest.id)
            } else {
                m
            },
            IrInstruction::Create { dest, pattern } => if pattern.operation@ == "create"@ {
                FrameModel {
                    create_outputs: m.create_outputs.insert(dest.id, m.next_create as usize),
                    next_create: m.next_create + 1,
                    ..m
                }
            } else {
                match first_output_from(body.create_set@, pattern.operation@, pattern.binding@, pattern.ty@, 0) {
                    Some(o) => FrameModel { create_outputs: m.create_outputs.insert(dest.id, o), ..m },
                    None => m,
                }
            },
            IrInstruction::CreateUnique { dest, pattern, .. } | IrInstruction::ReplaceUnique { dest, pattern, .. } => {
                match first_output_from(body.create_set@, pattern.operation@, pattern.binding@, pattern.ty@, 0) {
                    Some(o) => FrameModel { create_outputs: m.create_outputs.insert(dest.id, o), ..m },
                    None => m,
                }
            },
            IrInstruction::Transfer { dest, .. } => match dest_output(body, "transfer"@, dest) {
                Some(o) => FrameModel { create_outputs: m.create_outputs.insert(dest.id, o), ..m },
                None => m,
            },
            IrInstruction::Claim { dest, .. } => match dest_output(body, "claim"@, dest) {
                Some(o) => FrameModel { create_outputs: m.create_outputs.insert(dest.id, o), ..m },
                None => m,
            },
            IrInstruction::Settle { dest, .. } => match dest_output(body, "settle"@, dest) {
                Some(o) => FrameModel { create_outputs: m.create_outputs.insert(dest.id, o), ..m },
                None => m,
            },
            IrInstruction::TypeHash { dest, operand: IrOperand::Var(v) } => if m.create_outputs.contains_key(v.id) {
                put_cell(
                    FrameModel {
                        output_type_hash_sources: m.output_type_hash_sources.insert(dest.id, m.create_outputs[v.id]),
                        ..m
                    },
                    dest.id,
                    false,
                )
            } else if m.consume_indices.contains_key(v.id) || m.read_ref_indices.contains_key(v.id)
                || m.read_ref_param_input_indices.contains_key(v.id) {
                put_cell(m, dest.id, false)
            } else {
                m
            },
            _ => m,
        }
    }
}

pub open spec fn create_step(g: CodeGenerator, body: IrBody) -> spec_fn(FrameModel, IrInstruction) -> FrameModel {
    |m: FrameModel, inst: IrInstruction| create_scan(g, body, m, inst)
}

/// The index the first `create` pattern takes, or the pattern count.
pub open spec fn first_create(patterns: Seq<CreatePattern>, i: int) -> int
    decreases patterns.len() - i,
{
    if i < 0 || i >= patterns.len() {
        patterns.len() as int
    } else if patterns[i].operation@ == "create"@ {
        i
    } else {
        first_create(patterns, i + 1)
    }
}

/// The layout of `body`'s frame, up to the collection region.
pub open spec fn frame_model(g: CodeGenerator, body: IrBody, params: Seq<IrParam>) -> FrameModel {
    let scan = body_scan(body, params);
    let m0 = initial_model(locals_size(scan.max));
    let m1 = fold_items(m0, scan.fixed_ids, fixed_step(scan.fixed));
    let m2 = fold_items(m1, scan.names, named_step());
    let m3 = fold_items(m2, params, param_word_step());
    let m4 = fold_items(m3, params, type_hash_step(scan.type_hash_ids));
    let m5 = if g.bind_readonly_schema_params {
        fold_items(m4, params, readonly_step(g, body))
    } else {
        m4
    };
    let m6 = fold_items(m5, body.mutate_set@, mutate_step(params));
    let m7 = fold_items(m6, body.consume_set@, consume_step(body, params));
    let m8 = fold_blocks(m7, body.blocks@, consumed_step(body));
    let m9 = fold_blocks(m8, body.blocks@, read_ref_step());
    fold_blocks(
        FrameModel { next_create: first_create(body.create_set@, 0), ..m9 },
        body.blocks@,
        create_step(g, body),
    )
}


/// The (binding, variable) pairs that mutate patterns naming a parameter
/// record, in pattern order.
pub open spec fn mutate_bindings(params: Seq<IrParam>, pats: Seq<MutatePattern>) -> Seq<(Seq<char>, usize)>
    decreases pats.len(),
{
    if pats.len() == 0 {
        Seq::empty()
    } else {
        let prev = mutate_bindings(params, pats.drop_last());
        match first_param(params, pats.last().binding@, 0) {
            None => prev,
            Some(pi) => prev.push((pats.last().binding@, params[pi].binding.id)),
        }
    }
}

proof fn lemma_fold_keeps_mutate_ids<T>(m: FrameModel, items: Seq<T>, step: spec_fn(FrameModel, T) -> FrameModel)
    requires
        forall|a: FrameModel, x: T| (#[trigger] step(a, x)).mutate_param_ids == a.mutate_param_ids,
    ensures
        fold_items(m, items, step).mutate_param_ids == m.mutate_param_ids,
    decreases items.len(),
{
    if items.len() > 0 {
        lemma_fold_keeps_mutate_ids(m, items.drop_last(), step);
    }
}

proof fn lemma_fold_sticky<T>(m: FrameModel, items: Seq<T>, step: spec_fn(FrameModel, T) -> FrameModel)
    requires
        forall|a: FrameModel, x: T| a.over ==> #[trigger] step(a, x) == a,
    ensures
        m.over ==> fold_items(m, items, step) == m,
    decreases items.len(),
{
    if items.len() > 0 {
        lemma_fold_sticky(m, items.drop_last(), step);
    }
}

proof fn lemma_blocks_keep(m: FrameModel, blocks: Seq<IrBlock>, step: spec_fn(FrameModel, IrInstruction) -> FrameModel)
    requires
        forall|a: FrameModel, x: IrInstruction| (#[trigger] step(a, x)).mutate_param_ids == a.mutate_param_ids,
        forall|a: FrameModel, x: IrInstruction| a.over ==> #[trigger] step(a, x) == a,
    ensures
        fold_blocks(m, blocks, step).mutate_param_ids == m.mutate_param_ids,
        m.over ==> fold_blocks(m, blocks, step) == m,
    decreases blocks.len(),
{
    if blocks.len() > 0 {
        lemma_blocks_keep(m, blocks.drop_last(), step);
        let prev = fold_blocks(m, blocks.drop_last(), step);
        lemma_fold_keeps_mutate_ids(prev, blocks.last().instructions@, step);
        lemma_fold_sticky(prev, blocks.last().instructions@, step);
    }
}

proof fn lemma_mutate_fold(params: Seq<IrParam>, m: FrameModel, pats: Seq<MutatePattern>)
    ensures
        !fold_items(m, pats, mutate_step(params)).over ==>
            fold_items(m, pats, mutate_step(params)).mutate_param_ids == m.mutate_param_ids + mutate_bindings(params, pats),
        m.over ==> fold_items(m, pats, mutate_step(params)) == m,
    decreases pats.len(),
{
    if pats.len() == 0 {
        assert(m.mutate_param_ids + Seq::<(Seq<char>, usize)>::empty() =~= m.mutate_param_ids);
    } else {
        lemma_mutate_fold(params, m, pats.drop_last());
        let prev = fold_items(m, pats.drop_last(), mutate_step(params));
        let pat = pats.last();
        if !prev.over {
            match first_param(params, pat.binding@, 0) {
                None => {},
                Some(pi) => {
                    let id = params[pi].binding.id;
                    assert(m.mutate_param_ids + mutate_bindings(params, pats) =~= (m.mutate_param_ids
                        + mutate_bindings(params, pats.drop_last())).push((pat.binding@, id)));
                },
            }
        }
    }
}

/// When the frame fits, its mutated parameters are exactly those that the
/// mutate patterns name, in pattern order, each under its binding with its
/// variable id.
pub proof fn lemma_frame_mutate_params(g: CodeGenerator, body: IrBody, params: Seq<IrParam>)
    requires
        !frame_model(g, body, params).over,
    ensures
        frame_model(g, body, params).mutate_param_ids == mutate_bindings(params, body.mutate_set@),
{
    let scan = body_scan(body, params);
    let m0 = initial_model(locals_size(scan.max));
    let m1 = fold_items(m0, scan.fixed_ids, fixed_step(scan.fixed));
    let m2 = fold_items(m1, scan.names, named_step());
    let m3 = fold_items(m2, params, param_word_step());
    let m4 = fold_items(m3, params, type_hash_step(scan.type_hash_ids));
    let m5 = if g.bind_readonly_schema_params {
        fold_items(m4, params, readonly_step(g, body))
    } else {
        m4
    };
    let m6 = fold_items(m5, body.mutate_set@, mutate_step(params));
    let m7 = fold_items(m6, body.consume_set@, consume_step(body, params));
    let m8 = fold_blocks(m7, body.blocks@, consumed_step(body));
    let m9 = fold_blocks(m8, body.blocks@, read_ref_step());
    let m9b = FrameModel { next_create: first_create(body.create_set@, 0), ..m9 };
    lemma_fold_keeps_mutate_ids(m0, scan.fixed_ids, fixed_step(scan.fixed));
    lemma_fold_keeps_mutate_ids(m1, scan.names, named_step());
    lemma_fold_keeps_mutate_ids(m2, params, param_word_step());
    lemma_fold_keeps_mutate_ids(m3, params, type_hash_step(scan.type_hash_ids));
    lemma_fold_keeps_mutate_ids(m4, params, readonly_step(g, body));
    lemma_fold_keeps_mutate_ids(m6, body.consume_set@, consume_step(body, params));
    lemma_fold_sticky(m6, body.consume_set@, consume_step(body, params));
    lemma_blocks_keep(m7, body.blocks@, consumed_step(body));
    lemma_blocks_keep(m8, body.blocks@, read_ref_step());
    lemma_blocks_keep(m9b, body.blocks@, create_step(g, body));
    lemma_mutate_fold(params, m5, body.mutate_set@);
    assert(m5.mutate_param_ids =~= Seq::<(Seq<char>, usize)>::empty());
    assert(Seq::<(Seq<char>, usize)>::empty() + mutate_bindings(params, body.mutate_set@)
        =~= mutate_bindings(params, body.mutate_set@));
}

} // verus!
