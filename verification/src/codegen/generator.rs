//! The code generator's state and its line-level emission primitives.

use vstd::prelude::*;
use std::collections::{BTreeSet, HashMap};

use crate::assembler::syntax::{scratch_register_avoiding, small_signed, small_signed_immediate, spec_scratch_avoiding};
use crate::codegen::lines::{
    ins, li_body, mem_body, mk_ins, mk_li, mk_mem, mk_rri, mk_rrr, rewrite_large_immediate, rri_body,
    rrr_body, spec_emit_lines,
};
use crate::codegen::schema::SchemaFieldLayout;
use crate::ir::{IrOperand, IrStateTransitionEdge, IrType};
use crate::names::NameMap;
use crate::text::{
    dec_nat, lemma_dec_nat_digits, lemma_dec_nat_injective, push_decimal_u128, str_chars, string_from_chars, string_push, string_push_str,
};

verus! {

broadcast use vstd::std_specs::hash::group_hash_axioms;

/// Artifact target profile; CKB selects the CKB syscall and source ABI.
#[derive(Debug, Clone, Copy, PartialEq, Eq)]
pub enum TargetProfile {
    Ckb,
}

/// The kind of artifact a compilation produces: assembly text or a linked ELF image.
#[derive(Debug, Clone, Copy, PartialEq, Eq)]
pub enum ArtifactFormat {
    RiscvAssembly,
    RiscvElf,
}

#[derive(Debug, Clone, Copy)]
pub struct CodegenOptions {
    pub opt_level: u8,
    pub debug: bool,
    pub target_profile: TargetProfile,
}

impl Default for CodegenOptions {
    fn default() -> (r: Self)
        ensures
            r.opt_level == 0,
            !r.debug,
            r.target_profile == TargetProfile::Ckb,
    {
        CodegenOptions { opt_level: 0, debug: false, target_profile: TargetProfile::Ckb }
    }
}

pub struct CodeGenerator {
    pub options: CodegenOptions,
    /// The assembly emitted so far, one line per entry.
    pub assembly: Vec<String>,
    /// The function whose body is being emitted, if any.
    pub current_function: Option<String>,
    pub frame_size: usize,
    /// Fixed encoded size of named schemas whose fields all have fixed widths.
    pub type_fixed_sizes: NameMap<usize>,
    /// Storage width of fieldless enums, keyed by enum name.
    pub enum_fixed_sizes: NameMap<usize>,
    /// Action-specific state edges for the function being emitted.
    pub current_state_transition_edges: Vec<IrStateTransitionEdge>,
    /// Pointer slots backed by a VM-loaded cell buffer size word.
    pub schema_pointer_size_offsets: HashMap<usize, usize>,
    /// Deduplicated read-only byte constants, with their labels.
    pub const_data_entries: Vec<(String, Vec<u8>)>,
    /// Stack offset of each loaded cell buffer, keyed by IR variable id.
    pub cell_buffer_offsets: HashMap<usize, usize>,
    /// Stack offset of each loaded cell buffer's size word.
    pub cell_buffer_size_offsets: HashMap<usize, usize>,
    /// Consumed operand variable ids in lowering order.
    pub consume_order: Vec<usize>,
    /// Input index of each consumed variable.
    pub consume_indices: HashMap<usize, usize>,
    /// Schema type name of each consumed variable.
    pub consume_type_names: HashMap<usize, String>,
    /// Consumed variable id keyed by source binding name.
    pub consume_binding_ids: NameMap<usize>,
    /// Read-ref destination ids in lowering order.
    pub read_ref_order: Vec<usize>,
    /// CellDep index of each read-ref destination.
    pub read_ref_indices: HashMap<usize, usize>,
    /// Variables whose collection lives on the stack: the slot holds a
    /// pointer to the elements, with the length in the word just below.
    pub stack_collection_vars: BTreeSet<usize>,
    /// Variables holding a freshly created, still empty vector.
    pub empty_molecule_vector_vars: BTreeSet<usize>,
    /// Frame offset where the stack collection slots begin.
    pub collection_region_start: usize,
    /// Index of the next free stack collection slot.
    pub next_collection_slot: usize,
    /// Stack offset of the length word of each dynamically sized value.
    pub dynamic_value_size_offsets: HashMap<usize, usize>,
    /// Stack offset of the length word of each fixed-byte or aggregate pointer parameter.
    pub fixed_byte_param_size_offsets: HashMap<usize, usize>,
    /// Output index of each variable produced by a cell operation.
    pub operation_output_indices: HashMap<usize, usize>,
    /// Input index of each read-only parameter bound to a transaction input.
    pub read_ref_param_input_indices: HashMap<usize, usize>,
    /// CellDep index of each read-only parameter bound to a cell dependency.
    pub read_ref_param_dep_indices: HashMap<usize, usize>,
    /// Stack offset of the type-hash pointer of each schema parameter whose type hash is taken.
    pub param_type_hash_pointer_offsets: HashMap<usize, usize>,
    /// Stack offset of the type-hash length of each such parameter.
    pub param_type_hash_size_offsets: HashMap<usize, usize>,
    /// Variables that point at a schema value.
    pub schema_pointer_vars: BTreeSet<usize>,
    /// Variables bound to the function's parameters.
    pub param_vars: BTreeSet<usize>,
    /// Names of the schemas that are cells.
    pub cell_type_names: NameMap<()>,
    /// Type of the value behind each fixed-width pointer parameter.
    pub aggregate_pointer_sources: HashMap<usize, AggregatePointerSource>,
    /// Variables produced by an operation whose output the prelude verifies.
    pub verified_operation_outputs: BTreeSet<usize>,
    /// Output index handed to the next operation result without a recorded one.
    pub next_virtual_output: usize,
    /// Layout of each schema's fields, keyed by type name, then field name.
    pub type_layouts: NameMap<NameMap<SchemaFieldLayout>>,
    /// Counter that makes runtime-check labels unique.
    pub next_runtime_label: usize,
    /// Whether read-only schema parameters are bound to cells at entry.
    pub bind_readonly_schema_params: bool,
    /// Stack offset of each wide scalar temporary held as fixed bytes.
    pub fixed_byte_local_offsets: HashMap<usize, usize>,
    /// Stack slot of each named variable used by StoreVar/LoadVar.
    pub named_var_offsets: NameMap<usize>,
    /// Output index whose TypeHash a `type_hash()` temporary loads.
    pub output_type_hash_sources: HashMap<usize, usize>,
    /// Source parameter of each `type_hash()` temporary taken of a schema parameter.
    pub param_type_hash_sources: HashMap<usize, usize>,
    /// Read-only parameters bound to cells, by name.
    pub read_ref_param_ids: NameMap<usize>,
    /// Output parameters, by name.
    pub output_param_ids: NameMap<usize>,
    /// Mutated parameters, by name.
    pub mutate_param_ids: NameMap<usize>,
    /// Locally constructed byte vectors, keyed by collection variable id.
    pub constructed_byte_vectors: HashMap<usize, Vec<IrOperand>>,
    /// Root collection of each alias of a locally constructed vector.
    pub constructed_byte_vector_roots: HashMap<usize, usize>,
    /// Collections whose construction the output verification covers.
    pub verified_collection_construction_vectors: BTreeSet<usize>,
    /// Runtime error codes the current function jumps to a shared handler for.
    pub fail_handler_codes: BTreeSet<u64>,
    /// Whether the function being emitted is a lock's entry, whose result is a predicate.
    pub current_lock_entry: bool,
    /// Fields of tuples built in the current body, keyed by tuple variable id.
    pub tuple_aggregate_fields: HashMap<usize, Vec<IrOperand>>,
}

/// What a fixed-width pointer parameter points at.
#[derive(Debug, Clone)]
pub struct AggregatePointerSource {
    pub ty: IrType,
}

/// Extra space below the frame top used by the scratch and temporary regions.
pub const RUNTIME_SCRATCH_BUFFER_SIZE: usize = 512;
pub const RUNTIME_SCRATCH_SLOT_SIZE: usize = 520;
pub const RUNTIME_SCRATCH_SIZE: usize = 1040;
pub const RUNTIME_EXPR_TEMP_SLOTS: usize = 16;
pub const RUNTIME_EXPR_TEMP_SIZE: usize = 128;
pub const RUNTIME_CELL_BUFFER_SIZE: usize = 512;
pub const RUNTIME_CELL_SLOT_SIZE: usize = 520;
pub const RUNTIME_COLLECTION_BUFFER_SIZE: usize = 256;

/// `addi rd, rs, imm`, going through a scratch register (never `rs`) when
/// `imm` does not fit 12 bits.
pub open spec fn large_addi_lines_spec(rd: Seq<char>, rs: Seq<char>, imm: int) -> Seq<Seq<char>> {
    if small_signed(imm) {
        seq![ins(rri_body("addi"@, rd, rs, imm))]
    } else {
        let scr = spec_scratch_avoiding(seq![rs]);
        seq![ins(li_body(scr, imm)), ins(rrr_body("add"@, rd, rs, scr))]
    }
}

/// A load or store at `offset(base)`; large offsets are added to `base` in a
/// scratch register that is none of `avoid`.
pub open spec fn memory_access_lines(
    op: Seq<char>,
    reg: Seq<char>,
    base: Seq<char>,
    offset: int,
    avoid: Seq<Seq<char>>,
) -> Seq<Seq<char>> {
    if small_signed(offset) {
        seq![ins(mem_body(op, reg, offset, base))]
    } else {
        let scr = spec_scratch_avoiding(avoid);
        seq![ins(li_body(scr, offset)), ins(rrr_body("add"@, scr, base, scr)), ins(mem_body(op, reg, 0, scr))]
    }
}

/// A stack access `op reg, offset(sp)`.
pub open spec fn stack_access_lines(op: Seq<char>, reg: Seq<char>, offset: int) -> Seq<Seq<char>> {
    memory_access_lines(op, reg, "sp"@, offset, seq![reg])
}

/// `rd = sp + offset`; large offsets are materialized in `rd` itself.
pub open spec fn sp_addi_lines(rd: Seq<char>, offset: int) -> Seq<Seq<char>> {
    if offset <= 2047 {
        seq![ins(rri_body("addi"@, rd, "sp"@, offset))]
    } else if rd == "sp"@ {
        large_addi_lines_spec("sp"@, "sp"@, (offset as i64) as int)
    } else {
        seq![ins(li_body(rd, offset)), ins(rrr_body("add"@, rd, "sp"@, rd))]
    }
}

/// `rd <<= shift; rd >>= shift` (logical), clearing the upper `shift` bits.
pub open spec fn truncate_lines(reg: Seq<char>, width: int) -> Seq<Seq<char>> {
    if width >= 64 {
        Seq::empty()
    } else {
        seq![ins(rri_body("slli"@, reg, reg, 64 - width)), ins(rri_body("srli"@, reg, reg, 64 - width))]
    }
}

/// The lines that assemble a little-endian scalar of `width` bytes from
/// `offset(base)` into `dest`, one byte at a time through `scratch`.
pub open spec fn unaligned_load_lines(
    base: Seq<char>,
    dest: Seq<char>,
    scratch: Seq<char>,
    offset: int,
    width: int,
) -> Seq<Seq<char>>
    decreases width,
{
    if width <= 0 {
        seq![ins(li_body(dest, 0))]
    } else {
        let k = width - 1;
        let load = memory_access_lines("lbu"@, scratch, base, offset + k, seq![scratch, base, dest, scratch, base]);
        let shift = if k != 0 { seq![ins(rri_body("slli"@, scratch, scratch, k * 8))] } else { Seq::empty() };
        unaligned_load_lines(base, dest, scratch, offset, k) + load + shift + seq![ins(rrr_body("or"@, dest, dest, scratch))]
    }
}

/// The label `.L<prefix>_<n>`.
pub open spec fn label_text(prefix: Seq<char>, n: nat) -> Seq<char> {
    ".L"@ + prefix + "_"@ + dec_nat(n)
}

/// Labels made from different counter values differ, whatever their
/// prefixes: the text after a label's last `_` is its counter in decimal.
/// Since `fresh_label` steps the counter, two calls on one generator never
/// hand out the same label.
pub proof fn lemma_fresh_labels_distinct(p1: Seq<char>, n1: nat, p2: Seq<char>, n2: nat)
    requires
        n1 != n2,
    ensures
        label_text(p1, n1) != label_text(p2, n2),
{
    let d1 = dec_nat(n1);
    let d2 = dec_nat(n2);
    let a = label_text(p1, n1);
    let b = label_text(p2, n2);
    lemma_dec_nat_digits(n1);
    lemma_dec_nat_digits(n2);
    reveal_strlit("_");
    reveal_strlit(".L");
    let x1 = ".L"@ + p1 + "_"@;
    let x2 = ".L"@ + p2 + "_"@;
    assert(a == x1 + d1);
    assert(b == x2 + d2);
    assert(x1[x1.len() - 1] == '_');
    assert(x2[x2.len() - 1] == '_');
    if a == b {
        assert(a.len() == b.len());
        if d1.len() < d2.len() {
            let k = a.len() - d1.len() - 1;
            assert(k == x1.len() - 1);
            assert(a[k] == x1[k]);
            assert(b[k] == d2[k - (b.len() - d2.len())]);
            assert(false);
        } else if d2.len() < d1.len() {
            let k = b.len() - d2.len() - 1;
            assert(k == x2.len() - 1);
            assert(b[k] == x2[k]);
            assert(a[k] == d1[k - (a.len() - d1.len())]);
            assert(false);
        } else {
            assert(d1 =~= a.subrange(a.len() - d1.len(), a.len() as int));
            assert(d2 =~= b.subrange(b.len() - d2.len(), b.len() as int));
            lemma_dec_nat_injective(n1, n2);
        }
    }
}

impl CodeGenerator {
    /// The emitted assembly as character sequences.
    pub open spec fn lines(&self) -> Seq<Seq<char>> {
        self.assembly@.map_values(|s: String| s@)
    }

    /// Everything but the emitted text and the label counter is unchanged.
    pub open spec fn same_state(&self, other: &CodeGenerator) -> bool {
        &&& self.same_except_pointers(other)
        &&& self.schema_pointer_size_offsets == other.schema_pointer_size_offsets
        &&& self.schema_pointer_vars == other.schema_pointer_vars
        &&& self.param_vars == other.param_vars
        &&& self.aggregate_pointer_sources == other.aggregate_pointer_sources
        &&& self.next_virtual_output == other.next_virtual_output
    }

    /// Everything but the emitted text, the label counter, what is known of
    /// pointer variables and the next virtual output index is unchanged.
    pub open spec fn same_except_pointers(&self, other: &CodeGenerator) -> bool {
        &&& self.same_core(other)
        &&& self.fail_handler_codes == other.fail_handler_codes
    }

    /// Like `same_state`, except that failure handlers may have been recorded.
    pub open spec fn same_but_fail_codes(&self, other: &CodeGenerator) -> bool {
        &&& self.same_core(other)
        &&& self.schema_pointer_size_offsets == other.schema_pointer_size_offsets
        &&& self.schema_pointer_vars == other.schema_pointer_vars
        &&& self.param_vars == other.param_vars
        &&& self.aggregate_pointer_sources == other.aggregate_pointer_sources
        &&& self.next_virtual_output == other.next_virtual_output
    }

    /// The generator state that emission leaves alone.
    pub open spec fn same_core(&self, other: &CodeGenerator) -> bool {
        &&& self.current_lock_entry == other.current_lock_entry
        &&& self.tuple_aggregate_fields == other.tuple_aggregate_fields
        &&& self.options == other.options
        &&& self.current_function == other.current_function
        &&& self.frame_size == other.frame_size
        &&& self.type_fixed_sizes == other.type_fixed_sizes
        &&& self.enum_fixed_sizes == other.enum_fixed_sizes
        &&& self.current_state_transition_edges == other.current_state_transition_edges
        &&& self.cell_buffer_offsets == other.cell_buffer_offsets
        &&& self.cell_buffer_size_offsets == other.cell_buffer_size_offsets
        &&& self.consume_order == other.consume_order
        &&& self.consume_indices == other.consume_indices
        &&& self.consume_type_names == other.consume_type_names
        &&& self.consume_binding_ids == other.consume_binding_ids
        &&& self.read_ref_order == other.read_ref_order
        &&& self.read_ref_indices == other.read_ref_indices
        &&& self.stack_collection_vars == other.stack_collection_vars
        &&& self.empty_molecule_vector_vars == other.empty_molecule_vector_vars
        &&& self.collection_region_start == other.collection_region_start
        &&& self.next_collection_slot == other.next_collection_slot
        &&& self.type_layouts == other.type_layouts
        &&& self.dynamic_value_size_offsets == other.dynamic_value_size_offsets
        &&& self.fixed_byte_param_size_offsets == other.fixed_byte_param_size_offsets
        &&& self.operation_output_indices == other.operation_output_indices
        &&& self.read_ref_param_input_indices == other.read_ref_param_input_indices
        &&& self.read_ref_param_dep_indices == other.read_ref_param_dep_indices
        &&& self.param_type_hash_pointer_offsets == other.param_type_hash_pointer_offsets
        &&& self.param_type_hash_size_offsets == other.param_type_hash_size_offsets
        &&& self.cell_type_names == other.cell_type_names
        &&& self.verified_operation_outputs == other.verified_operation_outputs
    }

    /// Only text was appended: the label counter and the constant pool stay.
    pub open spec fn text_appended(&self, old: &CodeGenerator, added: Seq<Seq<char>>) -> bool {
        &&& self.lines() == old.lines() + added
        &&& self.same_state(old)
        &&& self.next_runtime_label == old.next_runtime_label
        &&& self.const_data_entries == old.const_data_entries
    }

    pub fn new(options: CodegenOptions) -> (g: Self)
        ensures
            g.options == options,
            g.lines() == Seq::<Seq<char>>::empty(),
            g.current_function is None,
            g.frame_size == 16,
            g.next_runtime_label == 0,
            g.current_state_transition_edges@ == Seq::<IrStateTransitionEdge>::empty(),
            g.consume_order@ == Seq::<usize>::empty(),
            g.read_ref_order@ == Seq::<usize>::empty(),
            g.const_data_entries@ == Seq::<(String, Vec<u8>)>::empty(),
            g.schema_pointer_size_offsets@ == Map::<usize, usize>::empty(),
            g.cell_buffer_offsets@ == Map::<usize, usize>::empty(),
            g.cell_buffer_size_offsets@ == Map::<usize, usize>::empty(),
            g.consume_indices@ == Map::<usize, usize>::empty(),
            g.consume_type_names@ == Map::<usize, String>::empty(),
            g.read_ref_indices@ == Map::<usize, usize>::empty(),
            g.stack_collection_vars@ == Set::<usize>::empty(),
            g.empty_molecule_vector_vars@ == Set::<usize>::empty(),
            g.collection_region_start == 0,
            g.next_collection_slot == 0,
            forall|k: Seq<char>| g.type_layouts.lookup(k) is None,
            g.verified_operation_outputs@ == Set::<usize>::empty(),
            g.next_virtual_output == 0,
            g.dynamic_value_size_offsets@ == Map::<usize, usize>::empty(),
            g.fixed_byte_param_size_offsets@ == Map::<usize, usize>::empty(),
            g.operation_output_indices@ == Map::<usize, usize>::empty(),
            g.read_ref_param_input_indices@ == Map::<usize, usize>::empty(),
            g.read_ref_param_dep_indices@ == Map::<usize, usize>::empty(),
            g.param_type_hash_pointer_offsets@ == Map::<usize, usize>::empty(),
            g.param_type_hash_size_offsets@ == Map::<usize, usize>::empty(),
            g.schema_pointer_vars@ == Set::<usize>::empty(),
            g.param_vars@ == Set::<usize>::empty(),
            forall|k: Seq<char>| g.cell_type_names.lookup(k) is None,
            g.aggregate_pointer_sources@ == Map::<usize, AggregatePointerSource>::empty(),
            forall|k: Seq<char>| g.consume_binding_ids.lookup(k) is None,
            forall|k: Seq<char>| g.type_fixed_sizes.lookup(k) is None,
            forall|k: Seq<char>| g.enum_fixed_sizes.lookup(k) is None,
            !g.bind_readonly_schema_params,
            g.fixed_byte_local_offsets@ == Map::<usize, usize>::empty(),
            forall|k: Seq<char>| g.named_var_offsets.lookup(k) is None,
            g.output_type_hash_sources@ == Map::<usize, usize>::empty(),
            g.param_type_hash_sources@ == Map::<usize, usize>::empty(),
            forall|k: Seq<char>| g.read_ref_param_ids.lookup(k) is None,
            forall|k: Seq<char>| g.output_param_ids.lookup(k) is None,
            forall|k: Seq<char>| g.mutate_param_ids.lookup(k) is None,
            g.constructed_byte_vectors@ == Map::<usize, Vec<IrOperand>>::empty(),
            g.constructed_byte_vector_roots@ == Map::<usize, usize>::empty(),
            g.verified_collection_construction_vectors@ == Set::<usize>::empty(),
            g.fail_handler_codes@ == Set::<u64>::empty(),
            !g.current_lock_entry,
            g.tuple_aggregate_fields@ == Map::<usize, Vec<IrOperand>>::empty(),
    {
        let g = CodeGenerator {
            options,
            assembly: Vec::new(),
            current_function: None,
            frame_size: 16,
            type_fixed_sizes: NameMap::new(),
            enum_fixed_sizes: NameMap::new(),
            current_state_transition_edges: Vec::new(),
            schema_pointer_size_offsets: HashMap::new(),
            const_data_entries: Vec::new(),
            cell_buffer_offsets: HashMap::new(),
            cell_buffer_size_offsets: HashMap::new(),
            consume_order: Vec::new(),
            consume_indices: HashMap::new(),
            consume_type_names: HashMap::new(),
            consume_binding_ids: NameMap::new(),
            read_ref_order: Vec::new(),
            read_ref_indices: HashMap::new(),
            stack_collection_vars: BTreeSet::new(),
            empty_molecule_vector_vars: BTreeSet::new(),
            collection_region_start: 0,
            next_collection_slot: 0,
            type_layouts: NameMap::new(),
            verified_operation_outputs: BTreeSet::new(),
            next_virtual_output: 0,
            dynamic_value_size_offsets: HashMap::new(),
            fixed_byte_param_size_offsets: HashMap::new(),
            operation_output_indices: HashMap::new(),
            read_ref_param_input_indices: HashMap::new(),
            read_ref_param_dep_indices: HashMap::new(),
            param_type_hash_pointer_offsets: HashMap::new(),
            param_type_hash_size_offsets: HashMap::new(),
            schema_pointer_vars: BTreeSet::new(),
            param_vars: BTreeSet::new(),
            cell_type_names: NameMap::new(),
            aggregate_pointer_sources: HashMap::new(),
            next_runtime_label: 0,
            bind_readonly_schema_params: false,
            fixed_byte_local_offsets: HashMap::new(),
            named_var_offsets: NameMap::new(),
            output_type_hash_sources: HashMap::new(),
            param_type_hash_sources: HashMap::new(),
            read_ref_param_ids: NameMap::new(),
            output_param_ids: NameMap::new(),
            mutate_param_ids: NameMap::new(),
            constructed_byte_vectors: HashMap::new(),
            constructed_byte_vector_roots: HashMap::new(),
            verified_collection_construction_vectors: BTreeSet::new(),
            fail_handler_codes: BTreeSet::new(),
            current_lock_entry: false,
            tuple_aggregate_fields: HashMap::new(),
        };
        assert(g.lines() =~= Seq::<Seq<char>>::empty());
        g
    }

    /// Appends one finished line.
    pub fn push_line(&mut self, line: String)
        ensures
            final(self).text_appended(old(self), seq![line@]),
    {
        self.assembly.push(line);
        assert(self.lines() =~= old(self).lines() + seq![line@]);
    }

    /// Appends an indented instruction line without any rewriting.
    fn push_ins(&mut self, body: String)
        ensures
            final(self).text_appended(old(self), seq![ins(body@)]),
    {
        let line = mk_ins(body.as_str());
        self.push_line(line);
    }

    /// The file header: a banner, the options and the target ISA.
    pub fn emit_header(&mut self)
        ensures
            final(self).text_appended(
                old(self),
                seq![
                    "# CellScript Generated Assembly"@,
                    "# opt_level="@ + dec_nat(old(self).options.opt_level as nat) + ", debug="@
                        + (if old(self).options.debug { "true"@ } else { "false"@ }),
                    ".option arch, +rv64imac"@,
                    ""@,
                ],
            ),
    {
        let ghost start = self.lines();
        let mut banner = String::new();
        string_push_str(&mut banner, "# CellScript Generated Assembly");
        self.push_line(banner);
        let mut opts = String::new();
        string_push_str(&mut opts, "# opt_level=");
        push_decimal_u128(&mut opts, self.options.opt_level as u128);
        string_push_str(&mut opts, ", debug=");
        if self.options.debug {
            string_push_str(&mut opts, "true");
        } else {
            string_push_str(&mut opts, "false");
        }
        self.push_line(opts);
        let mut arch = String::new();
        string_push_str(&mut arch, ".option arch, +rv64imac");
        self.push_line(arch);
        let mut blank = String::new();
        string_push_str(&mut blank, "");
        self.push_line(blank);
        assert(self.lines() =~= start + seq![
            "# CellScript Generated Assembly"@,
            "# opt_level="@ + dec_nat(old(self).options.opt_level as nat) + ", debug="@
                + (if old(self).options.debug { "true"@ } else { "false"@ }),
            ".option arch, +rv64imac"@,
            ""@,
        ]);
    }

    /// `.section <section>`
    pub fn emit_section(&mut self, section: &str)
        ensures
            final(self).text_appended(old(self), seq![".section "@ + section@]),
    {
        let mut s = String::new();
        string_push_str(&mut s, ".section ");
        string_push_str(&mut s, section);
        self.push_line(s);
    }

    /// `.global <name>` followed by its `.type` directive.
    pub fn emit_global(&mut self, name: &str)
        ensures
            final(self).text_appended(
                old(self),
                seq![".global "@ + name@, ".type "@ + name@ + ", @function"@],
            ),
    {
        let mut g = String::new();
        string_push_str(&mut g, ".global ");
        string_push_str(&mut g, name);
        self.push_line(g);
        let mut t = String::new();
        string_push_str(&mut t, ".type ");
        string_push_str(&mut t, name);
        string_push_str(&mut t, ", @function");
        self.push_line(t);
        assert(self.lines() =~= old(self).lines() + seq![".global "@ + name@, ".type "@ + name@ + ", @function"@]);
    }

    /// `<name>:`
    pub fn emit_label(&mut self, name: &str)
        ensures
            final(self).text_appended(old(self), seq![name@ + ":"@]),
    {
        let mut s = String::new();
        string_push_str(&mut s, name);
        string_push_str(&mut s, ":");
        self.push_line(s);
    }

    /// Emits one instruction, rewriting loads, stores and `addi` whose
    /// immediate does not fit 12 bits into a scratch-register sequence.
    pub fn emit(&mut self, instruction: &str)
        ensures
            final(self).text_appended(old(self), spec_emit_lines(instruction@)),
    {
        if self.emit_large_immediate_access_if_needed(instruction) {
            return;
        }
        let line = mk_ins(instruction);
        self.push_line(line);
    }

    /// Emits the rewrite of `instruction` when one applies, and says whether it did.
    pub fn emit_large_immediate_access_if_needed(&mut self, instruction: &str) -> (r: bool)
        ensures
            r == crate::codegen::lines::spec_rewrite(instruction@) is Some,
            r ==> final(self).text_appended(old(self), spec_emit_lines(instruction@)),
            !r ==> *final(self) == *old(self),
    {
        let chars = str_chars(instruction);
        match rewrite_large_immediate(chars.as_slice()) {
            None => false,
            Some(lines) => {
                let ghost start = self.lines();
                let ghost added = lines@.map_values(|s: String| s@);
                let mut i: usize = 0;
                while i < lines.len()
                    invariant
                        i <= lines@.len(),
                        added == lines@.map_values(|s: String| s@),
                        self.text_appended(old(self), added.subrange(0, i as int)),
                    decreases lines@.len() - i,
                {
                    let line = lines[i].clone();
                    self.push_line(line);
                    assert(added.subrange(0, i + 1) =~= added.subrange(0, i as int).push(added[i as int]));
                    assert(self.lines() =~= old(self).lines() + added.subrange(0, i + 1));
                    i = i + 1;
                }
                assert(added.subrange(0, lines@.len() as int) =~= added);
                true
            },
        }
    }

    /// `addi rd, rs1, imm`, handling immediates that do not fit in 12 bits.
    pub fn emit_large_addi(&mut self, rd: &str, rs1: &str, imm: i64)
        ensures
            final(self).text_appended(old(self), large_addi_lines_spec(rd@, rs1@, imm as int)),
    {
        if -2048 <= imm && imm <= 2047 {
            self.push_ins(mk_rri("addi", rd, rs1, imm as i128));
        } else {
            let avoid = [rs1];
            let scratch = scratch_register_avoiding(&avoid);
            assert(avoid@.map_values(|s: &str| s@) =~= seq![rs1@]);
            self.push_ins(mk_li(scratch.as_str(), imm as i128));
            self.push_ins(mk_rrr("add", rd, rs1, scratch.as_str()));
        }
        assert(self.lines() =~= old(self).lines() + large_addi_lines_spec(rd@, rs1@, imm as int));
    }

    /// A load from `offset(base)` whose scratch register avoids `dst`, `base` and `avoid`.
    pub fn emit_memory_load_with_avoid(&mut self, opcode: &str, dst: &str, base: &str, offset: usize, avoid: &[&str])
        requires
            offset <= i64::MAX,
        ensures
            final(self).text_appended(
                old(self),
                memory_access_lines(opcode@, dst@, base@, offset as int, seq![dst@, base@] + avoid@.map_values(|s: &str| s@)),
            ),
    {
        let off = offset as i128;
        if -2048 <= off && off <= 2047 {
            self.push_ins(mk_mem(opcode, dst, off, base));
        } else {
            let mut registers: Vec<&str> = Vec::new();
            registers.push(dst);
            registers.push(base);
            let mut i: usize = 0;
            while i < avoid.len()
                invariant
                    i <= avoid@.len(),
                    registers@ == seq![dst, base] + avoid@.subrange(0, i as int),
                decreases avoid@.len() - i,
            {
                registers.push(avoid[i]);
                assert(avoid@.subrange(0, i + 1) =~= avoid@.subrange(0, i as int).push(avoid@[i as int]));
                i = i + 1;
            }
            assert(avoid@.subrange(0, avoid@.len() as int) =~= avoid@);
            assert(registers@.map_values(|s: &str| s@) =~= seq![dst@, base@] + avoid@.map_values(|s: &str| s@));
            let scratch = scratch_register_avoiding(registers.as_slice());
            self.push_ins(mk_li(scratch.as_str(), off));
            self.push_ins(mk_rrr("add", scratch.as_str(), base, scratch.as_str()));
            self.push_ins(mk_mem(opcode, dst, 0, scratch.as_str()));
        }
        assert(self.lines() =~= old(self).lines() + memory_access_lines(
            opcode@, dst@, base@, offset as int, seq![dst@, base@] + avoid@.map_values(|s: &str| s@)));
    }

    /// `opcode register, offset(sp)` through the centralized stack-offset gate.
    pub fn emit_stack_access(&mut self, opcode: &str, register: &str, offset: usize)
        requires
            offset <= i64::MAX,
        ensures
            final(self).text_appended(old(self), stack_access_lines(opcode@, register@, offset as int)),
    {
        let off = offset as i128;
        if -2048 <= off && off <= 2047 {
            self.push_ins(mk_mem(opcode, register, off, "sp"));
        } else {
            let avoid = [register];
            assert(avoid@.map_values(|s: &str| s@) =~= seq![register@]);
            let scratch = scratch_register_avoiding(&avoid);
            self.push_ins(mk_li(scratch.as_str(), off));
            self.push_ins(mk_rrr("add", scratch.as_str(), "sp", scratch.as_str()));
            self.push_ins(mk_mem(opcode, register, 0, scratch.as_str()));
        }
        assert(self.lines() =~= old(self).lines() + stack_access_lines(opcode@, register@, offset as int));
    }

    /// `ld rd, offset(sp)`
    pub fn emit_stack_load(&mut self, rd: &str, offset: usize)
        requires
            offset <= i64::MAX,
        ensures
            final(self).text_appended(old(self), stack_access_lines("ld"@, rd@, offset as int)),
    {
        self.emit_stack_access("ld", rd, offset);
    }

    /// `lbu rd, offset(sp)`
    pub fn emit_stack_load_byte(&mut self, rd: &str, offset: usize)
        requires
            offset <= i64::MAX,
        ensures
            final(self).text_appended(old(self), stack_access_lines("lbu"@, rd@, offset as int)),
    {
        self.emit_stack_access("lbu", rd, offset);
    }

    /// `sd rs2, offset(sp)`
    pub fn emit_stack_store(&mut self, rs2: &str, offset: usize)
        requires
            offset <= i64::MAX,
        ensures
            final(self).text_appended(old(self), stack_access_lines("sd"@, rs2@, offset as int)),
    {
        self.emit_stack_access("sd", rs2, offset);
    }

    /// `sb rs2, offset(sp)`
    pub fn emit_stack_store_byte(&mut self, rs2: &str, offset: usize)
        requires
            offset <= i64::MAX,
        ensures
            final(self).text_appended(old(self), stack_access_lines("sb"@, rs2@, offset as int)),
    {
        self.emit_stack_access("sb", rs2, offset);
    }

    /// `rd = sp + offset`, clobbering only `rd` for offsets beyond 12 bits.
    pub fn emit_sp_addi(&mut self, rd: &str, offset: usize)
        ensures
            final(self).text_appended(old(self), sp_addi_lines(rd@, offset as int)),
    {
        if offset <= 2047 {
            self.push_ins(mk_rri("addi", rd, "sp", offset as i128));
        } else {
            let rd_chars = str_chars(rd);
            let sp_chars = str_chars("sp");
            if crate::text::chars_eq(rd_chars.as_slice(), sp_chars.as_slice()) {
                self.emit_large_addi("sp", "sp", offset as i64);
            } else {
                self.push_ins(mk_li(rd, offset as i128));
                self.push_ins(mk_rrr("add", rd, "sp", rd));
            }
        }
        assert(self.lines() =~= old(self).lines() + sp_addi_lines(rd@, offset as int));
    }

    /// Loads a little-endian scalar of `width` bytes from `offset(base_reg)`
    /// into `dest_reg` one byte at a time.
    pub fn emit_unaligned_scalar_load(&mut self, base_reg: &str, dest_reg: &str, scratch_reg: &str, offset: usize, width: usize)
        requires
            offset + width <= i64::MAX,
            offset + width <= usize::MAX,
        ensures
            final(self).text_appended(
                old(self),
                unaligned_load_lines(base_reg@, dest_reg@, scratch_reg@, offset as int, width as int),
            ),
    {
        self.push_ins(mk_li(dest_reg, 0));
        let mut byte_index: usize = 0;
        while byte_index < width
            invariant
                byte_index <= width,
                offset + width <= i64::MAX,
                offset + width <= usize::MAX,
                self.text_appended(
                    old(self),
                    unaligned_load_lines(base_reg@, dest_reg@, scratch_reg@, offset as int, byte_index as int),
                ),
            decreases width - byte_index,
        {
            let avoid = [dest_reg, scratch_reg, base_reg];
            assert(seq![scratch_reg@, base_reg@] + avoid@.map_values(|s: &str| s@)
                =~= seq![scratch_reg@, base_reg@, dest_reg@, scratch_reg@, base_reg@]);
            assert(offset + byte_index <= i64::MAX);
            self.emit_memory_load_with_avoid("lbu", scratch_reg, base_reg, offset + byte_index, &avoid);
            if byte_index != 0 {
                self.push_ins(mk_rri("slli", scratch_reg, scratch_reg, (byte_index as i128) * 8));
            }
            self.push_ins(mk_rrr("or", dest_reg, dest_reg, scratch_reg));
            byte_index = byte_index + 1;
            assert(self.lines() =~= old(self).lines() + unaligned_load_lines(
                base_reg@, dest_reg@, scratch_reg@, offset as int, byte_index as int));
        }
    }

    /// A fresh label `.L<prefix>_<n>`; the counter advances by one.
    pub fn fresh_label(&mut self, prefix: &str) -> (label: String)
        requires
            old(self).next_runtime_label < usize::MAX,
        ensures
            label@ == label_text(prefix@, old(self).next_runtime_label as nat),
            final(self).next_runtime_label == old(self).next_runtime_label + 1,
            final(self).lines() == old(self).lines(),
            final(self).same_state(old(self)),
            final(self).const_data_entries == old(self).const_data_entries,
    {
        let mut s = String::new();
        string_push_str(&mut s, ".L");
        string_push_str(&mut s, prefix);
        string_push_str(&mut s, "_");
        push_decimal_u128(&mut s, self.next_runtime_label as u128);
        assert(s@ =~= label_text(prefix@, old(self).next_runtime_label as nat));
        self.next_runtime_label = self.next_runtime_label + 1;
        s
    }

    /// Clears the bits of `register` above `width`.
    pub fn emit_truncate_register_to_width(&mut self, register: &str, width: u32)
        ensures
            final(self).text_appended(old(self), truncate_lines(register@, width as int)),
    {
        if width >= 64 {
            assert(self.lines() =~= old(self).lines() + truncate_lines(register@, width as int));
            return;
        }
        let shift = 64 - width;
        self.push_ins(mk_rri("slli", register, register, shift as i128));
        self.push_ins(mk_rri("srli", register, register, shift as i128));
        assert(self.lines() =~= old(self).lines() + truncate_lines(register@, width as int));
    }

    /// Narrows `register` to the width of `ty` (`u8`, `u16`, `u32`); other types are left alone.
    pub fn emit_truncate_register_to_type(&mut self, register: &str, ty: &IrType)
        ensures
            final(self).text_appended(
                old(self),
                match *ty {
                    IrType::U8 => seq![ins(rri_body("andi"@, register@, register@, 255))],
                    IrType::U16 => truncate_lines(register@, 16),
                    IrType::U32 => truncate_lines(register@, 32),
                    _ => Seq::empty(),
                },
            ),
    {
        match ty {
            IrType::U8 => self.push_ins(mk_rri("andi", register, register, 255)),
            IrType::U16 => self.emit_truncate_register_to_width(register, 16),
            IrType::U32 => self.emit_truncate_register_to_width(register, 32),
            _ => {
                assert(self.lines() =~= old(self).lines() + Seq::<Seq<char>>::empty());
            },
        }
    }

    /// Offset of the first runtime scratch size word below the saved registers.
    pub fn runtime_scratch_size_offset(&self) -> (r: usize)
        requires
            self.frame_size >= 16 + RUNTIME_SCRATCH_SIZE,
        ensures
            r == self.frame_size - 16 - RUNTIME_SCRATCH_SIZE,
    {
        self.frame_size - 16 - RUNTIME_SCRATCH_SIZE
    }

    /// Offset of the first runtime scratch buffer, just after its size word.
    pub fn runtime_scratch_buffer_offset(&self) -> (r: usize)
        requires
            self.frame_size >= 16 + RUNTIME_SCRATCH_SIZE,
        ensures
            r == self.frame_size - 16 - RUNTIME_SCRATCH_SIZE + 8,
    {
        self.runtime_scratch_size_offset() + 8
    }

    /// Offset of the second runtime scratch size word.
    pub fn runtime_scratch2_size_offset(&self) -> (r: usize)
        requires
            self.frame_size >= 16 + RUNTIME_SCRATCH_SIZE,
        ensures
            r == self.frame_size - 16 - RUNTIME_SCRATCH_SIZE + RUNTIME_SCRATCH_SLOT_SIZE,
    {
        self.runtime_scratch_size_offset() + RUNTIME_SCRATCH_SLOT_SIZE
    }

    /// Offset of the second runtime scratch buffer.
    pub fn runtime_scratch2_buffer_offset(&self) -> (r: usize)
        requires
            self.frame_size >= 16 + RUNTIME_SCRATCH_SIZE,
        ensures
            r == self.frame_size - 16 - RUNTIME_SCRATCH_SIZE + RUNTIME_SCRATCH_SLOT_SIZE + 8,
    {
        self.runtime_scratch2_size_offset() + 8
    }

    /// Stack offset of expression temporary `depth`, if there is such a slot.
    pub fn runtime_expr_temp_offset(&self, depth: usize) -> (r: Option<usize>)
        requires
            self.frame_size >= 16 + RUNTIME_SCRATCH_SIZE + RUNTIME_EXPR_TEMP_SIZE,
        ensures
            depth < RUNTIME_EXPR_TEMP_SLOTS ==> r == Some(
                (self.frame_size - 16 - RUNTIME_SCRATCH_SIZE - RUNTIME_EXPR_TEMP_SIZE + depth * 8) as usize,
            ),
            depth >= RUNTIME_EXPR_TEMP_SLOTS ==> r is None,
    {
        if depth < RUNTIME_EXPR_TEMP_SLOTS {
            Some(self.runtime_scratch_size_offset() - RUNTIME_EXPR_TEMP_SIZE + depth * 8)
        } else {
            None
        }
    }

    /// Stores `register` at a signed offset from `sp`, through a scratch
    /// register when the offset does not fit 12 bits.
    pub fn emit_sp_store_signed(&mut self, register: &str, offset: i64)
        ensures
            final(self).text_appended(old(self), stack_access_lines("sd"@, register@, offset as int)),
    {
        let off = offset as i128;
        if small_signed_immediate(off) {
            self.push_ins(mk_mem("sd", register, off, "sp"));
        } else {
            let avoid = [register];
            assert(avoid@.map_values(|s: &str| s@) =~= seq![register@]);
            let scratch = scratch_register_avoiding(&avoid);
            self.push_ins(mk_li(scratch.as_str(), off));
            self.push_ins(mk_rrr("add", scratch.as_str(), "sp", scratch.as_str()));
            self.push_ins(mk_mem("sd", register, 0, scratch.as_str()));
        }
        assert(self.lines() =~= old(self).lines() + stack_access_lines("sd"@, register@, offset as int));
    }

    /// The register that carries argument `abi_index`: `a0` to `a7`, then `t0`
    /// for arguments passed on the stack.
    pub fn call_abi_register(&self, abi_index: usize) -> (r: String)
        ensures
            r@ == if abi_index < 8 { "a"@ + dec_nat(abi_index as nat) } else { "t0"@ },
    {
        let mut r = String::new();
        if abi_index < 8 {
            string_push_str(&mut r, "a");
            push_decimal_u128(&mut r, abi_index as u128);
        } else {
            string_push_str(&mut r, "t0");
        }
        r
    }

    /// Opens the frame: moves `sp` down, saves `ra` and `fp`, and points `fp`
    /// at the frame top.
    pub fn emit_prologue(&mut self)
        requires
            16 <= old(self).frame_size <= i64::MAX,
        ensures
            final(self).text_appended(old(self), prologue_lines(old(self).frame_size as int)),
    {
        let fs = self.frame_size;
        self.emit_large_addi("sp", "sp", -(fs as i64));
        self.emit_stack_store("ra", fs - 8);
        self.emit_stack_store("fp", fs - 16);
        self.emit_sp_addi("fp", fs);
        assert(self.lines() =~= old(self).lines() + prologue_lines(fs as int));
    }

    /// Restores `ra` and `fp`, releases the frame and returns.
    pub fn emit_epilogue_body(&mut self)
        requires
            16 <= old(self).frame_size <= i64::MAX,
        ensures
            final(self).text_appended(old(self), epilogue_body_lines(old(self).frame_size as int)),
    {
        let fs = self.frame_size;
        self.emit_stack_load("ra", fs - 8);
        self.emit_stack_load("fp", fs - 16);
        self.emit_large_addi("sp", "sp", fs as i64);
        self.emit("ret");
        assert(self.lines() =~= old(self).lines() + epilogue_body_lines(fs as int));
    }

    /// Leaves the function: a jump to its shared epilogue while a function is
    /// being emitted, the epilogue itself otherwise.
    pub fn emit_epilogue(&mut self)
        requires
            old(self).current_function is None ==> 16 <= old(self).frame_size <= i64::MAX,
        ensures
            final(self).text_appended(
                old(self),
                match old(self).current_function {
                    Some(f) => spec_emit_lines("j .L"@ + f@ + "_epilogue"@),
                    None => epilogue_body_lines(old(self).frame_size as int),
                },
            ),
    {
        match &self.current_function {
            Some(function) => {
                let mut j = String::new();
                string_push_str(&mut j, "j .L");
                string_push_str(&mut j, function.as_str());
                string_push_str(&mut j, "_epilogue");
                self.emit(j.as_str());
            },
            None => self.emit_epilogue_body(),
        }
    }
}

/// The frame prologue for a frame of `fs` bytes.
pub open spec fn prologue_lines(fs: int) -> Seq<Seq<char>> {
    large_addi_lines_spec("sp"@, "sp"@, -fs) + stack_access_lines("sd"@, "ra"@, fs - 8) + stack_access_lines("sd"@, "fp"@, fs - 16)
        + sp_addi_lines("fp"@, fs)
}

/// The frame epilogue for a frame of `fs` bytes.
pub open spec fn epilogue_body_lines(fs: int) -> Seq<Seq<char>> {
    stack_access_lines("ld"@, "ra"@, fs - 8) + stack_access_lines("ld"@, "fp"@, fs - 16) + large_addi_lines_spec("sp"@, "sp"@, fs)
        + spec_emit_lines("ret"@)
}

} // verus!
