use cellscript::codegen::calls::CallLengthKind;
use cellscript::codegen::schema::SchemaFieldLayout;
use cellscript::names::NameMap;
use cellscript::codegen::{CodeGenerator, CodegenOptions};
use cellscript::ir::{
    BinaryOp, BlockId, CreatePattern, IrBlock, IrBody, IrConst, IrInstruction, IrOperand, IrParam, IrTerminator, IrType, IrVar,
    ParamSource,
};

fn generator() -> CodeGenerator {
    CodeGenerator::new(CodegenOptions::default())
}

fn var(id: usize, name: &str, ty: IrType) -> IrVar {
    IrVar { id, name: name.to_string(), ty }
}

fn param(name: &str, id: usize, ty: IrType, source: ParamSource, is_ref: bool) -> IrParam {
    IrParam {
        name: name.to_string(),
        ty: ty.clone(),
        is_mut: false,
        is_ref,
        is_read_ref: false,
        source,
        binding: var(id, name, ty),
    }
}

fn output(operation: &str, binding: &str, ty: &str) -> CreatePattern {
    CreatePattern {
        operation: operation.to_string(),
        ty: ty.to_string(),
        binding: binding.to_string(),
        fields: Vec::new(),
        lock: None,
        output_index: 0,
    }
}

fn body(instructions: Vec<IrInstruction>, create_set: Vec<CreatePattern>) -> IrBody {
    IrBody {
        consume_set: Vec::new(),
        read_refs: Vec::new(),
        create_set,
        mutate_set: Vec::new(),
        write_intents: Vec::new(),
        blocks: vec![IrBlock { id: BlockId(0), instructions, terminator: IrTerminator::Return(None) }],
        cell_bindings: Vec::new(),
        bounded_collection_ops: Vec::new(),
        borrow_regions: Vec::new(),
        trusted_external_calls: Vec::new(),
    }
}

#[test]
fn dynamic_lengths_prefer_schema_pointers() {
    let mut g = generator();
    g.cell_buffer_size_offsets.insert(3, 300);
    g.fixed_byte_param_size_offsets.insert(3, 200);
    g.cell_buffer_size_offsets.insert(4, 400);
    let v3 = IrOperand::Var(var(3, "x", IrType::U64));
    let v4 = IrOperand::Var(var(4, "y", IrType::U64));
    assert_eq!(g.dynamic_length_from_size_offset(&v3), Some(200));
    assert_eq!(g.dynamic_length_from_size_offset(&v4), Some(400));
    g.schema_pointer_size_offsets.insert(3, 100);
    assert_eq!(g.dynamic_length_from_size_offset(&v3), Some(100));
    assert_eq!(g.dynamic_length_from_size_offset(&IrOperand::Const(IrConst::U64(1))), None);
}

#[test]
fn cell_locations_follow_lookup_order() {
    let mut g = generator();
    g.read_ref_param_dep_indices.insert(1, 7);
    g.read_ref_param_input_indices.insert(2, 6);
    g.read_ref_indices.insert(3, 5);
    g.operation_output_indices.insert(4, 4);
    g.consume_indices.insert(4, 3);
    let loc = |g: &CodeGenerator, id| g.operand_cell_location(&IrOperand::Var(var(id, "v", IrType::U64)));
    assert_eq!(loc(&g, 1), Some((3, 7)));
    assert_eq!(loc(&g, 2), Some((1, 6)));
    assert_eq!(loc(&g, 3), Some((3, 5)));
    assert_eq!(loc(&g, 4), Some((1, 3)));
    assert_eq!(loc(&g, 9), None);
}

#[test]
fn output_index_matches_operation_binding_and_type() {
    let b = body(
        Vec::new(),
        vec![output("create", "token", "Token"), output("transfer", "token", "Token"), output("transfer", "token", "Other")],
    );
    assert_eq!(CodeGenerator::create_output_index(&b, "transfer", "token", "Token"), Some(1));
    assert_eq!(CodeGenerator::create_output_index(&b, "transfer", "token", "Other"), Some(2));
    assert_eq!(CodeGenerator::create_output_index(&b, "claim", "token", "Token"), None);
    let dest = var(5, "token", IrType::Named("Token".to_string()));
    assert_eq!(CodeGenerator::create_output_index_for_dest(&b, "create", &dest), Some(0));
    let plain = var(5, "token", IrType::U64);
    assert_eq!(CodeGenerator::create_output_index_for_dest(&b, "create", &plain), None);
}

#[test]
fn runtime_bound_params_are_lock_args_refs_and_cells() {
    let mut g = generator();
    g.cell_type_names.insert("Token".to_string(), ());
    assert!(g.param_is_runtime_bound(&param("a", 1, IrType::U64, ParamSource::LockArgs, false)));
    assert!(g.param_is_runtime_bound(&param("b", 2, IrType::U64, ParamSource::Default, true)));
    assert!(g.param_is_runtime_bound(&param("c", 3, IrType::Named("Token".to_string()), ParamSource::Default, false)));
    assert!(!g.param_is_runtime_bound(&param("d", 4, IrType::Named("Config".to_string()), ParamSource::Default, false)));
    assert!(!g.param_is_runtime_bound(&param("e", 5, IrType::U64, ParamSource::Default, false)));
}

#[test]
fn schema_pointer_params_are_classified() {
    let mut g = generator();
    g.schema_pointer_vars.insert(99);
    let params = vec![
        param("cell", 1, IrType::Named("Token".to_string()), ParamSource::Default, false),
        param("hash", 2, IrType::Hash, ParamSource::Default, false),
        param("pair", 3, IrType::Tuple(vec![IrType::U64, IrType::U64]), ParamSource::Default, false),
        param("n", 4, IrType::U64, ParamSource::Default, false),
    ];
    g.set_schema_pointer_params(&params);
    assert_eq!(g.schema_pointer_vars.iter().copied().collect::<Vec<_>>(), vec![1]);
    assert_eq!(g.param_vars.iter().copied().collect::<Vec<_>>(), vec![1, 2, 3, 4]);
    let mut aggregates = g.aggregate_pointer_sources.keys().copied().collect::<Vec<_>>();
    aggregates.sort();
    assert_eq!(aggregates, vec![2, 3]);
    assert_eq!(g.aggregate_pointer_sources[&2].ty, IrType::Hash);
}

#[test]
fn read_refs_and_consumed_operands_become_schema_pointers() {
    let mut g = generator();
    g.cell_buffer_size_offsets.insert(1, 64);
    g.cell_buffer_size_offsets.insert(2, 128);
    let token = IrType::Named("Token".to_string());
    let b = body(
        vec![
            IrInstruction::ReadRef { dest: var(1, "config", token.clone()), ty: "Token".to_string() },
            IrInstruction::Consume { operand: IrOperand::Var(var(2, "old", token.clone())) },
            IrInstruction::ReadRef { dest: var(3, "other", token.clone()), ty: "Token".to_string() },
        ],
        Vec::new(),
    );
    g.set_read_ref_schema_pointers(&b);
    assert_eq!(g.schema_pointer_vars.iter().copied().collect::<Vec<_>>(), vec![1, 3]);
    assert_eq!(g.schema_pointer_size_offsets.get(&1), Some(&64));
    assert_eq!(g.schema_pointer_size_offsets.get(&3), None);
    g.set_consumed_schema_pointers(&b);
    assert_eq!(g.schema_pointer_vars.iter().copied().collect::<Vec<_>>(), vec![1, 2, 3]);
    assert_eq!(g.schema_pointer_size_offsets.get(&2), Some(&128));
    assert!(g.assembly.is_empty());
}

#[test]
fn call_length_args_fail_closed_without_known_lengths() {
    let mut g = generator();
    g.schema_pointer_size_offsets.insert(1, 40);
    let mut index = 0usize;
    let known = IrOperand::Var(var(1, "cell", IrType::U64));
    let untracked = IrOperand::Var(var(2, "bytes", IrType::U64));
    let constant = IrOperand::Const(IrConst::U64(3));
    assert!(g.emit_call_length_arg("f", "cell", &mut index, &known, CallLengthKind::Schema, 0));
    assert!(g.emit_call_length_arg("f", "bytes", &mut index, &untracked, CallLengthKind::FixedBytes, 0));
    assert!(g.emit_call_length_arg("f", "k", &mut index, &constant, CallLengthKind::FixedBytes, 0));
    assert!(g.emit_call_length_arg("f", "s", &mut index, &untracked, CallLengthKind::Schema, 0));
    assert_eq!(index, 4);
    let lines = &g.assembly;
    assert_eq!(lines.len(), 7);
    assert_eq!(lines[0], "    ld a0, 40(sp)");
    assert!(lines[1].starts_with("    # cellscript abi: call f fixed-byte param bytes has no "));
    assert!(lines[1].ends_with(" ABI length; pass zero length to fail closed"));
    assert_eq!(lines[2], "    li a1, 0");
    assert_eq!(
        lines[3],
        "    # cellscript abi: call f fixed-byte const param k has no materialized pointer; pass zero length to fail closed"
    );
    assert_eq!(lines[4], "    li a2, 0");
    assert!(lines[5].starts_with("    # cellscript abi: call f schema param s has no "));
    assert!(lines[5].ends_with(" ABI length; pass zero length to fail closed"));
    assert_eq!(lines[6], "    li a3, 0");
}

#[test]
fn call_type_hash_args_pass_recorded_words() {
    let mut g = generator();
    g.param_type_hash_pointer_offsets.insert(1, 16);
    g.param_type_hash_size_offsets.insert(1, 24);
    let mut index = 8usize;
    let known = IrOperand::Var(var(1, "cell", IrType::U64));
    assert!(g.emit_call_type_hash_pointer_arg("f", "cell", &mut index, &known, 16));
    assert!(g.emit_call_type_hash_length_arg("f", "cell", &mut index, &IrOperand::Const(IrConst::U64(0)), 16));
    assert_eq!(index, 10);
    assert_eq!(
        g.assembly,
        vec![
            "    ld t0, 16(sp)",
            "    # cellscript abi: stage outgoing stack arg8 at pre-call sp-16",
            "    sd t0, -16(sp)",
            "    # cellscript abi: call f schema param cell TypeHash length source is not a variable; pass zero length",
            "    li t0, 0",
            "    # cellscript abi: stage outgoing stack arg9 at pre-call sp-8",
            "    sd t0, -8(sp)",
        ]
    );
}

#[test]
fn dynamic_byte_comparison_checks_length_then_bytes() {
    let mut g = generator();
    g.dynamic_value_size_offsets.insert(1, 200);
    g.dynamic_value_size_offsets.insert(2, 208);
    let dest = var(3, "same", IrType::Bool);
    let left = IrOperand::Var(var(1, "a", IrType::U64));
    let right = IrOperand::Var(var(2, "b", IrType::U64));
    let other = IrOperand::Var(var(4, "c", IrType::U64));
    assert!(!g.emit_dynamic_byte_comparison(&dest, BinaryOp::Eq, &left, &other));
    assert!(g.assembly.is_empty());
    assert!(g.emit_dynamic_byte_comparison(&dest, BinaryOp::Ne, &left, &right));
    assert_eq!(
        g.assembly,
        vec![
            "    # binary Ne over dynamic byte operands",
            "    ld t0, 200(sp)",
            "    ld t1, 208(sp)",
            "    sub t2, t0, t1",
            "    beqz t2, .Ldynamic_bytes_len_equal_0",
            "    li t0, 1",
            "    sd t0, 24(sp)",
            "    j .Ldynamic_bytes_cmp_done_2",
            ".Ldynamic_bytes_len_equal_0:",
            "    ld a0, 8(sp)",
            "    ld a1, 16(sp)",
            "    ld a2, 200(sp)",
            "    call __cellscript_memcmp_fixed",
            "    beqz a0, .Ldynamic_bytes_equal_1",
            "    li t0, 1",
            "    sd t0, 24(sp)",
            "    j .Ldynamic_bytes_cmp_done_2",
            ".Ldynamic_bytes_equal_1:",
            "    li t0, 0",
            "    sd t0, 24(sp)",
            ".Ldynamic_bytes_cmp_done_2:",
        ]
    );
}

#[test]
fn output_fields_must_cover_the_schema() {
    let mut g = generator();
    let mut fields = NameMap::new();
    let layout = |index, offset| SchemaFieldLayout { index, offset, ty: IrType::U64, fixed_size: Some(8), fixed_enum_size: None };
    fields.insert("amount".to_string(), layout(0, 0));
    fields.insert("owner".to_string(), layout(1, 8));
    g.type_layouts.insert("Token".to_string(), fields);
    let value = IrOperand::Const(IrConst::U64(1));
    let mut pattern = output("create", "token", "Token");
    pattern.fields = vec![("amount".to_string(), value.clone())];
    assert!(!g.create_output_fields_cover_type(&pattern));
    pattern.fields.push(("owner".to_string(), value.clone()));
    assert!(g.create_output_fields_cover_type(&pattern));
    pattern.ty = "Unknown".to_string();
    assert!(!g.create_output_fields_cover_type(&pattern));
}

#[test]
fn verified_operation_outputs_use_recorded_or_virtual_index() {
    let mut g = generator();
    let recorded = var(2, "moved", IrType::Named("Token".to_string()));
    let virtual_dest = var(3, "claimed", IrType::Named("Token".to_string()));
    let unverified = var(4, "other", IrType::Named("Token".to_string()));
    g.verified_operation_outputs.insert(2);
    g.verified_operation_outputs.insert(3);
    g.operation_output_indices.insert(2, 5);
    assert!(!g.emit_verified_operation_output_handle(&unverified, "transfer"));
    assert!(g.emit_verified_operation_output_handle(&recorded, "transfer"));
    assert_eq!(g.next_virtual_output, 6);
    assert!(g.emit_verified_operation_output_handle(&virtual_dest, "claim"));
    assert_eq!(g.next_virtual_output, 7);
    assert_eq!(
        g.assembly,
        vec![
            "    # cellscript abi: transfer output relation verified by prelude Output#5",
            "    li t0, 5",
            "    sd t0, 16(sp)",
            "    # cellscript abi: claim output relation verified by prelude Output#6",
            "    li t0, 6",
            "    sd t0, 24(sp)",
        ]
    );
}

#[test]
fn load_data_arguments_and_tuples() {
    let mut g = generator();
    g.emit_store_data_args_at(512, 40, 48);
    g.emit_tuple(&var(2, "pair", IrType::Tuple(vec![IrType::U64, IrType::U64])), &[IrOperand::Const(IrConst::U64(1))]).unwrap();
    assert_eq!(
        g.assembly,
        vec![
            "    li t0, 512",
            "    sd t0, 40(sp)",
            "    addi a0, sp, 48",
            "    addi a1, sp, 40",
            "    li a2, 0",
            "    # cellscript abi: construct tuple aggregate var2 fields=1",
            "    sd zero, 16(sp)",
        ]
    );
}
