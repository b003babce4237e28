use cellscript::codegen::runtime::RuntimeFailure;
use cellscript::codegen::{CodeGenerator, CodegenOptions};
use cellscript::ir::{BlockId, IrConst, IrOperand, IrTerminator, IrType, IrVar, UnaryOp};

fn generator() -> CodeGenerator {
    CodeGenerator::new(CodegenOptions::default())
}

fn in_function(name: &str) -> CodeGenerator {
    let mut g = generator();
    g.current_function = Some(name.to_string());
    g
}

fn failure() -> RuntimeFailure {
    RuntimeFailure { code: 7, name: "numeric-invalid".to_string() }
}

fn var(id: usize, ty: IrType) -> IrVar {
    IrVar { id, name: format!("v{}", id), ty }
}

#[test]
fn fail_inside_function_jumps_to_shared_handler() {
    let mut g = in_function("act");
    g.emit_fail(&failure());
    assert_eq!(g.assembly, vec!["    j .Lact_fail_7"]);
    assert!(g.fail_handler_codes.contains(&7));
}

#[test]
fn fail_outside_function_returns_the_code() {
    let mut g = generator();
    g.emit_fail(&failure());
    assert_eq!(
        g.assembly,
        vec![
            "    # cellscript runtime error 7 numeric-invalid",
            "    li a0, 7",
            "    ld ra, 8(sp)",
            "    ld fp, 0(sp)",
            "    addi sp, sp, 16",
            "    ret",
        ]
    );
    assert!(g.fail_handler_codes.is_empty());
}

#[test]
fn scalar_fit_check_shifts_out_the_allowed_bits() {
    let mut g = in_function("f");
    g.emit_checked_scalar_fits("t0", 8, &failure());
    assert_eq!(
        g.assembly,
        vec!["    srli t2, t0, 8", "    beqz t2, .Lcast_fit_ok_0", "    j .Lf_fail_7", ".Lcast_fit_ok_0:"]
    );
    let mut wide = in_function("f");
    wide.emit_checked_scalar_fits("t0", 64, &failure());
    assert!(wide.assembly.is_empty());
    assert_eq!(wide.next_runtime_label, 0);
}

#[test]
fn divisor_guard_and_bool_check() {
    let mut g = in_function("f");
    g.emit_divisor_nonzero_guard("t1", &failure());
    g.emit_bool_canonical_check("t0", &failure());
    assert_eq!(
        g.assembly,
        vec![
            "    bnez t1, .Ldivisor_nonzero_0",
            "    j .Lf_fail_7",
            ".Ldivisor_nonzero_0:",
            "    beqz t0, .Lbool_canonical_ok_1",
            "    li t2, 1",
            "    beq t0, t2, .Lbool_canonical_ok_1",
            "    j .Lf_fail_7",
            ".Lbool_canonical_ok_1:",
        ]
    );
}

#[test]
fn unary_not_checks_then_flips() {
    let mut g = in_function("f");
    let dest = var(2, IrType::Bool);
    g.emit_unary(&dest, UnaryOp::Not, &IrOperand::Var(var(1, IrType::Bool)), &failure()).unwrap();
    assert_eq!(
        g.assembly,
        vec![
            "    ld t0, 8(sp)",
            "    beqz t0, .Lbool_canonical_ok_0",
            "    li t2, 1",
            "    beq t0, t2, .Lbool_canonical_ok_0",
            "    j .Lf_fail_7",
            ".Lbool_canonical_ok_0:",
            "    xori t0, t0, 1",
            "    sd t0, 16(sp)",
        ]
    );
}

#[test]
fn unary_negation_is_refused() {
    let mut g = in_function("f");
    let err = g.emit_unary(&var(2, IrType::U64), UnaryOp::Neg, &IrOperand::Const(IrConst::U64(1)), &failure()).unwrap_err();
    assert_eq!(err.message, "unary negation is not supported for unsigned integers");
    assert_eq!(g.assembly, vec!["    li t0, 1"]);
}

#[test]
fn unary_reference_is_a_copy() {
    let mut g = in_function("f");
    g.emit_unary(&var(3, IrType::U64), UnaryOp::Ref, &IrOperand::Var(var(1, IrType::U64)), &failure()).unwrap();
    assert_eq!(g.assembly, vec!["    ld t0, 8(sp)", "    # reference conversion (no-op in asm backend)", "    sd t0, 24(sp)"]);
}

#[test]
fn cast_to_u8_checks_and_masks() {
    let mut g = in_function("f");
    g.emit_cast(&var(2, IrType::U8), &IrOperand::Var(var(1, IrType::U64)), &failure()).unwrap();
    assert_eq!(
        g.assembly,
        vec![
            "    ld t0, 8(sp)",
            "    srli t2, t0, 8",
            "    beqz t2, .Lcast_fit_ok_0",
            "    j .Lf_fail_7",
            ".Lcast_fit_ok_0:",
            "    andi t0, t0, 255",
            "    sd t0, 16(sp)",
        ]
    );
}

#[test]
fn cast_to_u128_fails_closed() {
    let mut g = in_function("f");
    g.emit_cast(&var(2, IrType::U128), &IrOperand::Var(var(1, IrType::U64)), &failure()).unwrap();
    assert_eq!(
        g.assembly,
        vec!["    # cellscript abi: fail closed because runtime casts to u128 are not supported", "    j .Lf_fail_7"]
    );
}

#[test]
fn cast_to_u64_is_a_move() {
    let mut g = in_function("f");
    g.emit_cast(&var(2, IrType::U64), &IrOperand::Var(var(1, IrType::U32)), &failure()).unwrap();
    assert_eq!(g.assembly, vec!["    ld t0, 8(sp)", "    sd t0, 16(sp)"]);
    assert!(g.fail_handler_codes.is_empty());
}

#[test]
fn return_none_yields_zero() {
    let mut g = in_function("act");
    g.generate_terminator(&IrTerminator::Return(None), &failure()).unwrap();
    assert_eq!(g.assembly, vec!["    li a0, 0", "    j .Lact_epilogue"]);
}

#[test]
fn lock_return_checks_the_predicate() {
    let mut g = in_function("lk");
    g.current_lock_entry = true;
    g.generate_terminator(&IrTerminator::Return(Some(IrOperand::Var(var(1, IrType::Bool)))), &failure()).unwrap();
    assert_eq!(
        g.assembly,
        vec![
            "    ld a0, 8(sp)",
            "    bnez a0, .Llock_predicate_true_0",
            "    # cellscript runtime error 7 numeric-invalid",
            "    li a0, 7",
            "    j .Llk_epilogue",
            ".Llock_predicate_true_0:",
            "    li a0, 0",
            "    j .Llk_epilogue",
        ]
    );
}

#[test]
fn tuple_return_uses_argument_registers() {
    let mut g = in_function("f");
    g.tuple_aggregate_fields.insert(
        4,
        vec![IrOperand::Const(IrConst::U64(9)), IrOperand::Var(var(2, IrType::U64))],
    );
    g.generate_terminator(&IrTerminator::Return(Some(IrOperand::Var(var(4, IrType::U64)))), &failure()).unwrap();
    assert_eq!(
        g.assembly,
        vec![
            "    # cellscript abi: return tuple aggregate var4 fields=2",
            "    # cellscript abi: return tuple field .0 via a0",
            "    li a0, 9",
            "    # cellscript abi: return tuple field .1 via a1",
            "    ld a1, 16(sp)",
            "    j .Lf_epilogue",
        ]
    );
    assert_eq!(g.tuple_aggregate_fields.len(), 1);
}

#[test]
fn branches_on_constants_and_variables() {
    let mut g = generator();
    g.generate_terminator(&IrTerminator::Jump(BlockId(3)), &failure()).unwrap();
    g.generate_terminator(
        &IrTerminator::Branch { cond: IrOperand::Const(IrConst::U8(0)), then_block: BlockId(1), else_block: BlockId(2) },
        &failure(),
    )
    .unwrap();
    g.generate_terminator(
        &IrTerminator::Branch { cond: IrOperand::Var(var(5, IrType::Bool)), then_block: BlockId(1), else_block: BlockId(2) },
        &failure(),
    )
    .unwrap();
    assert_eq!(
        g.assembly,
        vec!["    j .Lfn_block_3", "    j .Lfn_block_2", "    ld t0, 40(sp)", "    beqz t0, .Lfn_block_2", "    j .Lfn_block_1"]
    );
}

#[test]
fn u128_branch_fails_closed() {
    let mut g = in_function("f");
    g.generate_terminator(
        &IrTerminator::Branch { cond: IrOperand::Var(var(5, IrType::U128)), then_block: BlockId(1), else_block: BlockId(2) },
        &failure(),
    )
    .unwrap();
    assert_eq!(
        g.assembly,
        vec!["    # cellscript abi: fail closed because u128 cannot be used as a branch condition", "    j .Lf_fail_7"]
    );
    assert!(g.fail_handler_codes.contains(&7));
}

#[test]
fn named_variables_load_and_store_through_their_slots() {
    let mut g = in_function("f");
    g.named_var_offsets.insert("x".to_string(), 48);
    g.emit_store_var("x", &IrOperand::Const(IrConst::U64(5)), &failure()).unwrap();
    g.emit_load_var(&var(2, IrType::U64), "x", &failure()).unwrap();
    assert_eq!(
        g.assembly,
        vec!["    # store var x", "    li t0, 5", "    sd t0, 48(sp)", "    # load var x", "    ld t0, 48(sp)", "    sd t0, 16(sp)"]
    );
}

#[test]
fn unallocated_named_variable_fails_closed() {
    let mut g = in_function("f");
    g.emit_load_var(&var(2, IrType::U64), "y", &failure()).unwrap();
    assert_eq!(
        g.assembly,
        vec![
            "    # load var y",
            "    # cellscript abi: fail closed because named variable slot was not allocated",
            "    j .Lf_fail_7",
        ]
    );
}

#[test]
fn consume_keeps_inputs_and_clears_locals() {
    let mut g = in_function("f");
    g.consume_indices.insert(1, 0);
    g.emit_consume(&IrOperand::Var(var(1, IrType::U64)), &failure()).unwrap();
    g.emit_consume(&IrOperand::Var(var(2, IrType::U64)), &failure()).unwrap();
    g.emit_consume(&IrOperand::Const(IrConst::U64(0)), &failure()).unwrap();
    assert_eq!(
        g.assembly,
        vec![
            "    # consume",
            "    # cellscript abi: consumed input pointer retained for verifier field checks",
            "    # consume",
            "    sd zero, 16(sp)",
            "    # consume",
            "    # cellscript abi: fail closed because consume operand is not a variable",
            "    j .Lf_fail_7",
        ]
    );
}

#[test]
fn small_constants_load_as_immediates() {
    let mut g = in_function("f");
    g.emit_load_const(&var(2, IrType::U64), &IrConst::U64(5), &failure()).unwrap();
    g.emit_load_const(&var(3, IrType::Bool), &IrConst::Bool(true), &failure()).unwrap();
    assert_eq!(g.assembly, vec!["    li t0, 5", "    sd t0, 16(sp)", "    li t0, 1", "    sd t0, 24(sp)"]);
}

#[test]
fn u128_constant_is_written_to_its_fixed_bytes() {
    let mut g = in_function("f");
    g.fixed_byte_local_offsets.insert(2, 32);
    g.emit_load_const(&var(2, IrType::U128), &IrConst::U128(0x0102), &failure()).unwrap();
    assert_eq!(g.assembly.len(), 34);
    assert_eq!(g.assembly[0], "    li t0, 2");
    assert_eq!(g.assembly[1], "    sb t0, 32(sp)");
    assert_eq!(g.assembly[2], "    li t0, 1");
    assert_eq!(g.assembly[3], "    sb t0, 33(sp)");
    assert_eq!(g.assembly[31], "    sb t0, 47(sp)");
    assert_eq!(g.assembly[32], "    addi t0, sp, 32");
    assert_eq!(g.assembly[33], "    sd t0, 16(sp)");
    assert!(g.const_data_entries.is_empty());
}

#[test]
fn byte_block_constants_come_from_the_pool() {
    let mut g = in_function("f");
    g.emit_load_const(&var(2, IrType::Hash), &IrConst::Hash([7u8; 32]), &failure()).unwrap();
    assert_eq!(g.assembly, vec!["    la t0, __cellscript_const_data_0", "    sd t0, 16(sp)"]);
    assert_eq!(g.const_data_entries.len(), 1);
    assert_eq!(g.const_data_entries[0].1, vec![7u8; 32]);
}

#[test]
fn unmaterializable_constant_fails_closed_and_stores_zero() {
    let mut g = in_function("f");
    g.emit_load_const(&var(2, IrType::U64), &IrConst::Array(vec![IrConst::U64(1)]), &failure()).unwrap();
    assert_eq!(
        g.assembly,
        vec![
            "    # cellscript abi: fail closed because fixed-byte constant bytes are not materializable",
            "    j .Lf_fail_7",
            "    li t0, 0",
            "    sd t0, 16(sp)",
        ]
    );
}

#[test]
fn syscall_error_check_jumps_on_nonzero() {
    let mut g = in_function("f");
    g.emit_return_on_syscall_error(&failure());
    assert_eq!(g.assembly, vec!["    beqz a0, .Lckb_syscall_ok_0", "    j .Lf_fail_7", ".Lckb_syscall_ok_0:"]);
}

#[test]
fn schema_size_checks_call_their_helpers() {
    let mut g = in_function("f");
    g.emit_loaded_schema_bounds_check(40, 12, "Token.amount", &failure());
    g.emit_loaded_schema_exact_size_check(40, 24, "Token", &failure());
    assert_eq!(
        g.assembly,
        vec![
            "    # cellscript abi: bounds check Token.amount required=12",
            "    ld a0, 40(sp)",
            "    li a1, 12",
            "    call __cellscript_require_min_size",
            "    beqz a0, .Lschema_bounds_ok_0",
            "    j .Lf_fail_7",
            ".Lschema_bounds_ok_0:",
            "    # cellscript abi: exact size check Token expected=24",
            "    ld a0, 40(sp)",
            "    li a1, 24",
            "    call __cellscript_require_exact_size",
            "    beqz a0, .Lschema_size_ok_1",
            "    j .Lf_fail_7",
            ".Lschema_size_ok_1:",
        ]
    );
}

#[test]
fn molecule_table_field_checks_header_total_start_and_end() {
    let mut g = in_function("f");
    g.emit_molecule_table_field_bounds_to_t5("t4", 40, 1, 8, "T.f", &failure());
    let a = &g.assembly;
    assert_eq!(a.len(), 52);
    assert_eq!(a[0], "    # cellscript abi: molecule table field T.f index=1 min_width=8");
    assert_eq!(a[1], "    # cellscript abi: bounds check T.f required=12");
    assert_eq!(a[8], "    ld a0, 40(sp)");
    assert_eq!(a[9], "    li t0, 0");
    assert_eq!(a[10], "    lbu t2, 0(t4)");
    assert_eq!(a[21], "    sub t2, t0, a0");
    assert_eq!(a[22], "    beqz t2, .Lmolecule_table_total_ok_1");
    assert_eq!(a[26], "    lbu t2, 8(t4)");
    assert_eq!(a[37], "    li t1, 12");
    assert_eq!(a[38], "    sltu t2, t5, t1");
    assert_eq!(a[39], "    beqz t2, .Lmolecule_table_start_ok_2");
    assert_eq!(a[42], "    li t1, 8");
    assert_eq!(a[43], "    add t3, t5, t1");
    assert_eq!(a[45], "    beqz t2, .Lmolecule_table_field_overflow_ok_3");
    assert_eq!(a[48], "    sltu t2, a0, t3");
    assert_eq!(a[49], "    beqz t2, .Lmolecule_table_end_ok_4");
    assert_eq!(a[51], ".Lmolecule_table_end_ok_4:");
    assert_eq!(g.next_runtime_label, 5);
}

#[test]
fn molecule_table_span_reads_both_offsets() {
    let mut g = in_function("f");
    g.emit_molecule_table_field_span_to_t5_t6("t4", 40, 0, 2, "T.v", &failure());
    let a = &g.assembly;
    assert_eq!(a.len(), 62);
    assert_eq!(a[0], "    # cellscript abi: molecule table dynamic field T.v index=0 field_count=2");
    assert_eq!(a[1], "    # cellscript abi: bounds check T.v required=12");
    assert_eq!(a[26], "    lbu t2, 4(t4)");
    assert_eq!(a[38], "    lbu t2, 8(t4)");
    assert_eq!(a[49], "    li t1, 12");
    assert_eq!(a[54], "    sltu t2, t6, t5");
    assert_eq!(a[55], "    beqz t2, .Lmolecule_table_order_ok_3");
    assert_eq!(a[58], "    sltu t2, a0, t6");
    assert_eq!(a[61], ".Lmolecule_table_end_ok_4:");
}

#[test]
fn molecule_table_last_field_ends_at_the_table_size() {
    let mut g = in_function("f");
    g.emit_molecule_table_field_span_to_t5_t6("t4", 40, 1, 2, "T.v", &failure());
    assert_eq!(g.assembly.len(), 51);
    assert_eq!(g.assembly[37], "    add t6, a0, zero");
}

fn token_layouts(g: &mut CodeGenerator) {
    let mut fields = cellscript::names::NameMap::new();
    fields.insert(
        "amount".to_string(),
        cellscript::codegen::schema::SchemaFieldLayout {
            index: 0,
            offset: 8,
            ty: IrType::U64,
            fixed_size: Some(8),
            fixed_enum_size: None,
        },
    );
    g.type_layouts.insert("Token".to_string(), fields);
    g.type_fixed_sizes.insert("Token".to_string(), 16);
}

#[test]
fn generic_field_access_checks_bounds_then_loads_the_scalar() {
    let mut g = in_function("f");
    token_layouts(&mut g);
    g.schema_pointer_size_offsets.insert(1, 40);
    let token = IrOperand::Var(var(1, IrType::Named("Token".to_string())));
    assert!(g.emit_generic_field_access(&var(2, IrType::U64), &token, "amount", &failure(), &failure()));
    let a = &g.assembly;
    assert_eq!(a.len(), 35);
    assert_eq!(a[0], "    # field access .amount");
    assert_eq!(a[1], "    # cellscript abi: generic field Token.amount offset=8 size=8");
    assert_eq!(a[2], "    # cellscript abi: bounds check Token.amount required=16");
    assert_eq!(a[3], "    ld a0, 40(sp)");
    assert_eq!(a[9], "    ld t4, 8(sp)");
    assert_eq!(a[10], "    li t0, 0");
    assert_eq!(a[11], "    lbu t2, 8(t4)");
    assert_eq!(a[34], "    sd t0, 16(sp)");
}

#[test]
fn generic_field_access_declines_unknown_fields() {
    let mut g = in_function("f");
    token_layouts(&mut g);
    let token = IrOperand::Var(var(1, IrType::Named("Token".to_string())));
    assert!(!g.emit_generic_field_access(&var(2, IrType::U64), &token, "missing", &failure(), &failure()));
    assert!(!g.emit_generic_field_access(&var(2, IrType::U64), &IrOperand::Const(IrConst::U64(1)), "amount", &failure(), &failure()));
    assert!(g.assembly.is_empty());
}

#[test]
fn fixed_aggregate_index_checks_the_parameter_length() {
    let mut g = in_function("f");
    let array = IrType::Array(Box::new(IrType::U64), 4);
    g.aggregate_pointer_sources.insert(1, cellscript::codegen::generator::AggregatePointerSource { ty: array.clone() });
    g.fixed_byte_param_size_offsets.insert(1, 48);
    let arr = IrOperand::Var(var(1, array));
    assert!(g.emit_fixed_aggregate_index(&var(2, IrType::U64), &arr, &IrOperand::Const(IrConst::U64(2)), &failure()));
    let a = &g.assembly;
    assert_eq!(a.len(), 42);
    assert_eq!(a[0], "    # index access [2]");
    assert_eq!(a[1], "    # cellscript abi: fixed aggregate index element_offset=16 element_size=8");
    assert_eq!(a[2], "    # cellscript abi: exact size check fixed aggregate param expected=32");
    assert_eq!(a[9], "    # cellscript abi: bounds check fixed aggregate index required=24");
    assert_eq!(a[16], "    ld t4, 8(sp)");
    assert_eq!(a[18], "    lbu t2, 16(t4)");
    assert_eq!(a[41], "    sd t0, 16(sp)");
}

#[test]
fn fixed_aggregate_index_declines_out_of_range() {
    let mut g = in_function("f");
    let array = IrType::Array(Box::new(IrType::U64), 4);
    g.aggregate_pointer_sources.insert(1, cellscript::codegen::generator::AggregatePointerSource { ty: array.clone() });
    let arr = IrOperand::Var(var(1, array));
    assert!(!g.emit_fixed_aggregate_index(&var(2, IrType::U64), &arr, &IrOperand::Const(IrConst::U64(4)), &failure()));
    assert!(g.assembly.is_empty());
}

#[test]
fn length_of_static_array_is_an_immediate() {
    let mut g = in_function("f");
    let arr = IrOperand::Var(var(1, IrType::Array(Box::new(IrType::U8), 5)));
    g.emit_length(&var(2, IrType::U64), &arr, &failure(), &failure()).unwrap();
    assert_eq!(g.assembly, vec!["    # length", "    li t0, 5", "    sd t0, 16(sp)"]);
}

#[test]
fn length_of_loaded_value_reads_its_size_word() {
    let mut g = in_function("f");
    g.schema_pointer_size_offsets.insert(1, 40);
    let token = IrOperand::Var(var(1, IrType::Named("Token".to_string())));
    g.emit_length(&var(2, IrType::U64), &token, &failure(), &failure()).unwrap();
    assert_eq!(
        g.assembly,
        vec![
            "    # length",
            "    # cellscript abi: dynamic length from size word at offset=40",
            "    ld t0, 40(sp)",
            "    sd t0, 16(sp)",
        ]
    );
}

#[test]
fn length_of_molecule_vector_checks_its_size() {
    let mut g = in_function("f");
    g.dynamic_value_size_offsets.insert(1, 48);
    let bytes = IrOperand::Var(var(1, IrType::Named("Vec<u8>".to_string())));
    g.emit_length(&var(2, IrType::U64), &bytes, &failure(), &failure()).unwrap();
    let a = &g.assembly;
    assert_eq!(a.len(), 31);
    assert_eq!(a[1], "    # cellscript abi: dynamic Molecule vector length element_size=1 size_offset=48");
    assert_eq!(a[2], "    # cellscript abi: bounds check dynamic Molecule vector length required=4");
    assert_eq!(a[9], "    ld t4, 8(sp)");
    assert_eq!(a[22], "    ld t1, 48(sp)");
    assert_eq!(a[23], "    li t2, 1");
    assert_eq!(a[24], "    mul t3, t0, t2");
    assert_eq!(a[25], "    addi t3, t3, 4");
    assert_eq!(a[26], "    sub t2, t1, t3");
    assert_eq!(a[27], "    beqz t2, .Lmolecule_vector_size_ok_1");
    assert_eq!(a[30], "    sd t0, 16(sp)");
}

#[test]
fn length_without_a_source_fails_closed() {
    let mut g = in_function("f");
    g.emit_length(&var(2, IrType::U64), &IrOperand::Var(var(1, IrType::U64)), &failure(), &failure()).unwrap();
    assert_eq!(
        g.assembly,
        vec!["    # length", "    # cellscript abi: fail closed because dynamic length is not available", "    j .Lf_fail_7"]
    );
}

#[test]
fn dynamic_index_checks_the_index_against_the_length() {
    let mut g = in_function("f");
    g.fixed_byte_param_size_offsets.insert(1, 48);
    let arr = IrOperand::Var(var(1, IrType::Array(Box::new(IrType::U64), 4)));
    let idx = IrOperand::Var(var(3, IrType::U64));
    assert!(g.emit_dynamic_index_access(&var(2, IrType::U64), &arr, &idx, &failure()));
    let a = &g.assembly;
    assert_eq!(a.len(), 44);
    assert_eq!(a[0], "    # index access");
    assert_eq!(a[1], "    # cellscript abi: dynamic index element_size=8");
    assert_eq!(a[2], "    # cellscript abi: exact size check dynamic index aggregate expected=32");
    assert_eq!(a[9], "    ld t4, 8(sp)");
    assert_eq!(a[10], "    ld t1, 24(sp)");
    assert_eq!(a[11], "    li t2, 4");
    assert_eq!(a[12], "    sltu t3, t1, t2");
    assert_eq!(a[13], "    bnez t3, .Lidx_bounds_ok_1");
    assert_eq!(a[16], "    li t2, 8");
    assert_eq!(a[17], "    mul t1, t1, t2");
    assert_eq!(a[18], "    add t4, t4, t1");
    assert_eq!(a[43], "    sd t0, 16(sp)");
}

#[test]
fn dynamic_index_of_nested_arrays_yields_an_address() {
    let mut g = in_function("f");
    let arr = IrOperand::Var(var(1, IrType::Array(Box::new(IrType::Array(Box::new(IrType::U8), 2)), 3)));
    assert!(g.emit_dynamic_index_access(&var(2, IrType::U64), &arr, &IrOperand::Const(IrConst::U8(1)), &failure()));
    assert_eq!(
        g.assembly,
        vec![
            "    # index access",
            "    # cellscript abi: dynamic index element_size=2",
            "    ld t4, 8(sp)",
            "    li t1, 1",
            "    li t2, 3",
            "    sltu t3, t1, t2",
            "    bnez t3, .Lidx_bounds_ok_0",
            "    j .Lf_fail_7",
            ".Lidx_bounds_ok_0:",
            "    li t2, 2",
            "    mul t1, t1, t2",
            "    add t0, t4, t1",
            "    sd t0, 16(sp)",
        ]
    );
    assert!(!g.emit_dynamic_index_access(&var(2, IrType::U64), &IrOperand::Const(IrConst::U8(1)), &IrOperand::Const(IrConst::U8(1)), &failure()));
}

#[test]
fn molecule_vector_index_checks_size_and_index() {
    let mut g = in_function("f");
    g.dynamic_value_size_offsets.insert(1, 48);
    let bytes = IrOperand::Var(var(1, IrType::Named("Vec<u8>".to_string())));
    let idx = IrOperand::Var(var(3, IrType::U64));
    assert!(g.emit_dynamic_molecule_vector_index(&var(2, IrType::U8), &bytes, &idx, &failure()));
    let a = &g.assembly;
    assert_eq!(a.len(), 43);
    assert_eq!(a[1], "    # cellscript abi: dynamic Molecule vector index element_size=1 size_offset=48");
    assert_eq!(a[2], "    # cellscript abi: bounds check dynamic Molecule vector index required=4");
    assert_eq!(a[22], "    ld t3, 48(sp)");
    assert_eq!(a[26], "    sub t2, t3, t5");
    assert_eq!(a[27], "    beqz t2, .Lmolecule_vector_index_size_ok_1");
    assert_eq!(a[30], "    ld t1, 24(sp)");
    assert_eq!(a[31], "    sltu t2, t1, t0");
    assert_eq!(a[32], "    bnez t2, .Lmolecule_vector_index_bounds_ok_2");
    assert_eq!(a[37], "    addi t1, t1, 4");
    assert_eq!(a[38], "    add t4, t4, t1");
    assert_eq!(a[40], "    lbu t2, 0(t4)");
    assert_eq!(a[42], "    sd t0, 16(sp)");
}
