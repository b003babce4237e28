use std::collections::HashMap;

use cellscript::codegen::{CodeGenerator, CodegenOptions};
use cellscript::ir::{
    BinaryOp, BlockId, CreatePattern, IrConst, IrField, IrInstruction, IrOperand, IrStateTransitionEdge, IrTerminator, IrType,
    IrTypeDef, IrVar,
};

#[test]
fn large_addi_avoids_clobbering_source_register() {
    let mut generator = CodeGenerator::new(CodegenOptions::default());
    generator.emit_large_addi("t0", "t6", 2048);
    generator.emit_large_addi("t6", "t6", 4096);

    assert_eq!(generator.assembly, vec!["    li t5, 2048", "    add t0, t6, t5", "    li t5, 4096", "    add t6, t6, t5",]);
}

#[test]
fn sp_addi_large_offsets_clobber_only_destination_register() {
    let mut generator = CodeGenerator::new(CodegenOptions::default());
    generator.emit_sp_addi("t4", 4096);
    generator.emit_sp_addi("t6", 8192);

    assert_eq!(generator.assembly, vec!["    li t4, 4096", "    add t4, sp, t4", "    li t6, 8192", "    add t6, sp, t6",]);
}

#[test]
fn unaligned_scalar_load_large_offsets_preserve_live_accumulator() {
    let mut generator = CodeGenerator::new(CodegenOptions::default());
    generator.emit_unaligned_scalar_load("t4", "t6", "t2", 2048, 2);

    assert_eq!(
        generator.assembly,
        vec![
            "    li t6, 0",
            "    li t5, 2048",
            "    add t5, t4, t5",
            "    lbu t2, 0(t5)",
            "    or t6, t6, t2",
            "    li t5, 2049",
            "    add t5, t4, t5",
            "    lbu t2, 0(t5)",
            "    slli t2, t2, 8",
            "    or t6, t6, t2",
        ]
    );
}

#[test]
fn generated_large_offsets_are_normalized_before_assembly() {
    let mut generator = CodeGenerator::new(CodegenOptions::default());
    generator.emit("sd t0, 2048(sp)");
    generator.emit("ld t6, 2056(sp)");
    generator.emit("lbu t2, 2048(t4)");
    generator.emit("addi t0, t4, 2048");
    generator.emit("sb t0, 4096(t6)");

    assert_eq!(
        generator.assembly,
        vec![
            "    li t6, 2048",
            "    add t6, sp, t6",
            "    sd t0, 0(t6)",
            "    li t5, 2056",
            "    add t5, sp, t5",
            "    ld t6, 0(t5)",
            "    li t6, 2048",
            "    add t6, t4, t6",
            "    lbu t2, 0(t6)",
            "    li t6, 2048",
            "    add t0, t4, t6",
            "    li t5, 4096",
            "    add t5, t6, t5",
            "    sb t0, 0(t5)",
        ]
    );
}

#[test]
fn state_transition_edges_use_explicit_consumed_binding() {
    let mut generator = CodeGenerator::new(CodegenOptions::default());
    generator.consume_order = vec![1, 2];
    generator.consume_type_names.insert(1, "Offer".to_string());
    generator.consume_type_names.insert(2, "Offer".to_string());
    generator.consume_binding_ids.insert("left".to_string(), 1);
    generator.consume_binding_ids.insert("right".to_string(), 2);

    let state_edge = IrStateTransitionEdge {
        input_binding: Some("right".to_string()),
        output_binding: None,
        ty_name: "Offer".to_string(),
        field_name: "state".to_string(),
        from: "Live".to_string(),
        to: "Filled".to_string(),
        from_index: 1,
        to_index: 2,
    };

    assert_eq!(generator.consumed_var_for_state_transition("Offer", &[state_edge]), Some(2));
}

#[test]
fn state_transition_without_explicit_binding_uses_first_consumed_of_its_type() {
    let mut generator = CodeGenerator::new(CodegenOptions::default());
    generator.consume_order = vec![3, 1, 2];
    generator.consume_type_names.insert(3, "Token".to_string());
    generator.consume_type_names.insert(1, "Offer".to_string());
    generator.consume_type_names.insert(2, "Offer".to_string());
    assert_eq!(generator.consumed_var_for_state_transition("Offer", &[]), Some(1));
    assert_eq!(generator.consumed_var_for_type("Token"), Some(3));
    assert_eq!(generator.consumed_var_for_type("Vault"), None);
}

#[test]
fn explicit_binding_of_another_type_is_not_used() {
    let mut generator = CodeGenerator::new(CodegenOptions::default());
    generator.consume_order = vec![1];
    generator.consume_type_names.insert(1, "Token".to_string());
    generator.consume_binding_ids.insert("left".to_string(), 1);
    let edge = IrStateTransitionEdge {
        input_binding: Some("left".to_string()),
        output_binding: None,
        ty_name: "Offer".to_string(),
        field_name: "state".to_string(),
        from: "Live".to_string(),
        to: "Filled".to_string(),
        from_index: 0,
        to_index: 1,
    };
    assert_eq!(generator.consumed_var_for_state_transition("Offer", &[edge]), None);
}

#[test]
fn prologue_and_epilogue_save_and_restore_the_frame() {
    let mut generator = CodeGenerator::new(CodegenOptions::default());
    generator.frame_size = 32;
    generator.emit_prologue();
    generator.emit_epilogue();
    assert_eq!(
        generator.assembly,
        vec![
            "    addi sp, sp, -32",
            "    sd ra, 24(sp)",
            "    sd fp, 16(sp)",
            "    addi fp, sp, 32",
            "    ld ra, 24(sp)",
            "    ld fp, 16(sp)",
            "    addi sp, sp, 32",
            "    ret",
        ]
    );
}

#[test]
fn epilogue_inside_a_function_jumps_to_its_shared_tail() {
    let mut generator = CodeGenerator::new(CodegenOptions::default());
    generator.current_function = Some("transfer".to_string());
    generator.emit_epilogue();
    assert_eq!(generator.assembly, vec!["    j .Ltransfer_epilogue"]);
}

#[test]
fn large_frames_go_through_a_scratch_register() {
    let mut generator = CodeGenerator::new(CodegenOptions::default());
    generator.frame_size = 4096;
    generator.emit_prologue();
    generator.emit_sp_store_signed("a0", -8);
    generator.emit_sp_store_signed("a0", 4096);
    assert_eq!(
        generator.assembly,
        vec![
            "    li t6, -4096",
            "    add sp, sp, t6",
            "    li t6, 4088",
            "    add t6, sp, t6",
            "    sd ra, 0(t6)",
            "    li t6, 4080",
            "    add t6, sp, t6",
            "    sd fp, 0(t6)",
            "    li fp, 4096",
            "    add fp, sp, fp",
            "    sd a0, -8(sp)",
            "    li t6, 4096",
            "    add t6, sp, t6",
            "    sd a0, 0(t6)",
        ]
    );
    assert_eq!(generator.call_abi_register(3), "a3");
    assert_eq!(generator.call_abi_register(8), "t0");
}

#[test]
fn type_ids_and_static_lengths() {
    let generator = CodeGenerator::new(CodegenOptions::default());
    assert_eq!(generator.type_id(&IrType::U8), 1);
    assert_eq!(generator.type_id(&IrType::Hash), 8);
    assert_eq!(generator.type_id(&IrType::Unit), 14);
    let array = IrType::Array(Box::new(IrType::U8), 20);
    assert_eq!(CodeGenerator::static_length_from_type(&IrType::Ref(Box::new(array.clone()))), Some(20));
    assert_eq!(CodeGenerator::static_length_from_type(&IrType::U64), None);
    let var = IrOperand::Var(IrVar { id: 1, name: "xs".to_string(), ty: array });
    assert_eq!(generator.static_length(&var), Some(20));
    assert_eq!(generator.static_length(&IrOperand::Const(IrConst::Array(vec![IrConst::U8(1), IrConst::U8(2)]))), Some(2));
    assert_eq!(generator.static_length(&IrOperand::Const(IrConst::U64(3))), None);
    assert!(generator.operand_is_u128(&IrOperand::Const(IrConst::U128(1))));
    assert!(generator.operand_is_u128(&IrOperand::Var(IrVar { id: 2, name: "w".to_string(), ty: IrType::U128 })));
    assert!(!generator.operand_is_u128(&IrOperand::Const(IrConst::U64(1))));
}

#[test]
fn named_widths_prefer_schemas_over_enums() {
    let mut generator = CodeGenerator::new(CodegenOptions::default());
    generator.type_fixed_sizes.insert("Token".to_string(), 40);
    generator.enum_fixed_sizes.insert("Token".to_string(), 1);
    generator.enum_fixed_sizes.insert("Status".to_string(), 1);
    let token = IrType::Named("Token".to_string());
    assert_eq!(generator.fixed_named_type_width(&token), Some(40));
    assert_eq!(generator.fixed_named_type_width(&IrType::MutRef(Box::new(IrType::Named("Status".to_string())))), Some(1));
    assert_eq!(generator.fixed_named_type_width(&IrType::Named("Other".to_string())), None);
    assert_eq!(generator.fixed_named_type_width(&IrType::U64), None);
}

#[test]
fn byte_constants_are_pooled_once_and_emitted_as_rodata() {
    let mut generator = CodeGenerator::new(CodegenOptions::default());
    generator.emit_const_data_pool();
    assert!(generator.assembly.is_empty());
    let first = generator.const_data_label_for_bytes(vec![1, 2]);
    let second = generator.const_data_label_for_bytes(vec![255]);
    let again = generator.const_data_label_for_bytes(vec![1, 2]);
    assert_eq!(first, "__cellscript_const_data_0");
    assert_eq!(second, "__cellscript_const_data_1");
    assert_eq!(again, first);
    generator.emit_const_data_pool();
    assert_eq!(
        generator.assembly,
        vec![
            ".section .rodata",
            "__cellscript_const_data_0:",
            "    .byte 1",
            "    .byte 2",
            "    .align 3",
            "__cellscript_const_data_1:",
            "    .byte 255",
            "    .align 3",
        ]
    );
    assert_eq!(generator.const_data_entries.len(), 2);
}

#[test]
fn const_bytes_are_stored_one_by_one() {
    let mut generator = CodeGenerator::new(CodegenOptions::default());
    generator.emit_store_const_bytes_to_stack(&[7, 9], 16);
    assert_eq!(generator.assembly, vec!["    li t0, 7", "    sb t0, 16(sp)", "    li t0, 9", "    sb t0, 17(sp)"]);
}

#[test]
fn operands_load_into_registers() {
    let mut generator = CodeGenerator::new(CodegenOptions::default());
    generator.emit_operand_to_register("a0", &IrOperand::Const(IrConst::U8(5)));
    generator.emit_operand_to_register("a1", &IrOperand::Const(IrConst::Bool(true)));
    generator.emit_operand_to_register("a2", &IrOperand::Var(IrVar { id: 3, name: "x".to_string(), ty: IrType::U64 }));
    generator.emit_operand_to_register("a3", &IrOperand::Const(IrConst::Hash([7; 32])));
    generator.emit_operand_to_register("a4", &IrOperand::Const(IrConst::Unit));
    assert_eq!(
        generator.assembly,
        vec!["    li a0, 5", "    li a1, 1", "    ld a2, 24(sp)", "    la a3, __cellscript_const_data_0", "    li a4, 0"]
    );
    assert_eq!(generator.const_data_entries, vec![("__cellscript_const_data_0".to_string(), vec![7u8; 32])]);
}

#[test]
fn operand_comments_name_what_they_show() {
    let mut generator = CodeGenerator::new(CodegenOptions::default());
    generator.emit_operand_comment("lhs", &IrOperand::Var(IrVar { id: 0, name: "amount".to_string(), ty: IrType::U64 }));
    generator.emit_operand_comment("rhs", &IrOperand::Const(IrConst::U64(42)));
    generator.emit_operand_comment("flag", &IrOperand::Const(IrConst::Bool(false)));
    generator.emit_operand_comment("key", &IrOperand::Const(IrConst::Array(vec![IrConst::U8(1); 3])));
    generator.emit_operand_comment("wide", &IrOperand::Const(IrConst::U128(9)));
    assert_eq!(
        generator.assembly,
        vec!["    #   lhs: amount", "    #   rhs: 42", "    #   flag: false", "    #   key: <array:3>", "    #   wide: <const>"]
    );
}

#[test]
fn create_patterns_follow_edges_of_their_type_and_binding() {
    let edge = |output: Option<&str>, ty: &str, to: &str| IrStateTransitionEdge {
        input_binding: Some("old".to_string()),
        output_binding: output.map(|b| b.to_string()),
        ty_name: ty.to_string(),
        field_name: "state".to_string(),
        from: "Open".to_string(),
        to: to.to_string(),
        from_index: 0,
        to_index: 1,
    };
    let mut generator = CodeGenerator::new(CodegenOptions::default());
    generator.current_state_transition_edges = vec![
        edge(Some("next"), "Order", "Filled"),
        edge(None, "Order", "Closed"),
        edge(Some("other"), "Order", "Cancelled"),
        edge(Some("next"), "Receipt", "Issued"),
    ];
    let pattern = CreatePattern {
        operation: "create".to_string(),
        ty: "Order".to_string(),
        binding: "next".to_string(),
        fields: vec![],
        lock: None,
        output_index: 0,
    };
    let edges = generator.state_transition_edges_for_pattern(&pattern);
    let targets = edges.iter().map(|e| e.to.as_str()).collect::<Vec<_>>();
    assert_eq!(targets, vec!["Filled", "Closed"]);
    assert_eq!(edges[1], generator.current_state_transition_edges[1]);
}

#[test]
fn type_descriptors_list_each_field() {
    let mut generator = CodeGenerator::new(CodegenOptions::default());
    let def = IrTypeDef {
        name: "Token".to_string(),
        fields: vec![
            IrField { name: "amount".to_string(), ty: IrType::U64 },
            IrField { name: "owner".to_string(), ty: IrType::Address },
        ],
    };
    assert!(generator.generate_type_def(&def).is_ok());
    assert_eq!(
        generator.assembly,
        vec![
            ".section .rodata",
            "__type_desc_Token:",
            "    .word 2",
            "    .byte 6",
            "    .ascii \"amount\"",
            "    .align 3",
            "    .word 4",
            "    .byte 5",
            "    .ascii \"owner\"",
            "    .align 3",
            "    .word 7",
        ]
    );
}

#[test]
fn incoming_arguments_spill_from_registers_or_the_caller_stack() {
    let mut generator = CodeGenerator::new(CodegenOptions::default());
    generator.emit_spill_abi_arg(2, 16);
    generator.emit_spill_abi_arg(9, 24);
    assert_eq!(
        generator.assembly,
        vec![
            "    sd a2, 16(sp)",
            "    # cellscript abi: arg9 loaded from caller stack +8",
            "    ld t0, 8(fp)",
            "    sd t0, 24(sp)",
        ]
    );
}

#[test]
fn outgoing_stack_arguments_are_staged_below_the_call_sp() {
    let mut generator = CodeGenerator::new(CodegenOptions::default());
    generator.emit_outgoing_call_stack_arg_store("a0", 3, 16);
    generator.emit_outgoing_call_stack_arg_store("t0", 8, 16);
    generator.emit_outgoing_call_stack_arg_store("t0", 10, 16);
    assert_eq!(
        generator.assembly,
        vec![
            "    # cellscript abi: stage outgoing stack arg8 at pre-call sp-16",
            "    sd t0, -16(sp)",
            "    # cellscript abi: stage outgoing stack arg10 at pre-call sp+0",
            "    sd t0, 0(sp)",
        ]
    );
}

#[test]
fn call_arguments_load_into_abi_registers() {
    let mut generator = CodeGenerator::new(CodegenOptions::default());
    let mut index = 0usize;
    assert!(generator.emit_call_scalar_arg("f", "x", &mut index, &IrOperand::Const(IrConst::U64(7)), 0));
    assert_eq!(index, 1);
    let mut stacked = 8usize;
    assert!(generator.emit_call_pointer_arg("f", "p", &mut stacked, &IrOperand::Const(IrConst::Hash([1; 32])), Some(32), 8));
    assert_eq!(stacked, 9);
    let var = IrOperand::Var(IrVar { id: 2, name: "h".to_string(), ty: IrType::Hash });
    assert!(generator.emit_call_pointer_arg("f", "q", &mut index, &var, Some(32), 0));
    assert_eq!(index, 2);
    assert_eq!(
        generator.assembly,
        vec![
            "    # cellscript abi: call f scalar x -> a0",
            "    li a0, 7",
            "    # cellscript abi: call f pointer param p uses a constant unsupported by the call ABI; pass null pointer",
            "    li t0, 0",
            "    # cellscript abi: stage outgoing stack arg8 at pre-call sp-8",
            "    sd t0, -8(sp)",
            "    ld a1, 16(sp)",
        ]
    );
}

#[test]
fn terminators_raise_the_highest_variable_id() {
    let generator = CodeGenerator::new(CodegenOptions::default());
    let mut max = None;
    generator.record_terminator_var(&IrTerminator::Jump(BlockId(3)), &mut max);
    assert_eq!(max, None);
    let ret = IrTerminator::Return(Some(IrOperand::Var(IrVar { id: 5, name: "r".to_string(), ty: IrType::U64 })));
    generator.record_terminator_var(&ret, &mut max);
    assert_eq!(max, Some(5));
    let branch = IrTerminator::Branch {
        cond: IrOperand::Var(IrVar { id: 2, name: "c".to_string(), ty: IrType::Bool }),
        then_block: BlockId(1),
        else_block: BlockId(2),
    };
    generator.record_terminator_var(&branch, &mut max);
    assert_eq!(max, Some(5));
    generator.record_terminator_var(&IrTerminator::Return(Some(IrOperand::Const(IrConst::U64(99)))), &mut max);
    assert_eq!(max, Some(5));
}

#[test]
fn stack_collections_expose_their_length_word() {
    let mut generator = CodeGenerator::new(CodegenOptions::default());
    generator.stack_collection_vars.insert(4);
    let items = IrOperand::Var(IrVar { id: 4, name: "items".to_string(), ty: IrType::U64 });
    let other = IrOperand::Var(IrVar { id: 5, name: "other".to_string(), ty: IrType::U64 });
    assert!(!generator.emit_stack_collection_length(&other));
    assert!(!generator.emit_stack_collection_clear(&IrOperand::Const(IrConst::U64(0))));
    assert!(!generator.emit_stack_collection_truncate(&other, &IrOperand::Const(IrConst::U64(1))));
    assert!(generator.assembly.is_empty());
    assert!(generator.emit_stack_collection_length(&items));
    assert!(generator.emit_stack_collection_clear(&items));
    assert!(generator.emit_stack_collection_truncate(&items, &IrOperand::Const(IrConst::U64(2))));
    assert_eq!(
        generator.assembly,
        vec![
            "    # cellscript abi: stack collection length",
            "    ld t4, 32(sp)",
            "    ld t0, -8(t4)",
            "    # cellscript abi: stack collection clear",
            "    ld t4, 32(sp)",
            "    sd zero, -8(t4)",
            "    # cellscript abi: stack collection truncate",
            "    ld t4, 32(sp)",
            "    ld t0, -8(t4)",
            "    li t1, 2",
            "    sltu t2, t0, t1",
            "    bnez t2, .Lstack_collection_truncate_done_0",
            "    sd t1, -8(t4)",
            ".Lstack_collection_truncate_done_0:",
        ]
    );
}

#[test]
fn instructions_raise_the_highest_variable_id() {
    let var = |id: usize| IrVar { id, name: format!("v{}", id), ty: IrType::U64 };
    let generator = CodeGenerator::new(CodegenOptions::default());
    let mut max = None;
    let add = IrInstruction::Binary {
        dest: var(3),
        op: BinaryOp::Add,
        left: IrOperand::Var(var(7)),
        right: IrOperand::Const(IrConst::U64(1)),
    };
    generator.record_instruction_var(&add, &mut max);
    assert_eq!(max, Some(7));
    let call = IrInstruction::Call {
        dest: None,
        func: "f".to_string(),
        args: vec![IrOperand::Var(var(2)), IrOperand::Var(var(11)), IrOperand::Const(IrConst::Bool(true))],
    };
    generator.record_instruction_var(&call, &mut max);
    assert_eq!(max, Some(11));
    // a field access counts its destination only
    let field = IrInstruction::FieldAccess { dest: var(4), obj: IrOperand::Var(var(40)), field: "amount".to_string() };
    generator.record_instruction_var(&field, &mut max);
    assert_eq!(max, Some(11));
    let tuple = IrInstruction::Tuple { dest: var(12), fields: vec![IrOperand::Var(var(1))] };
    let mut fresh = None;
    generator.record_instruction_var(&tuple, &mut fresh);
    assert_eq!(fresh, Some(12));
    generator.record_instruction_var(&IrInstruction::CollectionClear { collection: IrOperand::Var(var(30)) }, &mut fresh);
    assert_eq!(fresh, Some(30));
}

#[test]
fn wide_destinations_get_fixed_byte_locals() {
    let generator = CodeGenerator::new(CodegenOptions::default());
    let mut offsets: HashMap<usize, usize> = HashMap::new();
    let wide = IrInstruction::LoadConst { dest: IrVar { id: 1, name: "w".to_string(), ty: IrType::U128 }, value: IrConst::U128(5) };
    generator.record_instruction_fixed_byte_local(&wide, &mut offsets);
    let narrow = IrInstruction::LoadConst { dest: IrVar { id: 2, name: "n".to_string(), ty: IrType::U64 }, value: IrConst::U64(5) };
    generator.record_instruction_fixed_byte_local(&narrow, &mut offsets);
    let hash = IrInstruction::Call {
        dest: Some(IrVar { id: 3, name: "h".to_string(), ty: IrType::Hash }),
        func: "__ckb_hash_blake2b".to_string(),
        args: vec![],
    };
    generator.record_instruction_fixed_byte_local(&hash, &mut offsets);
    let other = IrInstruction::Call {
        dest: Some(IrVar { id: 4, name: "g".to_string(), ty: IrType::Hash }),
        func: "helper".to_string(),
        args: vec![],
    };
    generator.record_instruction_fixed_byte_local(&other, &mut offsets);
    generator.record_instruction_fixed_byte_local(&IrInstruction::CollectionClear { collection: IrOperand::Const(IrConst::Unit) }, &mut offsets);
    assert_eq!(offsets, HashMap::from([(1, 16), (3, 32)]));
}
