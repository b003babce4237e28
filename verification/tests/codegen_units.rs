use std::collections::HashMap;

use cellscript::assembler::encode::encode_ecall;
use cellscript::assembler::syntax::{parse_immediate, parse_register};
use cellscript::codegen::generator::{CodeGenerator, CodegenOptions};
use cellscript::codegen::ir_facts::{collect_pure_const_returns, consumed_operand_var, first_entrypoint};
use cellscript::codegen::schema::{layout_fixed_byte_width, layout_fixed_scalar_width, SchemaFieldLayout};
use cellscript::codegen::widths::{
    constructed_byte_vector_part_width, fixed_aggregate_pointer_param_width, fixed_byte_pointer_param_width,
    fixed_register_width, fixed_scalar_const_value,
};
use cellscript::edition::{CellScriptEdition, EntryWitnessContract};
use cellscript::ir::{
    BlockId, IrAction, IrBlock, IrBody, IrConst, IrInstruction, IrItem, IrModule, IrOperand, IrParam, IrPureFn, IrTerminator,
    IrType, IrVar, ParamSource,
};

fn empty_body(blocks: Vec<IrBlock>) -> IrBody {
    IrBody {
        consume_set: vec![],
        read_refs: vec![],
        create_set: vec![],
        mutate_set: vec![],
        write_intents: vec![],
        blocks,
        cell_bindings: vec![],
        bounded_collection_ops: vec![],
        borrow_regions: vec![],
        trusted_external_calls: vec![],
    }
}

fn action(name: &str, params: Vec<IrParam>) -> IrItem {
    IrItem::Action(IrAction {
        name: name.to_string(),
        params,
        return_type: None,
        state_transition_edges: vec![],
        body: empty_body(vec![]),
    })
}

fn u64_param(name: &str, id: usize) -> IrParam {
    IrParam {
        name: name.to_string(),
        ty: IrType::U64,
        is_mut: false,
        is_ref: false,
        is_read_ref: false,
        source: ParamSource::Default,
        binding: IrVar { id, name: name.to_string(), ty: IrType::U64 },
    }
}

fn module(items: Vec<IrItem>) -> IrModule {
    IrModule { name: "m".to_string(), items, external_type_defs: vec![], enum_fixed_sizes: HashMap::new() }
}

#[test]
fn header_and_globals_open_the_assembly() {
    let mut generator = CodeGenerator::new(CodegenOptions::default());
    generator.emit_header();
    generator.emit_global("main");
    assert_eq!(
        generator.assembly,
        vec!["# CellScript Generated Assembly", "# opt_level=0, debug=false", ".option arch, +rv64imac", "", ".global main", ".type main, @function"]
    );
}

#[test]
fn registers_truncate_to_their_declared_width() {
    let mut generator = CodeGenerator::new(CodegenOptions::default());
    generator.emit_truncate_register_to_type("t0", &IrType::U8);
    generator.emit_truncate_register_to_type("t1", &IrType::U16);
    generator.emit_truncate_register_to_type("t2", &IrType::U64);
    generator.emit_stack_load_byte("t3", 5);
    assert_eq!(generator.assembly, vec!["    andi t0, t0, 255", "    slli t1, t1, 48", "    srli t1, t1, 48", "    lbu t3, 5(sp)"]);
}

#[test]
fn runtime_scratch_regions_sit_below_the_frame_top() {
    let mut generator = CodeGenerator::new(CodegenOptions::default());
    generator.frame_size = 16 + 1040 + 128 + 64;
    assert_eq!(generator.runtime_scratch_buffer_offset(), 200);
    assert_eq!(generator.runtime_scratch2_buffer_offset(), 720);
    assert_eq!(generator.runtime_expr_temp_offset(0), Some(64));
    assert_eq!(generator.runtime_expr_temp_offset(2), Some(80));
    assert_eq!(generator.runtime_expr_temp_offset(16), None);
}

#[test]
fn compatibility_profiles_name_edition_target_and_assurance() {
    let witness = EntryWitnessContract {
        payload_abi: "csargv1".to_string(),
        placement_abi: "witnessargs-input-type-v2".to_string(),
        placement_field: "input_type".to_string(),
        placement_source: "group_input".to_string(),
    };
    let profile = CellScriptEdition::Edition2026.resolve_compatibility_profile("ckb", None, &witness);
    assert_eq!(profile.id, "cellscript-edition-2026-ckb-witnessargs-input-type-v2-csargv1-default");
    assert_eq!(profile.primitive_assurance, "default");
    assert_eq!(profile.source_semantics, "cellscript-source-semantics-2026");
    assert_eq!(profile.target_profile, "ckb");
    assert_eq!(profile.entry_witness_placement_field, "input_type");
    assert!(!profile.raw_entry_witness_payload_compatible);
    let strict = CellScriptEdition::Edition2026.resolve_compatibility_profile("ckb", Some("strict"), &witness);
    assert_eq!(strict.id, "cellscript-edition-2026-ckb-witnessargs-input-type-v2-csargv1-strict");
}

#[test]
fn scalar_widths_and_constant_values() {
    assert_eq!(fixed_register_width(&IrType::U64, Some(8)), Some(8));
    assert_eq!(fixed_register_width(&IrType::U64, None), None);
    assert_eq!(fixed_register_width(&IrType::Hash, Some(32)), None);
    assert_eq!(fixed_scalar_const_value(&IrConst::Bool(true)), Some(1));
    assert_eq!(fixed_scalar_const_value(&IrConst::U32(7)), Some(7));
    assert_eq!(fixed_scalar_const_value(&IrConst::U128(7)), None);
    assert_eq!(constructed_byte_vector_part_width(&IrOperand::Const(IrConst::U16(3))), Some(2));
    let hash = IrOperand::Var(IrVar { id: 0, name: "h".to_string(), ty: IrType::Hash });
    assert_eq!(constructed_byte_vector_part_width(&hash), Some(32));
    assert_eq!(fixed_byte_pointer_param_width(&IrType::Hash), Some(32));
    assert_eq!(fixed_byte_pointer_param_width(&IrType::U64), None);
    assert_eq!(fixed_aggregate_pointer_param_width(&IrType::Array(Box::new(IrType::U64), 2)), Some(16));
    assert_eq!(fixed_aggregate_pointer_param_width(&IrType::Array(Box::new(IrType::U8), 4)), None);
    assert_eq!(fixed_aggregate_pointer_param_width(&IrType::U64), None);
}

#[test]
fn schema_layouts_report_scalar_and_byte_widths() {
    let scalar = SchemaFieldLayout { index: 0, offset: 0, ty: IrType::U32, fixed_size: Some(4), fixed_enum_size: None };
    assert_eq!(layout_fixed_scalar_width(&scalar), Some(4));
    let status = SchemaFieldLayout { index: 1, offset: 4, ty: IrType::Named("Status".to_string()), fixed_size: None, fixed_enum_size: Some(1) };
    assert_eq!(layout_fixed_scalar_width(&status), Some(1));
    let owner = SchemaFieldLayout { index: 2, offset: 5, ty: IrType::Hash, fixed_size: Some(32), fixed_enum_size: None };
    assert_eq!(layout_fixed_byte_width(&owner), Some(32));
    assert_eq!(layout_fixed_scalar_width(&owner), None);
}

#[test]
fn consumed_operands_are_named_cell_variables() {
    let token = IrVar { id: 3, name: "token".to_string(), ty: IrType::Named("Token".to_string()) };
    let consume = IrInstruction::Consume { operand: IrOperand::Var(token.clone()) };
    assert_eq!(consumed_operand_var(&consume), Some(&token));
    let plain = IrInstruction::Consume { operand: IrOperand::Var(IrVar { id: 4, name: "n".to_string(), ty: IrType::U64 }) };
    assert_eq!(consumed_operand_var(&plain), None);
    let claim = IrInstruction::Claim { dest: IrVar { id: 5, name: "out".to_string(), ty: IrType::U64 }, receipt: IrOperand::Var(token.clone()) };
    assert_eq!(consumed_operand_var(&claim), Some(&token));
    let load = IrInstruction::LoadConst { dest: IrVar { id: 6, name: "c".to_string(), ty: IrType::U64 }, value: IrConst::U64(1) };
    assert_eq!(consumed_operand_var(&load), None);
}

#[test]
fn entrypoint_prefers_main_then_parameterless_actions() {
    let with_main = module(vec![action("helper", vec![]), action("main", vec![u64_param("x", 0)])]);
    assert_eq!(first_entrypoint(&with_main).map(|(name, _)| name), Some("main"));
    let without_main = module(vec![action("transfer", vec![u64_param("x", 0)]), action("init", vec![])]);
    assert_eq!(first_entrypoint(&without_main).map(|(name, _)| name), Some("init"));
    let only_params = module(vec![action("transfer", vec![u64_param("x", 0)])]);
    let (name, params) = first_entrypoint(&only_params).expect("an action");
    assert_eq!((name, params.len()), ("transfer", 1));
    assert!(first_entrypoint(&module(vec![])).is_none());
}

#[test]
fn pure_functions_returning_constants_are_collected() {
    let constant = IrItem::PureFn(IrPureFn {
        name: "seven".to_string(),
        params: vec![],
        return_type: Some(IrType::U64),
        body: empty_body(vec![IrBlock {
            id: BlockId(0),
            instructions: vec![],
            terminator: IrTerminator::Return(Some(IrOperand::Const(IrConst::U64(7)))),
        }]),
    });
    let computed = IrItem::PureFn(IrPureFn {
        name: "echo".to_string(),
        params: vec![u64_param("x", 0)],
        return_type: Some(IrType::U64),
        body: empty_body(vec![IrBlock {
            id: BlockId(0),
            instructions: vec![],
            terminator: IrTerminator::Return(Some(IrOperand::Var(IrVar { id: 0, name: "x".to_string(), ty: IrType::U64 }))),
        }]),
    });
    let pure = collect_pure_const_returns(&module(vec![constant, computed, action("main", vec![])]));
    assert!(pure.contains_key("seven"));
    assert!(!pure.contains_key("echo"));
    assert_eq!(pure.entries.len(), 1);
    assert_eq!(pure.entries[0].1, IrConst::U64(7));
}

#[test]
fn immediates_and_registers_parse() {
    assert_eq!(parse_immediate("-2048"), Some(-2048));
    assert_eq!(parse_immediate("18446744073709551615"), Some(18446744073709551615));
    assert_eq!(parse_immediate("18446744073709551616"), None);
    assert_eq!(parse_immediate("12a"), None);
    assert_eq!(parse_register("zero"), Some(0));
    assert_eq!(parse_register("sp"), Some(2));
    assert_eq!(parse_register("a0"), Some(10));
    assert_eq!(parse_register("t6"), Some(31));
    assert_eq!(parse_register("x31"), Some(31));
    assert_eq!(parse_register("x32"), None);
    assert_eq!(encode_ecall(), 0x73);
}

#[test]
fn fresh_labels_on_one_generator_differ() {
    let mut g = CodeGenerator::new(CodegenOptions::default());
    let a = g.fresh_label("check");
    let b = g.fresh_label("check");
    let c = g.fresh_label("check_1");
    assert_eq!(a, ".Lcheck_0");
    assert_eq!(b, ".Lcheck_1");
    assert_eq!(c, ".Lcheck_1_2");
    assert_ne!(a, b);
    assert_ne!(b, c);
    assert_eq!(g.next_runtime_label, 3);
}

#[test]
fn emitted_lines_need_no_second_rewrite() {
    for instruction in ["ld a0, 4096(sp)", "sd t0, -4000(s1)", "addi sp, sp, -5000", "lbu a1, 12(a2)", "addi a0, a0, 8"] {
        let mut g = CodeGenerator::new(CodegenOptions::default());
        g.emit(instruction);
        for line in g.assembly.clone() {
            let body = line.trim_start().to_string();
            let mut again = CodeGenerator::new(CodegenOptions::default());
            again.emit(&body);
            assert_eq!(again.assembly, vec![format!("    {}", body)]);
        }
    }
    let mut g = CodeGenerator::new(CodegenOptions::default());
    g.emit("ld a0, 4096(sp)");
    assert_eq!(g.assembly, vec!["    li t6, 4096", "    add t6, sp, t6", "    ld a0, 0(t6)"]);
}
