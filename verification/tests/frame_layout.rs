use cellscript::codegen::frame::align_frame;
use cellscript::codegen::{CodeGenerator, CodegenOptions};
use cellscript::ir::{
    BlockId, CellPattern, IrBlock, IrBody, IrConst, IrInstruction, IrOperand, IrParam, IrTerminator, IrType, IrVar,
    ParamSource,
};

fn generator() -> CodeGenerator {
    CodeGenerator::new(CodegenOptions::default())
}

fn var(id: usize, name: &str, ty: IrType) -> IrVar {
    IrVar { id, name: name.to_string(), ty }
}

fn param(name: &str, id: usize, ty: IrType, source: ParamSource) -> IrParam {
    IrParam {
        name: name.to_string(),
        ty: ty.clone(),
        is_mut: false,
        is_ref: false,
        is_read_ref: false,
        source,
        binding: var(id, name, ty),
    }
}

fn body(instructions: Vec<IrInstruction>) -> IrBody {
    IrBody {
        consume_set: Vec::new(),
        read_refs: Vec::new(),
        create_set: Vec::new(),
        mutate_set: Vec::new(),
        write_intents: Vec::new(),
        blocks: vec![IrBlock { id: BlockId(0), instructions, terminator: IrTerminator::Return(None) }],
        cell_bindings: Vec::new(),
        bounded_collection_ops: Vec::new(),
        borrow_regions: Vec::new(),
        trusted_external_calls: Vec::new(),
    }
}

#[test]
fn align_frame_rounds_up_to_sixteen() {
    assert_eq!(align_frame(0), 0);
    assert_eq!(align_frame(1), 16);
    assert_eq!(align_frame(16), 16);
    assert_eq!(align_frame(1192), 1200);
}

#[test]
fn empty_body_frame_is_the_reserve() {
    let mut g = generator();
    g.prepare_function_layout(&body(Vec::new()), &[]).unwrap();
    assert_eq!(g.collection_region_start, 0);
    assert_eq!(g.next_collection_slot, 0);
    assert_eq!(g.frame_size, 1184);
}

#[test]
fn locals_then_output_cell_then_collections() {
    let mut g = generator();
    let instructions = vec![
        IrInstruction::LoadConst { dest: var(1, "x", IrType::U64), value: IrConst::U64(7) },
        IrInstruction::CollectionNew { dest: var(2, "v", IrType::U64), ty: "u8".to_string(), capacity: None },
    ];
    let params = vec![param("out", 0, IrType::Named("Token".to_string()), ParamSource::Output)];
    g.prepare_function_layout(&body(instructions), &params).unwrap();
    // Three variables take 24 bytes; the output cell's size word follows,
    // with its buffer right after.
    assert_eq!(g.cell_buffer_size_offsets.get(&0), Some(&24));
    assert_eq!(g.cell_buffer_offsets.get(&0), Some(&32));
    assert_eq!(g.schema_pointer_size_offsets.get(&0), Some(&24));
    assert_eq!(g.output_param_ids.get("out"), Some(0));
    assert_eq!(g.collection_region_start, 24 + 520);
    // One collection slot of 264 bytes, then the 1184-byte reserve.
    assert_eq!(g.frame_size, align_frame(544 + 264 + 1184));
    assert_eq!(g.frame_size, 2000);
}

#[test]
fn wide_locals_then_named_variables_in_name_order() {
    let mut g = generator();
    let instructions = vec![
        IrInstruction::LoadConst { dest: var(3, "w", IrType::U128), value: IrConst::U64(1) },
        IrInstruction::StoreVar { name: "zeta".to_string(), src: IrOperand::Const(IrConst::U64(1)) },
        IrInstruction::StoreVar { name: "alpha".to_string(), src: IrOperand::Const(IrConst::U64(2)) },
        IrInstruction::StoreVar { name: "zeta".to_string(), src: IrOperand::Const(IrConst::U64(3)) },
    ];
    g.prepare_function_layout(&body(instructions), &[]).unwrap();
    // Four variable slots (ids 0..=3), then the 16-byte u128 local.
    assert_eq!(g.fixed_byte_local_offsets.get(&3), Some(&32));
    assert_eq!(g.named_var_offsets.get("alpha"), Some(48));
    assert_eq!(g.named_var_offsets.get("zeta"), Some(56));
    assert_eq!(g.collection_region_start, 64);
    assert_eq!(g.frame_size, align_frame(64 + 1184));
}

#[test]
fn consumed_and_read_cells_get_buffers_in_order() {
    let mut g = generator();
    let token = IrType::Named("Token".to_string());
    let mut b = body(vec![
        IrInstruction::ReadRef { dest: var(2, "cfg", IrType::Named("Config".to_string())), ty: "Config".to_string() },
        IrInstruction::ReadRef { dest: var(3, "cfg2", IrType::Named("Config".to_string())), ty: "Config".to_string() },
    ]);
    b.consume_set.push(CellPattern {
        operation: "consume".to_string(),
        type_hash: None,
        binding: "t".to_string(),
        fields: Vec::new(),
        destruction_policy: None,
    });
    let params = vec![param("t", 0, token, ParamSource::Default)];
    g.prepare_function_layout(&b, &params).unwrap();
    // Variable slots 0..=3 take 32 bytes; the schema parameter's size word
    // is at 32; the consumed cell's slot starts at 40.
    assert_eq!(g.schema_pointer_size_offsets.get(&0), Some(&40));
    assert_eq!(g.cell_buffer_size_offsets.get(&0), Some(&40));
    assert_eq!(g.consume_order, vec![0]);
    assert_eq!(g.consume_indices.get(&0), Some(&0));
    assert_eq!(g.cell_buffer_size_offsets.get(&2), Some(&560));
    assert_eq!(g.cell_buffer_size_offsets.get(&3), Some(&1080));
    assert_eq!(g.read_ref_order, vec![2, 3]);
    assert_eq!(g.read_ref_indices.get(&3), Some(&1));
    assert_eq!(g.collection_region_start, 1600);
}

#[test]
fn consumed_schema_params_use_loaded_cell_size_for_field_checks() {
    let mut generator = CodeGenerator::new(CodegenOptions::default());
    let binding = IrVar { id: 0, name: "auth".to_string(), ty: IrType::Named("MintAuthority".to_string()) };
    let params = vec![IrParam {
        name: "auth".to_string(),
        ty: binding.ty.clone(),
        is_mut: false,
        is_ref: false,
        is_read_ref: false,
        source: ParamSource::Default,
        binding: binding.clone(),
    }];
    let mut body = body(Vec::new());
    body.blocks = Vec::new();
    body.consume_set = vec![CellPattern {
        operation: "input".to_string(),
        type_hash: None,
        binding: "auth".to_string(),
        fields: Vec::new(),
        destruction_policy: None,
    }];

    assert!(generator.prepare_function_layout(&body, &params).is_ok());

    let loaded_size_offset =
        generator.cell_buffer_size_offsets.get(&binding.id).copied().expect("consumed input should have size slot");
    assert_eq!(generator.schema_pointer_size_offsets.get(&binding.id), Some(&loaded_size_offset));
    assert_eq!(loaded_size_offset, 16);
    assert_eq!(generator.cell_buffer_offsets.get(&0), Some(&24));
    assert_eq!(generator.consume_order, vec![0]);
    assert_eq!(generator.consume_indices.get(&0), Some(&0));
    assert_eq!(generator.collection_region_start, 536);
    assert_eq!(generator.frame_size, align_frame(1720));
}

#[test]
fn mutate_pattern_names_its_parameter() {
    let mut g = generator();
    let token = IrType::Named("Token".to_string());
    let mut b = body(Vec::new());
    b.mutate_set.push(cellscript::ir::MutatePattern {
        operation: "mutate".to_string(),
        ty: "Token".to_string(),
        binding: "t".to_string(),
        input_index: 2,
        output_index: 0,
        fields: Vec::new(),
        transitions: Vec::new(),
        preserved_fields: Vec::new(),
    });
    let params = vec![param("t", 0, token, ParamSource::Default)];
    g.prepare_function_layout(&b, &params).unwrap();
    assert_eq!(g.mutate_param_ids.get("t"), Some(0));
    assert_eq!(g.consume_indices.get(&0), Some(&2));
}
