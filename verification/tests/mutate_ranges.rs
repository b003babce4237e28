use cellscript::codegen::mutate::{merge_ranges, sort_ranges};
use cellscript::codegen::schema::SchemaFieldLayout;
use cellscript::codegen::{CodeGenerator, CodegenOptions};
use cellscript::ir::{IrConst, IrOperand, IrType, MutateFieldTransition, MutatePattern, MutateTransitionOp};
use cellscript::names::NameMap;

fn layout(index: usize, offset: usize, ty: IrType, size: usize) -> SchemaFieldLayout {
    SchemaFieldLayout { index, offset, ty, fixed_size: Some(size), fixed_enum_size: None }
}

fn pool_generator() -> CodeGenerator {
    let mut g = CodeGenerator::new(CodegenOptions::default());
    g.type_fixed_sizes.insert("Pool".to_string(), 40);
    let mut fields = NameMap::new();
    fields.insert("a".to_string(), layout(0, 0, IrType::U64, 8));
    fields.insert("b".to_string(), layout(1, 8, IrType::U64, 8));
    fields.insert("c".to_string(), layout(2, 16, IrType::U32, 4));
    fields.insert("d".to_string(), layout(3, 32, IrType::U64, 8));
    g.type_layouts.insert("Pool".to_string(), fields);
    g
}

fn pattern(fields: &[&str]) -> MutatePattern {
    let value = IrOperand::Const(IrConst::U64(1));
    MutatePattern {
        operation: "mutate".to_string(),
        ty: "Pool".to_string(),
        binding: "pool".to_string(),
        input_index: 0,
        output_index: 0,
        fields: fields.iter().map(|f| (f.to_string(), value.clone())).collect(),
        transitions: fields
            .iter()
            .map(|f| MutateFieldTransition { field: f.to_string(), op: MutateTransitionOp::Add, operand: value.clone() })
            .collect(),
        preserved_fields: Vec::new(),
    }
}

#[test]
fn exclusion_ranges_merge_adjacent_fields() {
    let g = pool_generator();
    assert_eq!(g.mutate_transition_exclusion_ranges(&pattern(&["d", "b", "a"])), Some(vec![(0, 16), (32, 40)]));
    assert_eq!(g.mutate_transition_exclusion_ranges(&pattern(&["c", "a"])), Some(vec![(0, 8), (16, 20)]));
    assert_eq!(g.mutate_transition_exclusion_ranges(&pattern(&[])), Some(vec![]));
}

#[test]
fn exclusion_ranges_need_known_fields() {
    let g = pool_generator();
    assert_eq!(g.mutate_transition_exclusion_ranges(&pattern(&["a", "missing"])), None);
    let mut uneven = pattern(&["a"]);
    uneven.fields.clear();
    assert_eq!(g.mutate_transition_exclusion_ranges(&uneven), None);
    let mut other = pattern(&["a"]);
    other.ty = "Other".to_string();
    assert_eq!(g.mutate_transition_exclusion_ranges(&other), None);
}

#[test]
fn exclusion_ranges_stay_inside_scratch_buffer() {
    let mut g = pool_generator();
    let mut fields = NameMap::new();
    fields.insert("tail".to_string(), layout(0, 508, IrType::U64, 8));
    g.type_layouts.insert("Pool".to_string(), fields);
    assert_eq!(g.mutate_transition_exclusion_ranges(&pattern(&["tail"])), None);
    g.type_fixed_sizes.insert("Pool".to_string(), 513);
    assert_eq!(g.mutate_transition_exclusion_ranges(&pattern(&[])), None);
}

#[test]
fn ranges_sort_by_start_and_merge_overlaps() {
    let ranges = vec![(10, 12), (0, 4), (3, 6), (6, 8), (20, 20), (11, 15)];
    let sorted = sort_ranges(&ranges);
    assert_eq!(sorted.iter().map(|r| r.0).collect::<Vec<_>>(), vec![0, 3, 6, 10, 11, 20]);
    assert_eq!(merge_ranges(&sorted), vec![(0, 8), (10, 15)]);
    assert_eq!(merge_ranges(&Vec::new()), Vec::<(usize, usize)>::new());
}
