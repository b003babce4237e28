use cellscript::codegen::ir_facts::{
    const_ir_type, destroy_policy_uses_output_absence_scan, destruction_policy_label, identity_policy_label,
};
use cellscript::codegen::schema::{aggregate_field_layout, parse_index, tuple_return_field_type};
use cellscript::codegen::widths::{
    const_usize_operand, fixed_byte_const_bytes, fixed_byte_width, fixed_scalar_width, molecule_inline_type_fixed_width,
    molecule_vector_element_fixed_width, type_static_length,
};
use cellscript::ir::{IrConst, IrDestructionPolicy, IrIdentityPolicy, IrOperand, IrType};
use cellscript::names::NameMap;

#[test]
fn static_lengths_of_nested_aggregates() {
    let ty = IrType::Tuple(vec![IrType::U64, IrType::Array(Box::new(IrType::U8), 3), IrType::Hash]);
    assert_eq!(type_static_length(&ty), Some(8 + 3 + 32));
    assert_eq!(type_static_length(&IrType::Named("Token".to_string())), None);
    assert_eq!(type_static_length(&IrType::Tuple(vec![IrType::U8, IrType::Named("X".to_string())])), None);
    assert_eq!(type_static_length(&IrType::Ref(Box::new(IrType::U128))), Some(16));
}

#[test]
fn scalar_and_byte_widths_need_matching_sizes() {
    assert_eq!(fixed_scalar_width(&IrType::U32, Some(4)), Some(4));
    assert_eq!(fixed_scalar_width(&IrType::U32, Some(8)), None);
    assert_eq!(fixed_byte_width(&IrType::Address, Some(32)), Some(32));
    assert_eq!(fixed_byte_width(&IrType::Array(Box::new(IrType::U8), 20), Some(20)), Some(20));
    assert_eq!(fixed_byte_width(&IrType::Array(Box::new(IrType::U16), 20), Some(20)), None);
    assert_eq!(fixed_byte_width(&IrType::Ref(Box::new(IrType::Hash)), None), Some(32));
}

#[test]
fn molecule_widths_read_declared_sizes() {
    let mut structs = NameMap::new();
    structs.insert("Pair".to_string(), 16usize);
    let enums = NameMap::new();
    assert_eq!(molecule_inline_type_fixed_width(" u64 ", &structs, &enums), Some(8));
    assert_eq!(molecule_inline_type_fixed_width("Pair", &structs, &enums), Some(16));
    assert_eq!(molecule_inline_type_fixed_width("Other", &structs, &enums), None);
    assert_eq!(molecule_vector_element_fixed_width(&IrType::Named("Vec<Pair>".to_string()), &structs, &enums), Some(16));
    assert_eq!(molecule_vector_element_fixed_width(&IrType::Named("String".to_string()), &structs, &enums), Some(1));
    assert_eq!(molecule_vector_element_fixed_width(&IrType::Named("Pair".to_string()), &structs, &enums), None);
}

#[test]
fn constants_give_bytes_values_and_types() {
    assert_eq!(fixed_byte_const_bytes(&IrConst::U128(0x0102)), Some(vec![2, 1, 0, 0, 0, 0, 0, 0, 0, 0, 0, 0, 0, 0, 0, 0]));
    assert_eq!(fixed_byte_const_bytes(&IrConst::Array(vec![IrConst::U8(7), IrConst::U8(9)])), Some(vec![7, 9]));
    assert_eq!(fixed_byte_const_bytes(&IrConst::Array(vec![IrConst::U8(7), IrConst::U16(9)])), None);
    assert_eq!(const_usize_operand(&IrOperand::Const(IrConst::U16(300))), Some(300));
    assert_eq!(const_usize_operand(&IrOperand::Const(IrConst::Bool(true))), None);
    assert_eq!(const_ir_type(&IrConst::Array(vec![IrConst::U16(1), IrConst::U16(2)])), IrType::Array(Box::new(IrType::U16), 2));
    assert_eq!(const_ir_type(&IrConst::Array(vec![])), IrType::Array(Box::new(IrType::U8), 0));
}

#[test]
fn policy_labels_name_their_parameters() {
    assert_eq!(identity_policy_label(&IrIdentityPolicy::Field("owner".to_string())), "field(owner)");
    assert_eq!(identity_policy_label(&IrIdentityPolicy::NoIdentity), "none");
    assert_eq!(destruction_policy_label(&IrDestructionPolicy::BurnAmount { field: "amount".to_string() }), "burn_amount(amount)");
    assert!(destroy_policy_uses_output_absence_scan(&IrDestructionPolicy::Unique { identity: "type_id".to_string() }));
    assert!(!destroy_policy_uses_output_absence_scan(&IrDestructionPolicy::Instance { identity_field: "id".to_string() }));
}

#[test]
fn tuple_fields_have_offsets_after_earlier_items() {
    let ty = IrType::Tuple(vec![IrType::U8, IrType::U64, IrType::Address]);
    let layout = aggregate_field_layout(&ty, "2").expect("field 2");
    assert_eq!((layout.index, layout.offset, layout.fixed_size), (2, 9, Some(32)));
    assert!(aggregate_field_layout(&ty, "3").is_none());
    assert!(aggregate_field_layout(&IrType::Hash, "0").is_some());
    assert_eq!(tuple_return_field_type(&ty, "+1"), Some(IrType::U64));
    assert_eq!(parse_index("007"), Some(7));
    assert_eq!(parse_index("+"), None);
    assert_eq!(parse_index("-1"), None);
}
