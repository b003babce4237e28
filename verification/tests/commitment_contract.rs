use cellscript::commitment_contract::{commitment_inner_type, commitment_type, opening_inner_type};

#[test]
fn recognizes_only_exact_unary_wrappers() {
    assert_eq!(commitment_inner_type("Commitment<State>").as_deref(), Some("State"));
    assert_eq!(opening_inner_type("Opening<[u8; 32]>").as_deref(), Some("[u8; 32]"));
    assert_eq!(commitment_inner_type("Commitment<State, Hash>"), None);
    assert_eq!(opening_inner_type("Opening<>"), None);
    assert_eq!(opening_inner_type("Other<State>"), None);
}

#[test]
fn commitment_type_round_trips_through_its_inner_type() {
    let wrapped = commitment_type("Vault");
    assert_eq!(wrapped, "Commitment<Vault>");
    assert_eq!(commitment_inner_type(&wrapped).as_deref(), Some("Vault"));
}

#[test]
fn nested_generic_arguments_are_not_top_level_commas() {
    assert_eq!(commitment_inner_type("Commitment<Map<K, V>>").as_deref(), Some("Map<K, V>"));
}
