use cellscript::edition::{parse_edition, CellScriptEdition, CURRENT_EDITION};

#[test]
fn only_edition_2026_is_accepted() {
    assert_eq!("2026".parse::<CellScriptEdition>().unwrap(), CellScriptEdition::Edition2026);
    assert!("unsupported".parse::<CellScriptEdition>().unwrap_err().message.contains("expected 2026"));
}

#[test]
fn current_edition_names_its_year() {
    assert_eq!(CURRENT_EDITION.as_str(), "2026");
    assert_eq!(parse_edition(CURRENT_EDITION.as_str()).unwrap(), CURRENT_EDITION);
}
