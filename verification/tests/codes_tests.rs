use alan_von_palladium::errors::codes::DiagnosticCode;
use std::collections::HashSet;

#[test]
fn every_code_is_in_all() {
    assert_eq!(
        DiagnosticCode::ALL.len(),
        12,
        "a code was added to the enum without being added to ALL (or this \
         literal was not updated with the new count)"
    );
}

#[test]
fn codes_and_names_are_unique() {
    let numbers: HashSet<u16> = DiagnosticCode::ALL.iter().map(|c| c.number()).collect();
    assert_eq!(numbers.len(), DiagnosticCode::ALL.len(), "duplicate number");
    let names: HashSet<&str> = DiagnosticCode::ALL
        .iter()
        .map(|c| c.symbolic_name())
        .collect();
    assert_eq!(names.len(), DiagnosticCode::ALL.len(), "duplicate name");
}

#[test]
fn no_active_code_reuses_a_tombstoned_number() {
    let retired: HashSet<u16> = DiagnosticCode::TOMBSTONES.iter().map(|(n, _)| *n).collect();
    for c in DiagnosticCode::ALL {
        assert!(
            !retired.contains(&c.number()),
            "{} reuses the retired number {}",
            c.symbolic_name(),
            c.number()
        );
    }
}

#[test]
fn the_wire_spelling_is_four_digits() {
    assert_eq!(
        DiagnosticCode::ConstInitialiserHasNoValue.to_string(),
        "PD0002"
    );
    assert_eq!(DiagnosticCode::CastRelation.to_string(), "PD0003");
    assert_eq!(
        DiagnosticCode::NonIntegerLiteralInMacroTokenStream.to_string(),
        "PD0008"
    );
    assert_eq!(
        DiagnosticCode::UnterminatedBlockComment.to_string(),
        "PD0078"
    );
}
