use code_reader_core::languages::python::describe_current_symbol;

#[test]
fn describe_symbol_under_cursor() {
    let speech = describe_current_symbol("total = price + tax_rate", 0, 16);
    assert_eq!(speech, Some("Symbol tax rate.".to_string()));
}

#[test]
fn describes_operator_under_cursor() {
    let speech = describe_current_symbol("total = price + tax_rate", 0, 14);
    assert_eq!(speech, Some("Operator plus.".to_string()));
}

#[test]
fn returns_none_when_no_symbol_is_under_cursor() {
    let speech = describe_current_symbol("total = price + tax_rate", 0, 13);
    assert_eq!(speech, None);
}

#[test]
fn describes_assignment_operator_and_later_lines() {
    assert_eq!(
        describe_current_symbol("total = price + tax_rate", 0, 6),
        Some("Operator equals.".to_string())
    );
    assert_eq!(
        describe_current_symbol("x = 1\nunit_price = x", 1, 3),
        Some("Symbol unit price.".to_string())
    );
}
