use annas_kobo::nickel::{import_refusal, qndb_failure, MANUAL_HINT};

#[test]
fn import_needs_a_kobo_and_nickeldbus() {
    assert_eq!(import_refusal(false, true), Some("not running on a Kobo".to_string()));
    assert_eq!(import_refusal(false, false), Some("not running on a Kobo".to_string()));
    assert_eq!(
        import_refusal(true, false),
        Some(format!("automatic import needs NickelDBus; {MANUAL_HINT}"))
    );
    assert_eq!(import_refusal(true, true), None);
}

#[test]
fn qndb_errors_are_trimmed() {
    assert_eq!(qndb_failure("  timeout\n"), "qndb failed: timeout");
    assert_eq!(qndb_failure(""), "qndb failed: ");
}
