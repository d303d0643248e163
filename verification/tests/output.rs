use anki_utils::anki::connect::browse_query;
use anki_utils::anki::connect::resolve_response;
use anki_utils::anki::connect::ConnectError;
use anki_utils::failing_note_ids;
use anki_utils::field_validation::ValidationResult;
use anki_utils::field_validation::ValidationType;
use anki_utils::output::format_validation_result;

fn sample_result() -> ValidationResult {
    ValidationResult {
        total_note_count: 3,
        failed_note_count: 1,
        validation_errors: vec![(
            42,
            vec![("Type".to_string(), ValidationType::Required)],
        )],
    }
}

#[test]
fn report_has_the_expected_lines() {
    let lines = format_validation_result(&sample_result());
    // "Missing required value" is 22 characters, wider than the
    // "Error Message" heading, so the message column is 22 wide; "Type"
    // is narrower than "Field Name", so the field column keeps the
    // heading's 10.
    let border = format!("|-{}-|-{}-|-{}-|", "-".repeat(20), "-".repeat(10), "-".repeat(22));
    assert_eq!(lines.len(), 7);
    assert_eq!(lines[0], border);
    assert_eq!(
        lines[1],
        format!("| {:<20} | {:<10} | {:<22} |", "Note Id", "Field Name", "Error Message")
    );
    assert_eq!(lines[2], border);
    assert_eq!(
        lines[3],
        format!("| {:>20} | {:<10} | {:<22} |", 42, "Type", "Missing required value")
    );
    assert_eq!(lines[4], border);
    assert_eq!(lines[5], "");
    assert_eq!(lines[6], "3 notes have been validated, 1 notes failed");
}

#[test]
fn report_widths_grow_with_long_field_names() {
    let result = ValidationResult {
        total_note_count: 1,
        failed_note_count: 1,
        validation_errors: vec![(
            7,
            vec![(
                "A Very Long Field Name Indeed".to_string(),
                ValidationType::MustNotInclude("x".to_string()),
            )],
        )],
    };
    let lines = format_validation_result(&result);
    let field_w = "A Very Long Field Name Indeed".len();
    let msg_w = "Field contains invalid value 'x'".len();
    assert_eq!(
        lines[3],
        format!(
            "| {:>20} | {:<fw$} | {:<mw$} |",
            7,
            "A Very Long Field Name Indeed",
            "Field contains invalid value 'x'",
            fw = field_w,
            mw = msg_w
        )
    );
}

#[test]
fn empty_report_still_prints_headers_and_summary() {
    let result = ValidationResult {
        total_note_count: 5,
        failed_note_count: 0,
        validation_errors: vec![],
    };
    let lines = format_validation_result(&result);
    assert_eq!(lines.len(), 6);
    assert_eq!(lines[5], "5 notes have been validated, 0 notes failed");
}

#[test]
fn summary_counts_come_from_the_result() {
    let mut result = sample_result();
    result.total_note_count = 120;
    result.failed_note_count = 19;
    let lines = format_validation_result(&result);
    assert_eq!(
        lines.last().unwrap(),
        "120 notes have been validated, 19 notes failed"
    );
}

#[test]
fn browse_query_joins_nid_terms() {
    assert_eq!(browse_query(&vec![1, 23, 456]), "nid:1 or nid:23 or nid:456");
    assert_eq!(browse_query(&vec![10]), "nid:10");
    assert_eq!(browse_query(&vec![]), "");
    assert_eq!(
        browse_query(&vec![u64::MAX]),
        format!("nid:{}", u64::MAX)
    );
}

#[test]
fn failing_note_ids_respects_the_cap() {
    let result = ValidationResult {
        total_note_count: 3,
        failed_note_count: 3,
        validation_errors: vec![
            (1, vec![("A".to_string(), ValidationType::Required)]),
            (2, vec![("A".to_string(), ValidationType::Required)]),
            (3, vec![("A".to_string(), ValidationType::Required)]),
        ],
    };
    assert_eq!(failing_note_ids(&result, 2), vec![1, 2]);
    assert_eq!(failing_note_ids(&result, 3), vec![1, 2, 3]);
    assert_eq!(failing_note_ids(&result, 997), vec![1, 2, 3]);
    assert_eq!(failing_note_ids(&result, 0), Vec::<u64>::new());
}

#[test]
fn resolve_response_prefers_the_reported_error() {
    let r: Result<u32, ConnectError> = resolve_response(Some(5), Some("boom".to_string()));
    assert_eq!(r, Err(ConnectError::ReceivedError("boom".to_string())));
}

#[test]
fn resolve_response_returns_the_result() {
    let r: Result<u32, ConnectError> = resolve_response(Some(5), None);
    assert_eq!(r, Ok(5));
}

#[test]
fn resolve_response_requires_a_result() {
    let r: Result<u32, ConnectError> = resolve_response(None, None);
    assert_eq!(r, Err(ConnectError::MissingResult));
}
