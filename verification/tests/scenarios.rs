use anki_utils::anki::connect::Field;
use anki_utils::anki::connect::NoteInfo;
use anki_utils::field_validation::execute;
use anki_utils::field_validation::execute_validation;
use anki_utils::field_validation::get_first_failing_validation_per_field;
use anki_utils::field_validation::ValidationConfig;
use anki_utils::field_validation::ValidationError;
use anki_utils::field_validation::ValidationType;

fn note(id: u64, fields: &[(&str, &str)]) -> NoteInfo {
    NoteInfo {
        note_id: id,
        fields: fields
            .iter()
            .enumerate()
            .map(|(i, (name, value))| {
                (name.to_string(), Field { value: value.to_string(), order: i as u32 })
            })
            .collect(),
    }
}

fn config(note_type: &str, fields: &[(&str, Vec<ValidationType>)]) -> ValidationConfig {
    ValidationConfig {
        note_type: note_type.to_string(),
        field_validations: fields.iter().map(|(n, v)| (n.to_string(), v.clone())).collect(),
    }
}

#[test]
fn required_field_scenario() {
    let cfg = config("Basic", &[("Type", vec![ValidationType::Required])]);

    let failing = note(1, &[("Type", "")]);
    let result = execute_validation(&cfg, &vec![failing]).unwrap();
    assert_eq!(result.total_note_count, 1);
    assert_eq!(result.failed_note_count, 1);
    assert_eq!(result.validation_errors.len(), 1);
    let (id, failures) = &result.validation_errors[0];
    assert_eq!(*id, 1);
    assert_eq!(failures.len(), 1);
    assert_eq!(failures[0].0, "Type");
    assert_eq!(failures[0].1.get_message(), "Missing required value");

    let passing = note(2, &[("Type", "x")]);
    let result = execute_validation(&cfg, &vec![passing]).unwrap();
    assert_eq!(result.total_note_count, 1);
    assert_eq!(result.failed_note_count, 0);
    assert!(result.validation_errors.is_empty());
}

#[test]
fn value_list_scenario() {
    let allowed = vec!["a".to_string(), "b".to_string()];
    let cfg = config("Basic", &[("Tag", vec![ValidationType::ValueList(allowed)])]);

    let passing = note(1, &[("Tag", "a, b")]);
    let result = execute_validation(&cfg, &vec![passing]).unwrap();
    assert_eq!(result.failed_note_count, 0);

    let failing = note(2, &[("Tag", "a,c")]);
    let result = execute_validation(&cfg, &vec![failing]).unwrap();
    assert_eq!(result.failed_note_count, 1);
    let (_, failures) = &result.validation_errors[0];
    assert_eq!(failures[0].1.get_message(), "Field must only contain valid values: a, b");
}

#[test]
fn must_not_include_scenario() {
    let cfg = config(
        "Basic",
        &[("Notes", vec![ValidationType::MustNotInclude("TODO".to_string())])],
    );

    let failing = note(1, &[("Notes", "has TODO item")]);
    let result = execute_validation(&cfg, &vec![failing]).unwrap();
    assert_eq!(result.failed_note_count, 1);
    let (_, failures) = &result.validation_errors[0];
    assert_eq!(failures[0].0, "Notes");
    assert_eq!(failures[0].1.get_message(), "Field contains invalid value 'TODO'");

    let passing = note(2, &[("Notes", "done")]);
    let result = execute_validation(&cfg, &vec![passing]).unwrap();
    assert_eq!(result.failed_note_count, 0);
}

#[test]
fn only_first_failing_rule_is_recorded_per_field() {
    let cfg = config(
        "Basic",
        &[(
            "Front",
            vec![
                ValidationType::Required,
                ValidationType::MustNotInclude("".to_string()),
            ],
        )],
    );
    // The empty value fails both rules; only the first is recorded.
    let n = note(7, &[("Front", "")]);
    let failures = get_first_failing_validation_per_field(&n, &cfg).unwrap();
    assert_eq!(failures.len(), 1);
    assert_eq!(failures[0].0, "Front");
    assert_eq!(failures[0].1, ValidationType::Required);
}

#[test]
fn later_rules_still_checked_when_earlier_ones_pass() {
    let cfg = config(
        "Basic",
        &[(
            "Front",
            vec![
                ValidationType::Required,
                ValidationType::MustNotInclude("bad".to_string()),
            ],
        )],
    );
    let n = note(7, &[("Front", "a bad value")]);
    let failures = get_first_failing_validation_per_field(&n, &cfg).unwrap();
    assert_eq!(failures.len(), 1);
    assert_eq!(failures[0].1, ValidationType::MustNotInclude("bad".to_string()));
}

#[test]
fn note_missing_configured_field_is_fatal() {
    let cfg = config("Basic", &[("Type", vec![ValidationType::Required])]);
    let n = note(3, &[("Other", "x")]);
    let err = get_first_failing_validation_per_field(&n, &cfg).unwrap_err();
    match &err {
        ValidationError::MissingNoteField { field, note_type } => {
            assert_eq!(field, "Type");
            assert_eq!(note_type, "Basic");
        }
        other => panic!("unexpected error: {:?}", other),
    }
    assert_eq!(
        err.message(),
        "The field 'Type' for note type 'Basic' does not exist"
    );
}

#[test]
fn missing_field_aborts_the_whole_pass() {
    let cfg = config("Basic", &[("Type", vec![ValidationType::Required])]);
    let good = note(1, &[("Type", "")]);
    let bad = note(2, &[("Other", "x")]);
    let err = execute_validation(&cfg, &vec![good, bad]).unwrap_err();
    assert!(matches!(err, ValidationError::MissingNoteField { .. }));
}

#[test]
fn aggregate_counts_match_the_failure_map() {
    let cfg = config(
        "Basic",
        &[
            ("Type", vec![ValidationType::Required]),
            ("Notes", vec![ValidationType::MustNotInclude("TODO".to_string())]),
        ],
    );
    let notes = vec![
        note(1, &[("Type", "ok"), ("Notes", "fine")]),
        note(2, &[("Type", ""), ("Notes", "TODO later")]),
        note(3, &[("Type", "ok"), ("Notes", "TODO")]),
    ];
    let result = execute_validation(&cfg, &notes).unwrap();
    assert_eq!(result.total_note_count, 3);
    assert_eq!(result.failed_note_count, 2);
    assert_eq!(result.failed_note_count, result.validation_errors.len());
    for (_, failures) in &result.validation_errors {
        assert!(!failures.is_empty());
    }
    // Note 2 failed both fields, in config order.
    let (id, failures) = &result.validation_errors[0];
    assert_eq!(*id, 2);
    assert_eq!(failures.len(), 2);
    assert_eq!(failures[0].0, "Type");
    assert_eq!(failures[1].0, "Notes");
}

#[test]
fn required_sees_unicode_whitespace_as_empty() {
    let cfg = config("Basic", &[("Type", vec![ValidationType::Required])]);
    let n = note(4, &[("Type", "\u{00A0}\u{2003} \u{3000}")]);
    let result = execute_validation(&cfg, &vec![n]).unwrap();
    assert_eq!(result.failed_note_count, 1);
}

#[test]
fn value_list_lone_comma_means_two_empty_tokens() {
    let strict = config(
        "Basic",
        &[("Tag", vec![ValidationType::ValueList(vec!["a".to_string()])])],
    );
    let n = note(5, &[("Tag", ",")]);
    let result = execute_validation(&strict, &vec![n]).unwrap();
    assert_eq!(result.failed_note_count, 1);

    let lax = config(
        "Basic",
        &[("Tag", vec![ValidationType::ValueList(vec!["".to_string()])])],
    );
    let n = note(6, &[("Tag", ",")]);
    let result = execute_validation(&lax, &vec![n]).unwrap();
    assert_eq!(result.failed_note_count, 0);
}

#[test]
fn whole_run_on_fetched_data() {
    let cfg = config("Basic", &[("Type", vec![ValidationType::Required])]);
    let models = vec![("Basic".to_string(), 1u64)];
    let field_names = vec!["Type".to_string(), "Back".to_string()];
    let notes = vec![note(1, &[("Type", "ok")]), note(2, &[("Type", " ")])];
    let result = execute(&cfg, &models, &field_names, &notes).unwrap();
    assert_eq!(result.total_note_count, 2);
    assert_eq!(result.failed_note_count, 1);
    assert_eq!(result.validation_errors[0].0, 2);
}

#[test]
fn field_lookup_takes_the_first_field_with_a_name() {
    let cfg = config("Basic", &[("A", vec![ValidationType::Required])]);
    let n = note(8, &[("A", "filled"), ("A", "")]);
    let failures = get_first_failing_validation_per_field(&n, &cfg).unwrap();
    assert!(failures.is_empty());
}

#[test]
fn error_names_the_first_missing_configured_field() {
    let cfg = config(
        "Basic",
        &[
            ("Present", vec![ValidationType::Required]),
            ("GoneA", vec![ValidationType::Required]),
            ("GoneB", vec![ValidationType::Required]),
        ],
    );
    let n = note(9, &[("Present", "x")]);
    let err = get_first_failing_validation_per_field(&n, &cfg).unwrap_err();
    match err {
        ValidationError::MissingNoteField { field, .. } => assert_eq!(field, "GoneA"),
        other => panic!("unexpected error: {:?}", other),
    }
}

#[test]
fn field_lookup_uses_the_notes_own_field_names() {
    let cfg = config("Basic", &[("A", vec![ValidationType::Required])]);
    let n = note(9, &[("B", "x"), ("A", "filled")]);
    let failures = get_first_failing_validation_per_field(&n, &cfg).unwrap();
    assert!(failures.is_empty());
}
