use anki_utils::field_validation::check_schema_fields;
use anki_utils::field_validation::notes_query;
use anki_utils::field_validation::resolve_model;
use anki_utils::field_validation::validate_config;
use anki_utils::field_validation::ValidationConfig;
use anki_utils::field_validation::ValidationError;
use anki_utils::field_validation::ValidationType;

fn config(note_type: &str, fields: &[&str]) -> ValidationConfig {
    ValidationConfig {
        note_type: note_type.to_string(),
        field_validations: fields
            .iter()
            .map(|f| (f.to_string(), vec![ValidationType::Required]))
            .collect(),
    }
}

fn models() -> Vec<(String, u64)> {
    vec![("Basic".to_string(), 1000), ("Cloze".to_string(), 1001)]
}

fn names(list: &[&str]) -> Vec<String> {
    list.iter().map(|s| s.to_string()).collect()
}

#[test]
fn resolve_model_finds_the_configured_note_type() {
    let cfg = config("Cloze", &[]);
    assert_eq!(resolve_model(&cfg, &models()).unwrap(), "Cloze");
}

#[test]
fn resolve_model_rejects_an_unknown_note_type() {
    let cfg = config("Missing", &[]);
    let err = resolve_model(&cfg, &models()).unwrap_err();
    match &err {
        ValidationError::UnknownNoteType { note_type } => assert_eq!(note_type, "Missing"),
        other => panic!("unexpected error: {:?}", other),
    }
    assert_eq!(
        err.message(),
        "Failed to find a note type with the name 'Missing'"
    );
}

#[test]
fn schema_check_accepts_configured_fields_in_the_schema() {
    let cfg = config("Basic", &["Front", "Back"]);
    check_schema_fields(&cfg, &names(&["Front", "Back", "Extra"])).unwrap();
}

#[test]
fn schema_check_rejects_fields_absent_from_the_schema() {
    let cfg = config("Basic", &["Front", "Extra"]);
    let err = check_schema_fields(&cfg, &names(&["Front", "Back"])).unwrap_err();
    match &err {
        ValidationError::UnknownSchemaFields { note_type, fields } => {
            assert_eq!(note_type, "Basic");
            assert_eq!(fields, &vec!["Extra".to_string()]);
        }
        other => panic!("unexpected error: {:?}", other),
    }
    assert_eq!(
        err.message(),
        "The note type 'Basic' does not have these fields: 'Extra'"
    );
}

#[test]
fn schema_check_collects_every_missing_field() {
    let cfg = config("Basic", &["A", "B", "C"]);
    let err = check_schema_fields(&cfg, &names(&["B"])).unwrap_err();
    match err {
        ValidationError::UnknownSchemaFields { fields, .. } => {
            assert_eq!(fields, vec!["A".to_string(), "C".to_string()]);
        }
        other => panic!("unexpected error: {:?}", other),
    }
}

#[test]
fn validate_config_runs_both_checks() {
    let ok = config("Basic", &["Front"]);
    validate_config(&ok, &models(), &names(&["Front", "Back"])).unwrap();

    let bad_model = config("Nowhere", &["Front"]);
    assert!(matches!(
        validate_config(&bad_model, &models(), &names(&["Front"])).unwrap_err(),
        ValidationError::UnknownNoteType { .. }
    ));

    let bad_fields = config("Basic", &["Extra"]);
    assert!(matches!(
        validate_config(&bad_fields, &models(), &names(&["Front"])).unwrap_err(),
        ValidationError::UnknownSchemaFields { .. }
    ));
}

#[test]
fn notes_query_quotes_the_note_type() {
    let cfg = config("Basic Card", &[]);
    assert_eq!(notes_query(&cfg), "\"note:Basic Card\"");
}
