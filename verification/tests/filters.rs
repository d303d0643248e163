use anki_utils::field_validation::ValidationConfig;
use anki_utils::field_validation::ValidationError;
use anki_utils::field_validation::ValidationType;
use anki_utils::input::apply_cli_args_on_config;
use anki_utils::input::apply_field_filter;
use anki_utils::input::apply_validation_filter;
use anki_utils::input::map_validation_type;
use anki_utils::CliArgs;
use anki_utils::CliValidationType;

fn config_two_fields() -> ValidationConfig {
    ValidationConfig {
        note_type: "Basic".to_string(),
        field_validations: vec![
            ("Type".to_string(), vec![ValidationType::Required]),
            (
                "Tag".to_string(),
                vec![
                    ValidationType::ValueList(vec!["a".to_string()]),
                    ValidationType::Required,
                ],
            ),
        ],
    }
}

fn args(fields: &[&str], validations: Vec<CliValidationType>) -> CliArgs {
    CliArgs {
        config_file: "rules.json".to_string(),
        browse: false,
        fields: fields.iter().map(|f| f.to_string()).collect(),
        validations,
    }
}

#[test]
fn field_filter_keeps_only_requested_fields() {
    let mut cfg = config_two_fields();
    apply_field_filter(&mut cfg, &args(&["Type"], vec![])).unwrap();
    assert_eq!(cfg.field_validations.len(), 1);
    assert_eq!(cfg.field_validations[0].0, "Type");
    assert_eq!(cfg.note_type, "Basic");
}

#[test]
fn field_filter_rejects_unknown_fields_listing_all() {
    let mut cfg = config_two_fields();
    let err = apply_field_filter(&mut cfg, &args(&["Missing"], vec![])).unwrap_err();
    match &err {
        ValidationError::UnknownFilterFields { fields } => {
            assert_eq!(fields, &vec!["Missing".to_string()]);
        }
        other => panic!("unexpected error: {:?}", other),
    }
    assert_eq!(
        err.message(),
        "The fields filter must specify fields from the config: 'Missing'"
    );
    // The config is untouched on rejection.
    assert_eq!(cfg.field_validations.len(), 2);

    let err = apply_field_filter(&mut cfg, &args(&["Type", "Nope", "Zilch"], vec![])).unwrap_err();
    assert_eq!(
        err.message(),
        "The fields filter must specify fields from the config: 'Nope', 'Zilch'"
    );
    match err {
        ValidationError::UnknownFilterFields { fields } => {
            assert_eq!(fields, vec!["Nope".to_string(), "Zilch".to_string()]);
        }
        other => panic!("unexpected error: {:?}", other),
    }
}

#[test]
fn field_filter_with_no_fields_is_a_no_op() {
    let mut cfg = config_two_fields();
    apply_field_filter(&mut cfg, &args(&[], vec![])).unwrap();
    assert_eq!(cfg, config_two_fields());
}

#[test]
fn field_filter_is_idempotent() {
    let a = args(&["Tag"], vec![]);
    let mut once = config_two_fields();
    apply_field_filter(&mut once, &a).unwrap();
    let mut twice = config_two_fields();
    apply_field_filter(&mut twice, &a).unwrap();
    apply_field_filter(&mut twice, &a).unwrap();
    assert_eq!(once, twice);
}

#[test]
fn validation_filter_keeps_only_requested_kinds() {
    let mut cfg = config_two_fields();
    apply_validation_filter(&mut cfg, &args(&[], vec![CliValidationType::Required]));
    assert_eq!(cfg.field_validations.len(), 2);
    assert_eq!(cfg.field_validations[0].1, vec![ValidationType::Required]);
    assert_eq!(cfg.field_validations[1].1, vec![ValidationType::Required]);
}

#[test]
fn validation_filter_keeps_fields_whose_list_empties() {
    let mut cfg = config_two_fields();
    apply_validation_filter(&mut cfg, &args(&[], vec![CliValidationType::MustNotInclude]));
    assert_eq!(cfg.field_validations.len(), 2);
    assert!(cfg.field_validations[0].1.is_empty());
    assert!(cfg.field_validations[1].1.is_empty());
}

#[test]
fn validation_filter_with_no_kinds_is_a_no_op() {
    let mut cfg = config_two_fields();
    apply_validation_filter(&mut cfg, &args(&[], vec![]));
    assert_eq!(cfg, config_two_fields());
}

#[test]
fn validation_filter_preserves_rule_order() {
    let mut cfg = ValidationConfig {
        note_type: "Basic".to_string(),
        field_validations: vec![(
            "F".to_string(),
            vec![
                ValidationType::MustNotInclude("x".to_string()),
                ValidationType::Required,
                ValidationType::MustNotInclude("y".to_string()),
            ],
        )],
    };
    apply_validation_filter(&mut cfg, &args(&[], vec![CliValidationType::MustNotInclude]));
    assert_eq!(
        cfg.field_validations[0].1,
        vec![
            ValidationType::MustNotInclude("x".to_string()),
            ValidationType::MustNotInclude("y".to_string()),
        ]
    );
}

#[test]
fn cli_args_apply_field_filter_before_kind_filter() {
    let mut cfg = config_two_fields();
    apply_cli_args_on_config(&mut cfg, &args(&["Tag"], vec![CliValidationType::Required]))
        .unwrap();
    assert_eq!(cfg.field_validations.len(), 1);
    assert_eq!(cfg.field_validations[0].0, "Tag");
    assert_eq!(cfg.field_validations[0].1, vec![ValidationType::Required]);
}

#[test]
fn cli_args_propagate_field_filter_rejection() {
    let mut cfg = config_two_fields();
    let err = apply_cli_args_on_config(&mut cfg, &args(&["Ghost"], vec![])).unwrap_err();
    assert!(matches!(err, ValidationError::UnknownFilterFields { .. }));
    assert_eq!(cfg, config_two_fields());
}

#[test]
fn map_validation_type_names_each_kind() {
    assert!(map_validation_type(&ValidationType::Required) == CliValidationType::Required);
    assert!(
        map_validation_type(&ValidationType::ValueList(vec![])) == CliValidationType::ValueList
    );
    assert!(
        map_validation_type(&ValidationType::MustNotInclude(String::new()))
            == CliValidationType::MustNotInclude
    );
}
