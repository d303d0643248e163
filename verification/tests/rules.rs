use anki_utils::field_validation::ValidationType;

#[test]
fn required_rejects_empty_value() {
    let rule = ValidationType::Required;
    assert!(!rule.is_valid(""));
}

#[test]
fn required_rejects_whitespace_only_value() {
    let rule = ValidationType::Required;
    assert!(!rule.is_valid("   "));
    assert!(!rule.is_valid("\t\n"));
    assert!(!rule.is_valid("\u{00A0}\u{3000}"));
}

#[test]
fn required_accepts_value_with_content() {
    let rule = ValidationType::Required;
    assert!(rule.is_valid("x"));
    assert!(rule.is_valid("  padded  "));
}

#[test]
fn required_matches_trim_emptiness() {
    let rule = ValidationType::Required;
    for v in ["", " ", "a", " a ", "\t", "word word"] {
        assert_eq!(rule.is_valid(v), !v.trim().is_empty());
    }
}

#[test]
fn must_not_include_rejects_substring() {
    let rule = ValidationType::MustNotInclude("TODO".to_string());
    assert!(!rule.is_valid("has TODO item"));
    assert!(!rule.is_valid("TODO"));
    assert!(rule.is_valid("done"));
    assert!(rule.is_valid("TOD O"));
}

#[test]
fn must_not_include_matches_contains() {
    for (v, forbidden) in [("abcabc", "cab"), ("abc", "abcd"), ("", ""), ("x", ""), ("", "x")] {
        let rule = ValidationType::MustNotInclude(forbidden.to_string());
        assert_eq!(rule.is_valid(v), !v.contains(forbidden));
    }
}

#[test]
fn value_list_accepts_empty_value() {
    let rule = ValidationType::ValueList(vec!["a".to_string(), "b".to_string()]);
    assert!(rule.is_valid(""));
}

#[test]
fn value_list_accepts_listed_tokens() {
    let rule = ValidationType::ValueList(vec!["a".to_string(), "b".to_string()]);
    assert!(rule.is_valid("a"));
    assert!(rule.is_valid("a, b"));
    assert!(rule.is_valid("b,a"));
    assert!(rule.is_valid("  a  ,  b  "));
    assert!(rule.is_valid("a,a,a"));
}

#[test]
fn value_list_rejects_unlisted_tokens() {
    let rule = ValidationType::ValueList(vec!["a".to_string(), "b".to_string()]);
    assert!(!rule.is_valid("c"));
    assert!(!rule.is_valid("a,c"));
    assert!(!rule.is_valid("a, b, c"));
}

#[test]
fn value_list_checks_every_comma_split_trimmed_token() {
    let allowed = vec!["red".to_string(), "green".to_string()];
    let rule = ValidationType::ValueList(allowed.clone());
    for v in ["red", "red, green", "red,green,", "blue", " red , blue "] {
        let expected = v.is_empty()
            || v.split(',').map(|t| t.trim().to_string()).all(|t| allowed.contains(&t));
        assert_eq!(rule.is_valid(v), expected);
    }
}

#[test]
fn value_list_trailing_comma_means_empty_token() {
    let rule = ValidationType::ValueList(vec!["a".to_string()]);
    assert!(!rule.is_valid("a,"));
    let permissive = ValidationType::ValueList(vec!["a".to_string(), "".to_string()]);
    assert!(permissive.is_valid("a,"));
}

#[test]
fn required_message() {
    assert_eq!(ValidationType::Required.get_message(), "Missing required value");
}

#[test]
fn must_not_include_message_names_the_forbidden_value() {
    let rule = ValidationType::MustNotInclude("TODO".to_string());
    assert_eq!(rule.get_message(), "Field contains invalid value 'TODO'");
}

#[test]
fn value_list_message_lists_the_allowed_values() {
    let rule = ValidationType::ValueList(vec!["a".to_string(), "b".to_string()]);
    assert_eq!(rule.get_message(), "Field must only contain valid values: a, b");
    let single = ValidationType::ValueList(vec!["only".to_string()]);
    assert_eq!(single.get_message(), "Field must only contain valid values: only");
    let none = ValidationType::ValueList(vec![]);
    assert_eq!(none.get_message(), "Field must only contain valid values: ");
}

#[test]
fn duplicate_preserves_the_rule() {
    let rule = ValidationType::ValueList(vec!["a".to_string(), "b".to_string()]);
    assert_eq!(rule.duplicate(), rule);
    let rule = ValidationType::MustNotInclude("x".to_string());
    assert_eq!(rule.duplicate(), rule);
    assert_eq!(ValidationType::Required.duplicate(), ValidationType::Required);
}
