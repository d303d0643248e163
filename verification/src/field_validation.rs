//! The validation engine: the rule kinds with their pass/fail semantics
//! and messages, the rule set, reconciliation against the live schema,
//! the per-note evaluation pass, and the aggregated result.
use vstd::prelude::*;

use crate::text::has_substring;
use crate::text::join_strings;
use crate::text::join_with;
use crate::text::split_comma;
use crate::text::split_comma_str;
use crate::text::str_contains;
use crate::text::contains_string;
use crate::text::lemma_filter_singleton;
use crate::text::quoted_join;
use crate::text::quoted_list;
use crate::text::str_eq;
use crate::text::trim_str;
use crate::text::trimmed;

use crate::anki::connect::Field;
use crate::anki::connect::NoteInfo;

verus! {

/// One validation check: a kind together with its parameters.
#[derive(Clone, Debug, PartialEq)]
pub enum ValidationType {
    /// The value must be non-empty once trimmed of whitespace.
    Required,
    /// The value, read as a comma-separated list of trimmed tokens, may
    /// hold only tokens from the given list.
    ValueList(Vec<String>),
    /// The value must not contain the given string.
    MustNotInclude(String),
}

/// The mathematical shape of one rule, with its parameters as sequences.
pub enum RuleView {
    Required,
    ValueList(Seq<Seq<char>>),
    MustNotInclude(Seq<char>),
}

impl View for ValidationType {
    type V = RuleView;

    open spec fn view(&self) -> RuleView {
        match self {
            ValidationType::Required => RuleView::Required,
            ValidationType::ValueList(vs) => RuleView::ValueList(vs.deep_view()),
            ValidationType::MustNotInclude(s) => RuleView::MustNotInclude(s@),
        }
    }
}

impl DeepView for ValidationType {
    type V = RuleView;

    open spec fn deep_view(&self) -> RuleView {
        self.view()
    }
}

/// Whether a field value passes one rule.
pub open spec fn rule_is_valid(r: RuleView, value: Seq<char>) -> bool {
    match r {
        RuleView::Required => trimmed(value).len() != 0,
        RuleView::MustNotInclude(forbidden) => !has_substring(value, forbidden),
        RuleView::ValueList(allowed) => value.len() == 0 || forall|i: int|
            0 <= i < split_comma(value).len() ==> allowed.contains(
                trimmed(#[trigger] split_comma(value)[i]),
            ),
    }
}

/// The failure message of one rule.
pub open spec fn rule_message(r: RuleView) -> Seq<char> {
    match r {
        RuleView::Required => "Missing required value"@,
        RuleView::MustNotInclude(forbidden) => "Field contains invalid value '"@ + forbidden
            + "'"@,
        RuleView::ValueList(allowed) => "Field must only contain valid values: "@ + join_with(
            allowed,
            ", "@,
        ),
    }
}

impl ValidationType {
    /// Whether `value` passes this rule. An empty value always passes a
    /// value-list rule; no input is ever an error.
    pub fn is_valid(&self, value: &str) -> (r: bool)
        ensures
            r == rule_is_valid(self@, value@),
    {
        match self {
            ValidationType::Required => {
                let t = trim_str(value);
                !t.is_empty()
            },
            ValidationType::MustNotInclude(forbidden) => !str_contains(value, forbidden.as_str()),
            ValidationType::ValueList(allowed) => {
                if value.is_empty() {
                    return true;
                }
                let tokens = split_comma_str(value);
                let n = tokens.len();
                let mut i: usize = 0;
                while i < n
                    invariant
                        0 <= i <= n,
                        n == tokens.len(),
                        value@.len() != 0,
                        self@ == RuleView::ValueList(allowed.deep_view()),
                        tokens.deep_view() == split_comma(value@),
                        forall|j: int| 0 <= j < i ==> allowed.deep_view().contains(
                            trimmed(#[trigger] split_comma(value@)[j]),
                        ),
                    decreases n - i,
                {
                    let t = trim_str(tokens[i].as_str());
                    if !contains_string(allowed, t) {
                        proof {
                            assert(tokens.deep_view()[i as int] == tokens@[i as int]@);
                            assert(split_comma(value@).len() == n);
                            assert(!allowed.deep_view().contains(
                                trimmed(split_comma(value@)[i as int]),
                            ));
                        }
                        return false;
                    }
                    i = i + 1;
                }
                true
            },
        }
    }

    /// The human-readable message shown when this rule fails.
    pub fn get_message(&self) -> (r: String)
        ensures
            r@ == rule_message(self@),
    {
        match self {
            ValidationType::Required => "Missing required value".to_owned(),
            ValidationType::MustNotInclude(forbidden) => {
                let mut r = "Field contains invalid value '".to_owned();
                r.append(forbidden.as_str());
                r.append("'");
                r
            },
            ValidationType::ValueList(allowed) => {
                let mut r = "Field must only contain valid values: ".to_owned();
                let list = join_strings(allowed, ", ");
                r.append(list.as_str());
                r
            },
        }
    }

    /// An owned copy of this rule with the same mathematical shape.
    pub fn duplicate(&self) -> (r: ValidationType)
        ensures
            r@ == self@,
    {
        match self {
            ValidationType::Required => ValidationType::Required,
            ValidationType::MustNotInclude(forbidden) => ValidationType::MustNotInclude(
                forbidden.clone(),
            ),
            ValidationType::ValueList(allowed) => {
                let c = allowed.clone();
                proof {
                    assert(c@ =~= allowed@);
                    assert(c.deep_view() =~= allowed.deep_view());
                }
                ValidationType::ValueList(c)
            },
        }
    }
}

/// An owned copy of a rule list, element for element.
pub fn duplicate_rules(rules: &Vec<ValidationType>) -> (r: Vec<ValidationType>)
    ensures
        r.deep_view() == rules.deep_view(),
{
    let mut out: Vec<ValidationType> = Vec::new();
    let n = rules.len();
    let mut i: usize = 0;
    proof {
        assert(out.deep_view() =~= rules.deep_view().take(0));
    }
    while i < n
        invariant
            0 <= i <= n,
            n == rules.len(),
            out.deep_view() == rules.deep_view().take(i as int),
        decreases n - i,
    {
        let ghost old_dv = out.deep_view();
        out.push(rules[i].duplicate());
        proof {
            assert(out.deep_view() =~= old_dv.push(rules.deep_view()[i as int]));
            assert(out.deep_view() =~= rules.deep_view().take(i + 1));
        }
        i = i + 1;
    }
    proof {
        assert(rules.deep_view().take(n as int) =~= rules.deep_view());
    }
    out
}

/// The rule set for one note type: the target note type's name and, per
/// field name, the rules to check in declared order.
#[derive(Debug, PartialEq)]
pub struct ValidationConfig {
    pub note_type: String,
    pub field_validations: Vec<(String, Vec<ValidationType>)>,
}

/// The mathematical shape of a rule set.
pub struct ConfigView {
    pub note_type: Seq<char>,
    pub field_validations: Seq<(Seq<char>, Seq<RuleView>)>,
}

impl View for ValidationConfig {
    type V = ConfigView;

    open spec fn view(&self) -> ConfigView {
        ConfigView {
            note_type: self.note_type@,
            field_validations: self.field_validations.deep_view(),
        }
    }
}

/// A fatal error: a bad configuration, a rule set that does not fit the
/// live schema, or a note that lacks a configured field.
#[derive(Debug, PartialEq)]
pub enum ValidationError {
    /// No model in the live schema has the configured note type's name.
    UnknownNoteType { note_type: String },
    /// Configured fields that the note type's schema does not have.
    UnknownSchemaFields { note_type: String, fields: Vec<String> },
    /// Requested filter fields that the config does not have.
    UnknownFilterFields { fields: Vec<String> },
    /// A configured field was missing from a fetched note's own fields.
    MissingNoteField { field: String, note_type: String },
}

impl ValidationError {
    /// The human-readable message for this error.
    pub open spec fn spec_message(&self) -> Seq<char> {
        match self {
            ValidationError::UnknownNoteType { note_type } => "Failed to find a note type with the name '"@
                + note_type@ + "'"@,
            ValidationError::UnknownSchemaFields { note_type, fields } => "The note type '"@
                + note_type@ + "' does not have these fields: "@ + quoted_list(
                fields.deep_view(),
            ),
            ValidationError::UnknownFilterFields { fields } => "The fields filter must specify fields from the config: "@
                + quoted_list(fields.deep_view()),
            ValidationError::MissingNoteField { field, note_type } => "The field '"@ + field@
                + "' for note type '"@ + note_type@ + "' does not exist"@,
        }
    }

    pub fn message(&self) -> (r: String)
        ensures
            r@ == self.spec_message(),
    {
        match self {
            ValidationError::UnknownNoteType { note_type } => {
                let mut r = "Failed to find a note type with the name '".to_owned();
                r.append(note_type.as_str());
                r.append("'");
                r
            },
            ValidationError::UnknownSchemaFields { note_type, fields } => {
                let mut r = "The note type '".to_owned();
                r.append(note_type.as_str());
                r.append("' does not have these fields: ");
                let list = quoted_join(fields);
                r.append(list.as_str());
                r
            },
            ValidationError::UnknownFilterFields { fields } => {
                let mut r = "The fields filter must specify fields from the config: ".to_owned();
                let list = quoted_join(fields);
                r.append(list.as_str());
                r
            },
            ValidationError::MissingNoteField { field, note_type } => {
                let mut r = "The field '".to_owned();
                r.append(field.as_str());
                r.append("' for note type '");
                r.append(note_type.as_str());
                r.append("' does not exist");
                r
            },
        }
    }
}

/// The (name, value) pairs of a sequence of named fields.
pub open spec fn field_pairs(fields: Seq<(String, Field)>) -> Seq<(Seq<char>, Seq<char>)> {
    fields.map_values(|p: (String, Field)| (p.0@, p.1.value@))
}

/// The (name, value) pairs of a note's fields.
pub open spec fn note_fields(note: NoteInfo) -> Seq<(Seq<char>, Seq<char>)> {
    field_pairs(note.fields@)
}

/// The value under the first pair with the given name, if any.
pub open spec fn lookup(pairs: Seq<(Seq<char>, Seq<char>)>, name: Seq<char>) -> Option<Seq<char>>
    decreases pairs.len(),
{
    if pairs.len() == 0 {
        None
    } else if pairs[0].0 == name {
        Some(pairs[0].1)
    } else {
        lookup(pairs.drop_first(), name)
    }
}

/// The first rule in declared order that the value fails, if any.
pub open spec fn first_failing(rules: Seq<RuleView>, value: Seq<char>) -> Option<RuleView>
    decreases rules.len(),
{
    if rules.len() == 0 {
        None
    } else if !rule_is_valid(rules[0], value) {
        Some(rules[0])
    } else {
        first_failing(rules.drop_first(), value)
    }
}

/// Every configured field occurs among the note's fields.
pub open spec fn all_fields_present(
    pairs: Seq<(Seq<char>, Seq<RuleView>)>,
    fields: Seq<(Seq<char>, Seq<char>)>,
) -> bool {
    forall|i: int| 0 <= i < pairs.len() ==> lookup(fields, #[trigger] pairs[i].0) is Some
}

/// The first configured field, in declared order, that the note lacks.
pub open spec fn first_missing(
    pairs: Seq<(Seq<char>, Seq<RuleView>)>,
    fields: Seq<(Seq<char>, Seq<char>)>,
) -> Seq<char>
    decreases pairs.len(),
{
    if pairs.len() == 0 {
        Seq::empty()
    } else if lookup(fields, pairs[0].0) is None {
        pairs[0].0
    } else {
        first_missing(pairs.drop_first(), fields)
    }
}

/// Per configured field, in declared order, the first failing rule for
/// the note's value of that field; fields with no failing rule are left
/// out.
pub open spec fn spec_note_failures(
    pairs: Seq<(Seq<char>, Seq<RuleView>)>,
    fields: Seq<(Seq<char>, Seq<char>)>,
) -> Seq<(Seq<char>, RuleView)>
    decreases pairs.len(),
{
    if pairs.len() == 0 {
        Seq::empty()
    } else {
        let rest = spec_note_failures(pairs.drop_first(), fields);
        match lookup(fields, pairs[0].0) {
            Some(value) => match first_failing(pairs[0].1, value) {
                Some(rule) => seq![(pairs[0].0, rule)] + rest,
                None => rest,
            },
            None => rest,
        }
    }
}

/// Each configured field name appears at most once.
pub open spec fn distinct_keys(pairs: Seq<(Seq<char>, Seq<RuleView>)>) -> bool {
    forall|i: int, j: int| 0 <= i < j < pairs.len() ==> pairs[i].0 != pairs[j].0
}

/// A note's failure map records at most one failing rule per field, and
/// for each recorded field exactly the first rule, in declared order,
/// that the note's value of that field fails.
pub proof fn lemma_first_failure_per_field(
    pairs: Seq<(Seq<char>, Seq<RuleView>)>,
    fields: Seq<(Seq<char>, Seq<char>)>,
)
    requires
        distinct_keys(pairs),
    ensures
        forall|a: int, b: int|
            0 <= a < b < spec_note_failures(pairs, fields).len()
                ==> spec_note_failures(pairs, fields)[a].0 != spec_note_failures(
                pairs,
                fields,
            )[b].0,
        forall|a: int|
            #![trigger spec_note_failures(pairs, fields)[a]]
            0 <= a < spec_note_failures(pairs, fields).len() ==> exists|k: int|
                0 <= k < pairs.len() && pairs[k].0 == spec_note_failures(pairs, fields)[a].0 && (
                lookup(fields, #[trigger] pairs[k].0) matches Some(v) && first_failing(
                    pairs[k].1,
                    v,
                ) == Some(spec_note_failures(pairs, fields)[a].1)),
    decreases pairs.len(),
{
    if pairs.len() == 0 {
    } else {
        let snf = spec_note_failures(pairs, fields);
        let rest_pairs = pairs.drop_first();
        let rest = spec_note_failures(rest_pairs, fields);
        assert forall|i: int, j: int| 0 <= i < j < rest_pairs.len() implies rest_pairs[i].0
            != rest_pairs[j].0 by {
            assert(rest_pairs[i] == pairs[i + 1]);
            assert(rest_pairs[j] == pairs[j + 1]);
        }
        lemma_first_failure_per_field(rest_pairs, fields);
        let contributes = lookup(fields, pairs[0].0) matches Some(v) && first_failing(
            pairs[0].1,
            v,
        ) is Some;
        assert forall|a: int|
            #![trigger snf[a]]
            0 <= a < snf.len() implies exists|k: int|
                0 <= k < pairs.len() && pairs[k].0 == snf[a].0 && (lookup(
                    fields,
                    #[trigger] pairs[k].0,
                ) matches Some(v) && first_failing(pairs[k].1, v) == Some(snf[a].1)) by {
            if contributes && a == 0 {
                assert(snf[0] == (pairs[0].0, first_failing(
                    pairs[0].1,
                    lookup(fields, pairs[0].0)->Some_0,
                )->Some_0));
                assert(0 <= 0 < pairs.len() && pairs[0].0 == snf[a].0 && (lookup(
                    fields,
                    pairs[0].0,
                ) matches Some(v) && first_failing(pairs[0].1, v) == Some(snf[a].1)));
            } else {
                let a0 = if contributes {
                    a - 1
                } else {
                    a
                };
                assert(snf[a] == rest[a0]);
                let k0 = choose|k0: int|
                    0 <= k0 < rest_pairs.len() && rest_pairs[k0].0 == rest[a0].0 && (lookup(
                        fields,
                        #[trigger] rest_pairs[k0].0,
                    ) matches Some(v) && first_failing(rest_pairs[k0].1, v) == Some(rest[a0].1));
                assert(rest_pairs[k0] == pairs[k0 + 1]);
                assert(0 <= k0 + 1 < pairs.len() && pairs[k0 + 1].0 == snf[a].0 && (lookup(
                    fields,
                    pairs[k0 + 1].0,
                ) matches Some(v) && first_failing(pairs[k0 + 1].1, v) == Some(snf[a].1)));
            }
        }
        assert forall|a: int, b: int| 0 <= a < b < snf.len() implies snf[a].0 != snf[b].0 by {
            if contributes {
                if a == 0 {
                    assert(snf[b] == rest[b - 1]);
                    let k0 = choose|k0: int|
                        0 <= k0 < rest_pairs.len() && rest_pairs[k0].0 == rest[b - 1].0 && (lookup(
                            fields,
                            #[trigger] rest_pairs[k0].0,
                        ) matches Some(v) && first_failing(rest_pairs[k0].1, v) == Some(
                            rest[b - 1].1,
                        ));
                    assert(rest_pairs[k0] == pairs[k0 + 1]);
                    assert(pairs[0].0 != pairs[k0 + 1].0);
                } else {
                    assert(snf[a] == rest[a - 1]);
                    assert(snf[b] == rest[b - 1]);
                }
            } else {
                assert(snf[a] == rest[a]);
                assert(snf[b] == rest[b]);
            }
        }
    }
}

/// The value of the first field with the given name, if the note has one.
fn lookup_field_value<'a>(fields: &'a Vec<(String, Field)>, name: &str) -> (r: Option<&'a String>)
    ensures
        match r {
            Some(v) => lookup(field_pairs(fields@), name@) == Some(v@),
            None => lookup(field_pairs(fields@), name@) is None,
        },
{
    let ghost fp = field_pairs(fields@);
    let n = fields.len();
    let mut i: usize = 0;
    proof {
        assert(fp.skip(0) =~= fp);
    }
    while i < n
        invariant
            0 <= i <= n,
            n == fields.len(),
            fp == field_pairs(fields@),
            fp.len() == n,
            lookup(fp, name@) == lookup(fp.skip(i as int), name@),
        decreases n - i,
    {
        proof {
            assert(fp.skip(i as int)[0] == fp[i as int]);
        }
        if str_eq(fields[i].0.as_str(), name) {
            return Some(&fields[i].1.value);
        }
        proof {
            assert(fp.skip(i as int).drop_first() =~= fp.skip(i + 1));
        }
        i = i + 1;
    }
    proof {
        assert(fp.skip(n as int) =~= Seq::<(Seq<char>, Seq<char>)>::empty());
    }
    None
}

/// The first rule in the list that the value fails, if any.
fn first_failing_rule<'a>(rules: &'a Vec<ValidationType>, value: &str) -> (r: Option<
    &'a ValidationType,
>)
    ensures
        match r {
            Some(rule) => first_failing(rules.deep_view(), value@) == Some(rule@),
            None => first_failing(rules.deep_view(), value@) is None,
        },
{
    let ghost rv = rules.deep_view();
    let n = rules.len();
    let mut i: usize = 0;
    proof {
        assert(rv.skip(0) =~= rv);
    }
    while i < n
        invariant
            0 <= i <= n,
            n == rules.len(),
            rv == rules.deep_view(),
            rv.len() == n,
            first_failing(rv, value@) == first_failing(rv.skip(i as int), value@),
        decreases n - i,
    {
        proof {
            assert(rv.skip(i as int)[0] == rv[i as int]);
        }
        if !rules[i].is_valid(value) {
            return Some(&rules[i]);
        }
        proof {
            assert(rv.skip(i as int).drop_first() =~= rv.skip(i + 1));
        }
        i = i + 1;
    }
    proof {
        assert(rv.skip(n as int) =~= Seq::<RuleView>::empty());
    }
    None
}

/// Checks one note against the whole rule set: per configured field, in
/// declared order, at most the first failing rule is recorded. A
/// configured field that the note itself lacks is a fatal error, not a
/// validation failure.
pub fn get_first_failing_validation_per_field(note: &NoteInfo, config: &ValidationConfig) -> (r:
    Result<Vec<(String, ValidationType)>, ValidationError>)
    ensures
        match r {
            Ok(failed) => all_fields_present(config@.field_validations, note_fields(*note))
                && failed.deep_view() == spec_note_failures(
                config@.field_validations,
                note_fields(*note),
            ),
            Err(e) => !all_fields_present(config@.field_validations, note_fields(*note)) && (
            e matches ValidationError::MissingNoteField { field, note_type } && field@
                == first_missing(config@.field_validations, note_fields(*note)) && note_type@
                == config@.note_type),
        },
{
    let mut result: Vec<(String, ValidationType)> = Vec::new();
    let ghost pairs = config@.field_validations;
    let ghost fields = note_fields(*note);
    let n = config.field_validations.len();
    let mut i: usize = 0;
    proof {
        assert(pairs.skip(0) =~= pairs);
        assert(result.deep_view() + spec_note_failures(pairs, fields) =~= spec_note_failures(
            pairs,
            fields,
        ));
    }
    while i < n
        invariant
            0 <= i <= n,
            n == config.field_validations.len(),
            pairs == config@.field_validations,
            fields == note_fields(*note),
            pairs.len() == n,
            forall|j: int| 0 <= j < i ==> lookup(fields, #[trigger] pairs[j].0) is Some,
            spec_note_failures(pairs, fields) == result.deep_view() + spec_note_failures(
                pairs.skip(i as int),
                fields,
            ),
            first_missing(pairs, fields) == first_missing(pairs.skip(i as int), fields),
        decreases n - i,
    {
        proof {
            assert(pairs.skip(i as int)[0] == pairs[i as int]);
            assert(pairs.skip(i as int).drop_first() =~= pairs.skip(i + 1));
        }
        match lookup_field_value(&note.fields, config.field_validations[i].0.as_str()) {
            Some(value) => {
                match first_failing_rule(&config.field_validations[i].1, value.as_str()) {
                    Some(rule) => {
                        let ghost old_dv = result.deep_view();
                        result.push((config.field_validations[i].0.clone(), rule.duplicate()));
                        proof {
                            assert(result.deep_view() =~= old_dv.push((pairs[i as int].0, rule@)));
                            assert(old_dv + (seq![(pairs[i as int].0, rule@)]
                                + spec_note_failures(pairs.skip(i + 1), fields)) =~= result.deep_view()
                                + spec_note_failures(pairs.skip(i + 1), fields));
                        }
                    },
                    None => {},
                }
            },
            None => {
                proof {
                    assert(lookup(fields, pairs[i as int].0) is None);
                    assert(first_missing(pairs, fields) == pairs[i as int].0);
                }
                return Err(
                    ValidationError::MissingNoteField {
                        field: config.field_validations[i].0.clone(),
                        note_type: config.note_type.clone(),
                    },
                );
            },
        }
        i = i + 1;
    }
    proof {
        assert(pairs.skip(n as int) =~= Seq::<(Seq<char>, Seq<RuleView>)>::empty());
        assert(result.deep_view() + Seq::<(Seq<char>, RuleView)>::empty() =~= result.deep_view());
    }
    Ok(result)
}

/// The outcome of one whole run: how many notes were examined, how many
/// failed, and per failed note the first failing rule of each field.
#[derive(Debug, PartialEq)]
pub struct ValidationResult {
    pub total_note_count: usize,
    pub failed_note_count: usize,
    pub validation_errors: Vec<(u64, Vec<(String, ValidationType)>)>,
}

impl ValidationResult {
    /// The failed-note count equals the number of recorded notes, and
    /// every recorded note carries at least one field failure.
    pub open spec fn wf(&self) -> bool {
        &&& self.failed_note_count == self.validation_errors@.len()
        &&& forall|i: int| 0 <= i < self.validation_errors@.len()
            ==> #[trigger] self.validation_errors@[i].1@.len() != 0
    }
}

/// Per note, in fetched order, the failure map of that note; notes with
/// no failure are left out. The first note that lacks a configured field
/// aborts the whole pass with that field's name.
pub open spec fn spec_execute_validation(
    pairs: Seq<(Seq<char>, Seq<RuleView>)>,
    notes: Seq<NoteInfo>,
) -> Result<Seq<(u64, Seq<(Seq<char>, RuleView)>)>, Seq<char>>
    decreases notes.len(),
{
    if notes.len() == 0 {
        Ok(Seq::empty())
    } else if !all_fields_present(pairs, note_fields(notes[0])) {
        Err(first_missing(pairs, note_fields(notes[0])))
    } else {
        let failures = spec_note_failures(pairs, note_fields(notes[0]));
        match spec_execute_validation(pairs, notes.drop_first()) {
            Ok(rest) => Ok(
                if failures.len() != 0 {
                    seq![(notes[0].note_id, failures)] + rest
                } else {
                    rest
                },
            ),
            Err(missing) => Err(missing),
        }
    }
}

/// Runs the rule set over every fetched note and aggregates the result:
/// the total count, the failed count, and per failed note the first
/// failing rule of each configured field.
pub fn execute_validation(config: &ValidationConfig, notes: &Vec<NoteInfo>) -> (r: Result<
    ValidationResult,
    ValidationError,
>)
    ensures
        match r {
            Ok(res) => spec_execute_validation(config@.field_validations, notes@) matches Ok(errs)
                && res.validation_errors.deep_view() == errs && res.total_note_count == notes@.len()
                && res.failed_note_count == errs.len() && res.wf(),
            Err(e) => spec_execute_validation(config@.field_validations, notes@) matches Err(
                missing,
            ) && (e matches ValidationError::MissingNoteField { field, note_type } && field@
                == missing && note_type@ == config@.note_type),
        },
{
    let ghost pairs = config@.field_validations;
    let mut failed: Vec<(u64, Vec<(String, ValidationType)>)> = Vec::new();
    let n = notes.len();
    let mut i: usize = 0;
    proof {
        assert(notes@.skip(0) =~= notes@);
        assert(failed.deep_view() =~= Seq::<(u64, Seq<(Seq<char>, RuleView)>)>::empty());
    }
    while i < n
        invariant
            0 <= i <= n,
            n == notes.len(),
            pairs == config@.field_validations,
            forall|k: int| 0 <= k < failed@.len() ==> #[trigger] failed@[k].1@.len() != 0,
            spec_execute_validation(pairs, notes@) == (match spec_execute_validation(
                pairs,
                notes@.skip(i as int),
            ) {
                Ok(rest) => Ok::<_, Seq<char>>(failed.deep_view() + rest),
                Err(missing) => Err::<Seq<(u64, Seq<(Seq<char>, RuleView)>)>, _>(missing),
            }),
        decreases n - i,
    {
        proof {
            assert(notes@.skip(i as int)[0] == notes@[i as int]);
            assert(notes@.skip(i as int).drop_first() =~= notes@.skip(i + 1));
        }
        match get_first_failing_validation_per_field(&notes[i], config) {
            Ok(failures) => {
                if failures.len() != 0 {
                    let ghost old_dv = failed.deep_view();
                    let ghost f = failures.deep_view();
                    failed.push((notes[i].note_id, failures));
                    proof {
                        assert(failed.deep_view() =~= old_dv.push((notes@[i as int].note_id, f)));
                        if spec_execute_validation(pairs, notes@.skip(i + 1)) is Ok {
                            let rest = spec_execute_validation(pairs, notes@.skip(i + 1))->Ok_0;
                            assert(old_dv + (seq![(notes@[i as int].note_id, f)] + rest)
                                =~= failed.deep_view() + rest);
                        }
                    }
                } else {
                    proof {
                        assert(failures.deep_view() =~= Seq::<(Seq<char>, RuleView)>::empty());
                    }
                }
            },
            Err(e) => {
                return Err(e);
            },
        }
        i = i + 1;
    }
    proof {
        assert(notes@.skip(n as int) =~= Seq::<NoteInfo>::empty());
        assert(failed.deep_view() + Seq::<(u64, Seq<(Seq<char>, RuleView)>)>::empty()
            =~= failed.deep_view());
    }
    let count = failed.len();
    Ok(
        ValidationResult {
            total_note_count: notes.len(),
            failed_note_count: count,
            validation_errors: failed,
        },
    )
}

/// The names in a (model name, model id) listing of the live schema.
pub open spec fn model_names(models: Seq<(String, u64)>) -> Seq<Seq<char>> {
    models.map_values(|p: (String, u64)| p.0@)
}

/// Finds the configured note type among the live schema's models.
pub fn resolve_model(config: &ValidationConfig, models: &Vec<(String, u64)>) -> (r: Result<
    String,
    ValidationError,
>)
    ensures
        match r {
            Ok(name) => name@ == config@.note_type && model_names(models@).contains(
                config@.note_type,
            ),
            Err(e) => !model_names(models@).contains(config@.note_type) && (
            e matches ValidationError::UnknownNoteType { note_type } && note_type@
                == config@.note_type),
        },
{
    let n = models.len();
    let mut i: usize = 0;
    while i < n
        invariant
            0 <= i <= n,
            n == models.len(),
            forall|j: int| 0 <= j < i ==> model_names(models@)[j] != config@.note_type,
        decreases n - i,
    {
        if str_eq(models[i].0.as_str(), config.note_type.as_str()) {
            proof {
                assert(model_names(models@)[i as int] == config@.note_type);
            }
            return Ok(models[i].0.clone());
        }
        i = i + 1;
    }
    Err(ValidationError::UnknownNoteType { note_type: config.note_type.clone() })
}

/// The field names of a rule set, in declared order.
pub open spec fn config_keys(pairs: Seq<(Seq<char>, Seq<RuleView>)>) -> Seq<Seq<char>> {
    pairs.map_values(|p: (Seq<char>, Seq<RuleView>)| p.0)
}

/// The configured fields that the schema's field list lacks, in declared
/// order.
pub open spec fn missing_schema_fields(
    pairs: Seq<(Seq<char>, Seq<RuleView>)>,
    schema: Seq<Seq<char>>,
) -> Seq<Seq<char>> {
    config_keys(pairs).filter(|k: Seq<char>| !schema.contains(k))
}

/// Compares the rule set's field names against the note type's live
/// field list, collecting every missing name before reporting, rather
/// than stopping at the first.
pub fn check_schema_fields(config: &ValidationConfig, field_names: &Vec<String>) -> (r: Result<
    (),
    ValidationError,
>)
    ensures
        match r {
            Ok(_) => missing_schema_fields(
                config@.field_validations,
                field_names.deep_view(),
            ).len() == 0,
            Err(e) => missing_schema_fields(config@.field_validations, field_names.deep_view()).len()
                != 0 && (e matches ValidationError::UnknownSchemaFields { note_type, fields }
                && note_type@ == config@.note_type && fields.deep_view() == missing_schema_fields(
                config@.field_validations,
                field_names.deep_view(),
            )),
        },
{
    let ghost keys = config_keys(config@.field_validations);
    let mut missing: Vec<String> = Vec::new();
    let n = config.field_validations.len();
    let mut i: usize = 0;
    proof {
        reveal(Seq::filter);
        assert(keys.take(0) =~= Seq::<Seq<char>>::empty());
        assert(missing.deep_view() =~= Seq::<Seq<char>>::empty());
    }
    while i < n
        invariant
            0 <= i <= n,
            n == config.field_validations.len(),
            keys == config_keys(config@.field_validations),
            keys.len() == n,
            missing.deep_view() == keys.take(i as int).filter(
                |k: Seq<char>| !field_names.deep_view().contains(k),
            ),
        decreases n - i,
    {
        let ghost old_dv = missing.deep_view();
        let present = contains_string(field_names, config.field_validations[i].0.as_str());
        if !present {
            missing.push(config.field_validations[i].0.clone());
        }
        proof {
            let p = |k: Seq<char>| !field_names.deep_view().contains(k);
            assert(keys.take(i + 1) =~= keys.take(i as int) + seq![keys[i as int]]);
            Seq::filter_distributes_over_add(keys.take(i as int), seq![keys[i as int]], p);
            lemma_filter_singleton(keys[i as int], p);
            if !present {
                assert(missing.deep_view() =~= old_dv.push(keys[i as int]));
                assert(old_dv + seq![keys[i as int]] =~= old_dv.push(keys[i as int]));
            } else {
                assert(old_dv + Seq::<Seq<char>>::empty() =~= old_dv);
            }
        }
        i = i + 1;
    }
    proof {
        assert(keys.take(n as int) =~= keys);
    }
    if missing.len() == 0 {
        Ok(())
    } else {
        Err(
            ValidationError::UnknownSchemaFields {
                note_type: config.note_type.clone(),
                fields: missing,
            },
        )
    }
}

/// The whole pre-flight reconciliation: the configured note type must
/// exist in the live schema, and every configured field must exist in
/// that note type's field list. Runs to completion before any note is
/// examined.
pub fn validate_config(
    config: &ValidationConfig,
    models: &Vec<(String, u64)>,
    field_names: &Vec<String>,
) -> (r: Result<(), ValidationError>)
    ensures
        match r {
            Ok(_) => model_names(models@).contains(config@.note_type) && missing_schema_fields(
                config@.field_validations,
                field_names.deep_view(),
            ).len() == 0,
            Err(e) => match e {
                ValidationError::UnknownNoteType { note_type } => !model_names(models@).contains(
                    config@.note_type,
                ) && note_type@ == config@.note_type,
                ValidationError::UnknownSchemaFields { note_type, fields } => model_names(
                    models@,
                ).contains(config@.note_type) && note_type@ == config@.note_type
                    && fields.deep_view() == missing_schema_fields(
                    config@.field_validations,
                    field_names.deep_view(),
                ) && fields.deep_view().len() != 0,
                _ => false,
            },
        },
{
    match resolve_model(config, models) {
        Err(e) => {
            return Err(e);
        },
        Ok(_) => {},
    }
    check_schema_fields(config, field_names)
}

/// The query that selects every note of the configured note type.
pub open spec fn spec_notes_query(note_type: Seq<char>) -> Seq<char> {
    "\"note:"@ + note_type + "\""@
}

/// Builds the query that fetches all notes of the configured note type.
pub fn notes_query(config: &ValidationConfig) -> (r: String)
    ensures
        r@ == spec_notes_query(config@.note_type),
{
    let mut r = "\"note:".to_owned();
    r.append(config.note_type.as_str());
    r.append("\"");
    r
}

/// The whole verification pass on already-fetched data: reconcile the
/// rule set against the live schema, then evaluate every note.
pub fn execute(
    config: &ValidationConfig,
    models: &Vec<(String, u64)>,
    field_names: &Vec<String>,
    notes: &Vec<NoteInfo>,
) -> (r: Result<ValidationResult, ValidationError>)
    ensures
        match r {
            Ok(res) => (spec_execute_validation(config@.field_validations, notes@) matches Ok(errs)
                && res.validation_errors.deep_view() == errs && res.total_note_count
                == notes@.len() && res.failed_note_count == errs.len() && res.wf())
                && model_names(models@).contains(config@.note_type) && missing_schema_fields(
                config@.field_validations,
                field_names.deep_view(),
            ).len() == 0,
            Err(e) => match e {
                ValidationError::UnknownNoteType { note_type } => !model_names(models@).contains(
                    config@.note_type,
                ) && note_type@ == config@.note_type,
                ValidationError::UnknownSchemaFields { note_type, fields } => model_names(
                    models@,
                ).contains(config@.note_type) && note_type@ == config@.note_type
                    && fields.deep_view() == missing_schema_fields(
                    config@.field_validations,
                    field_names.deep_view(),
                ) && fields.deep_view().len() != 0,
                ValidationError::MissingNoteField { field, note_type } => (spec_execute_validation(
                    config@.field_validations,
                    notes@,
                ) matches Err(missing) && field@ == missing && note_type@ == config@.note_type)
                    && model_names(models@).contains(config@.note_type) && missing_schema_fields(
                    config@.field_validations,
                    field_names.deep_view(),
                ).len() == 0,
                _ => false,
            },
        },
{
    match validate_config(config, models, field_names) {
        Err(e) => {
            return Err(e);
        },
        Ok(_) => {},
    }
    execute_validation(config, notes)
}

} // verus!
