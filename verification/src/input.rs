//! Narrowing the rule set by the command-line filters: first by field
//! name, then by rule kind.
use vstd::prelude::*;

use crate::CliArgs;
use crate::CliValidationType;
use crate::field_validation::RuleView;
use crate::field_validation::ValidationConfig;
use crate::field_validation::ValidationError;
use crate::field_validation::ValidationType;
use crate::field_validation::config_keys;
use crate::field_validation::duplicate_rules;
use crate::text::lemma_filter_membership;
use crate::text::lemma_filter_no_duplicates;
use crate::text::lemma_filter_none;
use crate::text::lemma_filter_all;
use crate::text::lemma_filter_singleton;
use crate::text::str_eq;

verus! {

/// The kind of a rule, as the command-line filter names kinds.
pub open spec fn spec_validation_kind(r: RuleView) -> CliValidationType {
    match r {
        RuleView::Required => CliValidationType::Required,
        RuleView::ValueList(_) => CliValidationType::ValueList,
        RuleView::MustNotInclude(_) => CliValidationType::MustNotInclude,
    }
}

/// The command-line name of a rule's kind.
pub fn map_validation_type(validation_type: &ValidationType) -> (r: CliValidationType)
    ensures
        r == spec_validation_kind(validation_type@),
{
    match validation_type {
        ValidationType::Required => CliValidationType::Required,
        ValidationType::ValueList(_) => CliValidationType::ValueList,
        ValidationType::MustNotInclude(_) => CliValidationType::MustNotInclude,
    }
}

/// The requested filter fields that are not keys of the rule set, in
/// requested order.
pub open spec fn invalid_filter_fields(
    pairs: Seq<(Seq<char>, Seq<RuleView>)>,
    requested: Seq<Seq<char>>,
) -> Seq<Seq<char>> {
    requested.filter(|f: Seq<char>| !config_keys(pairs).contains(f))
}

/// The rule set narrowed to the requested fields, in declared order; a
/// no-op when no field is requested.
pub open spec fn spec_field_filtered(
    pairs: Seq<(Seq<char>, Seq<RuleView>)>,
    requested: Seq<Seq<char>>,
) -> Seq<(Seq<char>, Seq<RuleView>)> {
    if requested.len() == 0 {
        pairs
    } else {
        pairs.filter(|p: (Seq<char>, Seq<RuleView>)| requested.contains(p.0))
    }
}

/// Per field, only the rules of the requested kinds, order kept; fields
/// whose list empties stay with an empty list. A no-op when no kind is
/// requested.
pub open spec fn spec_kind_filtered(
    pairs: Seq<(Seq<char>, Seq<RuleView>)>,
    kinds: Seq<CliValidationType>,
) -> Seq<(Seq<char>, Seq<RuleView>)> {
    if kinds.len() == 0 {
        pairs
    } else {
        pairs.map_values(
            |p: (Seq<char>, Seq<RuleView>)|
                (p.0, p.1.filter(|r: RuleView| kinds.contains(spec_validation_kind(r)))),
        )
    }
}

/// Whether the rule set has a field of the given name.
fn key_in_config(config: &ValidationConfig, name: &str) -> (r: bool)
    ensures
        r == config_keys(config@.field_validations).contains(name@),
{
    let ghost keys = config_keys(config@.field_validations);
    let n = config.field_validations.len();
    let mut i: usize = 0;
    while i < n
        invariant
            0 <= i <= n,
            n == config.field_validations.len(),
            keys == config_keys(config@.field_validations),
            keys.len() == n,
            forall|j: int| 0 <= j < i ==> keys[j] != name@,
        decreases n - i,
    {
        if str_eq(config.field_validations[i].0.as_str(), name) {
            proof {
                assert(keys[i as int] == name@);
            }
            return true;
        }
        i = i + 1;
    }
    false
}

/// Whether a kind list names the given kind.
fn contains_kind(kinds: &Vec<CliValidationType>, k: CliValidationType) -> (r: bool)
    ensures
        r == kinds@.contains(k),
{
    let n = kinds.len();
    let mut i: usize = 0;
    while i < n
        invariant
            0 <= i <= n,
            n == kinds.len(),
            forall|j: int| 0 <= j < i ==> kinds@[j] != k,
        decreases n - i,
    {
        if kinds[i] == k {
            return true;
        }
        i = i + 1;
    }
    false
}

/// Narrows the rule set to the requested fields. Every requested field
/// must already be a key of the rule set; otherwise the whole request is
/// rejected, naming all unknown fields, and the rule set is untouched.
pub fn apply_field_filter(config: &mut ValidationConfig, args: &CliArgs) -> (r: Result<
    (),
    ValidationError,
>)
    ensures
        final(config)@.note_type == old(config)@.note_type,
        match r {
            Ok(_) => invalid_filter_fields(
                old(config)@.field_validations,
                args.fields.deep_view(),
            ).len() == 0 && final(config)@.field_validations == spec_field_filtered(
                old(config)@.field_validations,
                args.fields.deep_view(),
            ),
            Err(e) => invalid_filter_fields(
                old(config)@.field_validations,
                args.fields.deep_view(),
            ).len() != 0 && (e matches ValidationError::UnknownFilterFields { fields }
                && fields.deep_view() == invalid_filter_fields(
                old(config)@.field_validations,
                args.fields.deep_view(),
            )) && *final(config) == *old(config),
        },
{
    let ghost pairs = config@.field_validations;
    let ghost requested = args.fields.deep_view();
    if args.fields.len() == 0 {
        proof {
            lemma_filter_none(requested, |f: Seq<char>| !config_keys(pairs).contains(f));
        }
        return Ok(());
    }
    let mut invalid: Vec<String> = Vec::new();
    let nreq = args.fields.len();
    let mut i: usize = 0;
    proof {
        reveal(Seq::filter);
        assert(requested.take(0) =~= Seq::<Seq<char>>::empty());
        assert(invalid.deep_view() =~= Seq::<Seq<char>>::empty());
    }
    while i < nreq
        invariant
            0 <= i <= nreq,
            nreq == args.fields.len(),
            pairs == config@.field_validations,
            requested == args.fields.deep_view(),
            requested.len() == nreq,
            invalid.deep_view() == requested.take(i as int).filter(
                |f: Seq<char>| !config_keys(pairs).contains(f),
            ),
        decreases nreq - i,
    {
        let ghost old_dv = invalid.deep_view();
        let present = key_in_config(config, args.fields[i].as_str());
        if !present {
            invalid.push(args.fields[i].clone());
        }
        proof {
            let p = |f: Seq<char>| !config_keys(pairs).contains(f);
            assert(requested.take(i + 1) =~= requested.take(i as int) + seq![
                requested[i as int],
            ]);
            Seq::filter_distributes_over_add(requested.take(i as int), seq![requested[i as int]], p);
            lemma_filter_singleton(requested[i as int], p);
            if !present {
                assert(invalid.deep_view() =~= old_dv.push(requested[i as int]));
                assert(old_dv + seq![requested[i as int]] =~= old_dv.push(requested[i as int]));
            } else {
                assert(old_dv + Seq::<Seq<char>>::empty() =~= old_dv);
            }
        }
        i = i + 1;
    }
    proof {
        assert(requested.take(nreq as int) =~= requested);
    }
    if invalid.len() != 0 {
        return Err(ValidationError::UnknownFilterFields { fields: invalid });
    }
    let mut kept: Vec<(String, Vec<ValidationType>)> = Vec::new();
    let n = config.field_validations.len();
    let mut j: usize = 0;
    proof {
        assert(pairs.take(0) =~= Seq::<(Seq<char>, Seq<RuleView>)>::empty());
        assert(kept.deep_view() =~= Seq::<(Seq<char>, Seq<RuleView>)>::empty());
    }
    while j < n
        invariant
            0 <= j <= n,
            n == config.field_validations.len(),
            pairs == config@.field_validations,
            requested == args.fields.deep_view(),
            requested.len() != 0,
            pairs.len() == n,
            kept.deep_view() == pairs.take(j as int).filter(
                |p: (Seq<char>, Seq<RuleView>)| requested.contains(p.0),
            ),
        decreases n - j,
    {
        let ghost old_dv = kept.deep_view();
        let wanted = crate::text::contains_string(
            &args.fields,
            config.field_validations[j].0.as_str(),
        );
        if wanted {
            let key = config.field_validations[j].0.clone();
            let rules = duplicate_rules(&config.field_validations[j].1);
            kept.push((key, rules));
        }
        proof {
            let p = |p: (Seq<char>, Seq<RuleView>)| requested.contains(p.0);
            assert(pairs.take(j + 1) =~= pairs.take(j as int) + seq![pairs[j as int]]);
            Seq::filter_distributes_over_add(pairs.take(j as int), seq![pairs[j as int]], p);
            lemma_filter_singleton(pairs[j as int], p);
            if wanted {
                assert(kept.deep_view().last() == pairs[j as int]);
                assert(kept.deep_view() =~= old_dv.push(pairs[j as int]));
                assert(old_dv + seq![pairs[j as int]] =~= old_dv.push(pairs[j as int]));
            } else {
                assert(old_dv + Seq::<(Seq<char>, Seq<RuleView>)>::empty() =~= old_dv);
            }
        }
        j = j + 1;
    }
    proof {
        assert(pairs.take(n as int) =~= pairs);
    }
    config.field_validations = kept;
    Ok(())
}

/// Narrows every field's rule list to the requested kinds, keeping the
/// declared order; a no-op when no kind is requested.
pub fn apply_validation_filter(config: &mut ValidationConfig, args: &CliArgs)
    ensures
        final(config)@.note_type == old(config)@.note_type,
        final(config)@.field_validations == spec_kind_filtered(
            old(config)@.field_validations,
            args.validations@,
        ),
{
    let ghost pairs = config@.field_validations;
    let ghost kinds = args.validations@;
    if args.validations.len() == 0 {
        return ;
    }
    let mut out: Vec<(String, Vec<ValidationType>)> = Vec::new();
    let n = config.field_validations.len();
    let mut i: usize = 0;
    let ghost f = |p: (Seq<char>, Seq<RuleView>)|
        (p.0, p.1.filter(|r: RuleView| kinds.contains(spec_validation_kind(r))));
    proof {
        assert(out.deep_view() =~= pairs.take(0).map_values(f));
    }
    while i < n
        invariant
            0 <= i <= n,
            n == config.field_validations.len(),
            pairs == config@.field_validations,
            kinds == args.validations@,
            kinds.len() != 0,
            pairs.len() == n,
            f == (|p: (Seq<char>, Seq<RuleView>)|
                (p.0, p.1.filter(|r: RuleView| kinds.contains(spec_validation_kind(r))))),
            out.deep_view() == pairs.take(i as int).map_values(f),
        decreases n - i,
    {
        let ghost old_dv = out.deep_view();
        let key = config.field_validations[i].0.clone();
        let mut kept_rules: Vec<ValidationType> = Vec::new();
        let ghost rules_v = pairs[i as int].1;
        let m = config.field_validations[i].1.len();
        let mut j: usize = 0;
        proof {
            assert(rules_v == config.field_validations@[i as int].1.deep_view());
            assert(kept_rules.deep_view() =~= rules_v.take(0).filter(
                |r: RuleView| kinds.contains(spec_validation_kind(r)),
            ));
        }
        while j < m
            invariant
                0 <= j <= m,
                0 <= i < n,
                n == config.field_validations.len(),
                pairs == config@.field_validations,
                kinds == args.validations@,
                pairs.len() == n,
                m == config.field_validations@[i as int].1.len(),
                rules_v == pairs[i as int].1,
                rules_v.len() == m,
                kept_rules.deep_view() == rules_v.take(j as int).filter(
                    |r: RuleView| kinds.contains(spec_validation_kind(r)),
                ),
            decreases m - j,
        {
            let ghost old_rules_dv = kept_rules.deep_view();
            let kind = map_validation_type(&config.field_validations[i].1[j]);
            let chosen = contains_kind(&args.validations, kind);
            if chosen {
                kept_rules.push(config.field_validations[i].1[j].duplicate());
            }
            proof {
                let p = |r: RuleView| kinds.contains(spec_validation_kind(r));
                assert(rules_v[j as int] == config.field_validations@[i as int].1@[j as int]@);
                assert(rules_v.take(j + 1) =~= rules_v.take(j as int) + seq![rules_v[j as int]]);
                Seq::filter_distributes_over_add(
                    rules_v.take(j as int),
                    seq![rules_v[j as int]],
                    p,
                );
                lemma_filter_singleton(rules_v[j as int], p);
                if chosen {
                    assert(kept_rules.deep_view() =~= old_rules_dv.push(rules_v[j as int]));
                    assert(old_rules_dv + seq![rules_v[j as int]] =~= old_rules_dv.push(
                        rules_v[j as int],
                    ));
                } else {
                    assert(old_rules_dv + Seq::<RuleView>::empty() =~= old_rules_dv);
                }
            }
            j = j + 1;
        }
        out.push((key, kept_rules));
        proof {
            assert(rules_v.take(m as int) =~= rules_v);
            assert(out.deep_view().last() == f(pairs[i as int]));
            assert(out.deep_view() =~= old_dv.push(f(pairs[i as int])));
            assert(out.deep_view() =~= pairs.take(i + 1).map_values(f));
        }
        i = i + 1;
    }
    proof {
        assert(pairs.take(n as int) =~= pairs);
    }
    config.field_validations = out;
}

/// Applies the command-line filters to the rule set: first the field
/// filter, then the kind filter.
pub fn apply_cli_args_on_config(config: &mut ValidationConfig, args: &CliArgs) -> (r: Result<
    (),
    ValidationError,
>)
    ensures
        final(config)@.note_type == old(config)@.note_type,
        match r {
            Ok(_) => invalid_filter_fields(
                old(config)@.field_validations,
                args.fields.deep_view(),
            ).len() == 0 && final(config)@.field_validations == spec_kind_filtered(
                spec_field_filtered(old(config)@.field_validations, args.fields.deep_view()),
                args.validations@,
            ),
            Err(e) => invalid_filter_fields(
                old(config)@.field_validations,
                args.fields.deep_view(),
            ).len() != 0 && (e matches ValidationError::UnknownFilterFields { fields }
                && fields.deep_view() == invalid_filter_fields(
                old(config)@.field_validations,
                args.fields.deep_view(),
            )) && *final(config) == *old(config),
        },
{
    match apply_field_filter(config, args) {
        Err(e) => {
            return Err(e);
        },
        Ok(_) => {},
    }
    apply_validation_filter(config, args);
    Ok(())
}

/// Both filters keep the rule set a true mapping: when no field name
/// repeats before filtering, none repeats after the field filter and the
/// kind filter have run, in either order or alone.
pub proof fn lemma_filters_preserve_distinct_keys(
    pairs: Seq<(Seq<char>, Seq<RuleView>)>,
    requested: Seq<Seq<char>>,
    kinds: Seq<CliValidationType>,
)
    requires
        crate::field_validation::distinct_keys(pairs),
    ensures
        crate::field_validation::distinct_keys(spec_field_filtered(pairs, requested)),
        crate::field_validation::distinct_keys(spec_kind_filtered(pairs, kinds)),
        crate::field_validation::distinct_keys(
            spec_kind_filtered(spec_field_filtered(pairs, requested), kinds),
        ),
{
    lemma_field_filter_distinct_keys(pairs, requested);
    lemma_kind_filter_distinct_keys(pairs, kinds);
    lemma_kind_filter_distinct_keys(spec_field_filtered(pairs, requested), kinds);
}

proof fn lemma_field_filter_distinct_keys(
    pairs: Seq<(Seq<char>, Seq<RuleView>)>,
    requested: Seq<Seq<char>>,
)
    requires
        crate::field_validation::distinct_keys(pairs),
    ensures
        crate::field_validation::distinct_keys(spec_field_filtered(pairs, requested)),
{
    if requested.len() != 0 {
        let keep = |p: (Seq<char>, Seq<RuleView>)| requested.contains(p.0);
        let f = pairs.filter(keep);
        assert(pairs.no_duplicates()) by {
            assert forall|i: int, j: int| 0 <= i < j < pairs.len() implies pairs[i]
                != pairs[j] by {
                assert(pairs[i].0 != pairs[j].0);
            }
        }
        lemma_filter_no_duplicates(pairs, keep);
        assert forall|i: int, j: int| 0 <= i < j < f.len() implies f[i].0 != f[j].0 by {
            lemma_filter_membership(pairs, keep, i);
            lemma_filter_membership(pairs, keep, j);
            let k = choose|k: int| 0 <= k < pairs.len() && pairs[k] == f[i];
            let m = choose|m: int| 0 <= m < pairs.len() && pairs[m] == f[j];
            if f[i].0 == f[j].0 {
                assert(pairs[k].0 == pairs[m].0);
                assert(k == m);
                assert(f[i] == f[j]);
            }
        }
    }
}

proof fn lemma_kind_filter_distinct_keys(
    pairs: Seq<(Seq<char>, Seq<RuleView>)>,
    kinds: Seq<CliValidationType>,
)
    requires
        crate::field_validation::distinct_keys(pairs),
    ensures
        crate::field_validation::distinct_keys(spec_kind_filtered(pairs, kinds)),
{
    if kinds.len() != 0 {
        let f = spec_kind_filtered(pairs, kinds);
        assert forall|i: int, j: int| 0 <= i < j < f.len() implies f[i].0 != f[j].0 by {
            assert(f[i].0 == pairs[i].0);
            assert(f[j].0 == pairs[j].0);
        }
    }
}

/// Narrowing to a field set is idempotent: once the filter has passed
/// its validity check and narrowed the rule set, filtering again with
/// the same field set passes the check too and changes nothing.
pub proof fn lemma_field_filter_idempotent(
    pairs: Seq<(Seq<char>, Seq<RuleView>)>,
    requested: Seq<Seq<char>>,
)
    requires
        invalid_filter_fields(pairs, requested).len() == 0,
    ensures
        spec_field_filtered(spec_field_filtered(pairs, requested), requested)
            == spec_field_filtered(pairs, requested),
        invalid_filter_fields(spec_field_filtered(pairs, requested), requested).len() == 0,
{
    if requested.len() == 0 {
        lemma_filter_none(requested, |f: Seq<char>| !config_keys(pairs).contains(f));
    } else {
        let keep = |p: (Seq<char>, Seq<RuleView>)| requested.contains(p.0);
        let once = pairs.filter(keep);
        assert forall|i: int| 0 <= i < once.len() implies keep(#[trigger] once[i]) by {
            pairs.lemma_filter_pred(keep, i);
        }
        lemma_filter_all(once, keep);
        let bad = |f: Seq<char>| !config_keys(pairs).contains(f);
        assert forall|j: int| 0 <= j < requested.len() implies config_keys(once).contains(
            #[trigger] requested[j],
        ) by {
            if !config_keys(pairs).contains(requested[j]) {
                requested.lemma_filter_contains(bad, j);
            }
            let k = choose|k: int|
                0 <= k < pairs.len() && config_keys(pairs)[k] == requested[j];
            assert(keep(pairs[k]));
            pairs.lemma_filter_contains(keep, k);
            let m = choose|m: int| 0 <= m < once.len() && once[m] == pairs[k];
            assert(config_keys(once)[m] == requested[j]);
        }
        lemma_filter_none(requested, |f: Seq<char>| !config_keys(once).contains(f));
    }
}

} // verus!