//! Validation of structured notes against a declarative set of per-field
//! rules: the rule model, config filtering, schema reconciliation, the
//! evaluation pass, and the shaping of the final report.
use vstd::prelude::*;

use crate::field_validation::ValidationResult;
use crate::field_validation::ValidationType;

pub mod anki;
pub mod field_validation;
pub mod input;
pub mod output;
pub mod text;

verus! {

/// A rule kind, as named on the command line to narrow the rule set.
#[derive(Clone, Copy, Debug, PartialEq, Eq, Structural)]
pub enum CliValidationType {
    Required,
    ValueList,
    MustNotInclude,
}

/// The command-line surface: the config file path, whether to show the
/// failing notes in the host application's browser afterwards, and the
/// two optional filters that narrow the active rule set.
#[derive(Debug)]
pub struct CliArgs {
    pub config_file: String,
    pub browse: bool,
    pub fields: Vec<String>,
    pub validations: Vec<CliValidationType>,
}

/// The ids of the failed notes, in recorded order.
pub open spec fn spec_failing_note_ids(result: ValidationResult) -> Seq<u64> {
    result.validation_errors@.map_values(|p: (u64, Vec<(String, ValidationType)>)| p.0)
}

/// The ids of the failed notes, in recorded order, capped at the given
/// batch size so that one browse request stays within the host
/// application's query-length limit.
pub fn failing_note_ids(result: &ValidationResult, cap: usize) -> (r: Vec<u64>)
    ensures
        cap as int <= spec_failing_note_ids(*result).len() ==> r@ == spec_failing_note_ids(
            *result,
        ).take(cap as int),
        cap as int > spec_failing_note_ids(*result).len() ==> r@ == spec_failing_note_ids(*result),
{
    let ghost ids = spec_failing_note_ids(*result);
    let n = result.validation_errors.len();
    let limit = if cap < n {
        cap
    } else {
        n
    };
    let mut r: Vec<u64> = Vec::new();
    let mut i: usize = 0;
    proof {
        assert(r@ =~= ids.take(0));
    }
    while i < limit
        invariant
            0 <= i <= limit,
            limit <= n,
            n == result.validation_errors.len(),
            ids == spec_failing_note_ids(*result),
            ids.len() == n,
            r@ == ids.take(i as int),
        decreases limit - i,
    {
        r.push(result.validation_errors[i].0);
        proof {
            assert(ids[i as int] == result.validation_errors@[i as int].0);
            assert(r@ =~= ids.take(i + 1));
        }
        i = i + 1;
    }
    proof {
        if cap as int > ids.len() {
            assert(ids.take(n as int) =~= ids);
        }
    }
    r
}

} // verus!
