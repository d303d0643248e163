//! The data carried over the wire to and from the external application,
//! and the rules for reading its reply envelope. The transport itself
//! lives outside the library; everything here is plain data and logic.
use vstd::prelude::*;

use crate::text::dec_nat;
use crate::text::join_with;
use crate::text::u64_dec;

verus! {

/// One field of a note: its value and its position in the note type.
#[derive(Clone, Debug, PartialEq)]
pub struct Field {
    pub value: String,
    pub order: u32,
}

/// One note as fetched from the external application: its identifier
/// and its named field values.
#[derive(Debug, PartialEq)]
pub struct NoteInfo {
    pub note_id: u64,
    pub fields: Vec<(String, Field)>,
}

/// A note to be created in the external application.
#[derive(Debug, PartialEq)]
pub struct NewNote<'a> {
    pub deck_name: &'a str,
    pub model_name: &'a str,
    pub fields: Vec<(String, Field)>,
    pub tags: Vec<String>,
}

/// A failure reported by the remote application's reply envelope.
#[derive(Debug, PartialEq)]
pub enum ConnectError {
    /// The remote application reported this error string.
    ReceivedError(String),
    /// The reply carried neither an error nor a result.
    MissingResult,
}

/// Reading the remote application's reply envelope: a reported error
/// wins over any result, and a reply with neither is itself an error.
pub fn resolve_response<T>(result: Option<T>, error: Option<String>) -> (r: Result<
    T,
    ConnectError,
>)
    ensures
        error matches Some(msg) ==> r == Err::<T, ConnectError>(ConnectError::ReceivedError(msg)),
        error is None ==> (result matches Some(v) ==> r == Ok::<T, ConnectError>(v)),
        error is None && result is None ==> r == Err::<T, ConnectError>(
            ConnectError::MissingResult,
        ),
{
    if let Some(msg) = error {
        return Err(ConnectError::ReceivedError(msg));
    }
    match result {
        Some(v) => Ok(v),
        None => Err(ConnectError::MissingResult),
    }
}

/// The browser query selecting exactly the given notes: one `nid:` term
/// per note, joined with `" or "`.
pub open spec fn spec_browse_query(note_ids: Seq<u64>) -> Seq<char> {
    join_with(note_ids.map_values(|id: u64| "nid:"@ + dec_nat(id as int)), " or "@)
}

/// Builds the query that makes the external application's browser show
/// exactly the given notes.
pub fn browse_query(note_ids: &Vec<u64>) -> (r: String)
    ensures
        r@ == spec_browse_query(note_ids@),
{
    let mut terms: Vec<String> = Vec::new();
    let n = note_ids.len();
    let mut i: usize = 0;
    while i < n
        invariant
            0 <= i <= n,
            n == note_ids.len(),
            terms.deep_view() =~= note_ids@.take(i as int).map_values(
                |id: u64| "nid:"@ + dec_nat(id as int),
            ),
        decreases n - i,
    {
        let ghost old_terms = terms.deep_view();
        let mut term = "nid:".to_owned();
        let digits = u64_dec(note_ids[i]);
        term.append(digits.as_str());
        terms.push(term);
        proof {
            assert(term@ == "nid:"@ + dec_nat(note_ids@[i as int] as int));
            assert(terms.deep_view() =~= old_terms.push(term@));
            assert(terms.deep_view() =~= note_ids@.take(i + 1).map_values(
                |id: u64| "nid:"@ + dec_nat(id as int),
            ));
        }
        i = i + 1;
    }
    proof {
        assert(note_ids@.take(n as int) =~= note_ids@);
    }
    crate::text::join_strings(&terms, " or ")
}

} // verus!
