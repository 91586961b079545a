//! Validation of local identifiers against a record's regular-expression
//! pattern. The regex engine is the one outside call of the library; its
//! two outcomes are named so that contracts can speak about them exactly.

use vstd::prelude::*;

use crate::error::{CuriesError, ErrorView};
use crate::record::{Record, RecordView};
use crate::strutil::concat3;

verus! {

/// Whether the regular expression `pattern` is accepted by the regex
/// engine; a function of the pattern string alone.
pub uninterp spec fn pattern_compiles(pattern: Seq<char>) -> bool;

/// Whether the regular expression `pattern` matches somewhere inside
/// `text`; a function of the pattern and the text alone.
pub uninterp spec fn pattern_matches(pattern: Seq<char>, text: Seq<char>) -> bool;

/// Relies on `regex::Regex::new` and `regex::Regex::is_match`: whether a
/// pattern compiles is a function of the pattern string alone, and whether
/// the compiled pattern matches somewhere in a text is a function of the
/// pattern and the text alone. `is_match` searches anywhere in the text, so
/// anchoring is the pattern's own business.
#[verifier::external_body]
fn regex_is_match(pattern: &str, text: &str) -> (r: Option<bool>)
    ensures
        r is Some <==> pattern_compiles(pattern@),
        r matches Some(b) ==> b == pattern_matches(pattern@, text@),
{
    match regex::Regex::new(pattern) {
        Ok(re) => Some(re.is_match(text)),
        Err(_) => None,
    }
}

/// The validation outcome for `id` against the record's pattern: `None`
/// when the id is accepted, otherwise the error that is reported.
pub open spec fn spec_validate(r: RecordView, id: Seq<char>) -> Option<ErrorView> {
    match r.pattern {
        None => None,
        Some(p) => if !pattern_compiles(p) {
            Some(ErrorView::InvalidFormat("Invalid regex pattern "@ + p))
        } else if !pattern_matches(p, id) {
            Some(
                ErrorView::InvalidFormat("ID "@ + id + " does not match the pattern "@ + p),
            )
        } else {
            None
        },
    }
}

/// Whether `id` passes validation against the record's pattern.
pub open spec fn id_valid(r: RecordView, id: Seq<char>) -> bool {
    spec_validate(r, id) is None
}

/// Validates `id` against the record's pattern, when the record has one.
pub fn validate_id(record: &Record, id: &str) -> (r: Result<(), CuriesError>)
    ensures
        ({
            match spec_validate(record@, id@) {
                None => r is Ok,
                Some(e) => r matches Err(err) && err@ == e,
            }
        }),
{
    match &record.pattern {
        None => Ok(()),
        Some(p) => match regex_is_match(p.as_str(), id) {
            None => Err(
                CuriesError::InvalidFormat(
                    crate::strutil::concat2("Invalid regex pattern ", p.as_str()),
                ),
            ),
            Some(true) => Ok(()),
            Some(false) => {
                let msg = concat3("ID ", id, " does not match the pattern ");
                Err(CuriesError::InvalidFormat(msg.concat(p.as_str())))
            },
        },
    }
}

} // verus!
