//! Project discovery helpers: decoding candidate directory names and
//! assembling the final project list.
//!
//! The embedding application walks the filesystem (glob matches for
//! feature lists, the transcript root's directory names, existence
//! checks); the decoding and the ordering of what it found happen here.

use vstd::prelude::*;

use crate::text::{starts_with_char, sort_dedup_strings, strictly_sorted, string_views};

verus! {

/// What percent-decoding yields: `None` exactly when the decoded bytes are
/// not valid UTF-8.
pub uninterp spec fn percent_decoded(s: Seq<char>) -> Option<Seq<char>>;

/// Relies on `urlencoding::decode`: percent-decoding assuming UTF-8. The
/// result is a function of the input alone, and an input without `'%'` is
/// returned unchanged.
#[verifier::external_body]
fn percent_decode(s: &str) -> (r: Option<String>)
    ensures
        match r {
            Some(d) => percent_decoded(s@) == Some(d@),
            None => percent_decoded(s@) is None,
        },
        (forall|i: int| 0 <= i < s@.len() ==> s@[i] != '%') ==> (match r {
            Some(d) => d@ == s@,
            None => false,
        }),
{
    match urlencoding::decode(s) {
        Ok(d) => Some(d.into_owned()),
        Err(_) => None,
    }
}

/// Decode one transcript-root directory name into a candidate project
/// path: hidden names are skipped, the rest percent-decoded.
pub fn decode_candidate(name: &str) -> (r: Option<String>)
    ensures
        name@.len() > 0 && name@[0] == '.' ==> r is None,
        !(name@.len() > 0 && name@[0] == '.') ==> match r {
            Some(d) => percent_decoded(name@) == Some(d@),
            None => percent_decoded(name@) is None,
        },
{
    if starts_with_char(name, '.') {
        return None;
    }
    percent_decode(name)
}

/// Assemble the scanned project list: the feature-list locations found by
/// globbing together with the decoded transcript-root candidates that
/// exist, sorted and with duplicates dropped.
pub fn scan_projects(found: Vec<String>, decoded_existing: Vec<String>) -> (r: Vec<String>)
    ensures
        strictly_sorted(string_views(r@)),
        forall|d: Seq<char>|
            #[trigger] string_views(r@).contains(d) == string_views(
                found@ + decoded_existing@,
            ).contains(d),
{
    let mut all: Vec<String> = found;
    let mut rest: Vec<String> = decoded_existing;
    all.append(&mut rest);
    sort_dedup_strings(&all)
}

} // verus!
