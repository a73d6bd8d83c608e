//! Identifiers: token format checking and fresh socket ids.

use vstd::prelude::*;

verus! {

/// Whether uuid's parser accepts this text as a UUID.
pub uninterp spec fn is_uuid_text(s: Seq<char>) -> bool;

/// Relies on `uuid::Uuid::parse_str`: accepts exactly the texts that
/// parse as UUIDs, and the verdict depends on the text alone.
#[verifier::external_body]
pub fn token_format_ok(s: &str) -> (r: bool)
    ensures
        r == is_uuid_text(s@),
{
    uuid::Uuid::parse_str(s).is_ok()
}

/// Relies on `uuid::Uuid::new_v4` and its `Display` form: a random
/// identifier, written in the hyphenated form of 36 characters.
/// Nothing further is promised of it: freshness is probabilistic.
#[verifier::external_body]
pub fn new_socket_id() -> (r: String)
    ensures
        r@.len() == 36,
{
    uuid::Uuid::new_v4().to_string()
}

} // verus!
