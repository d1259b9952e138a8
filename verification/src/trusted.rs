//! Trusted boundary to the outside crates: bcrypt for password checking and
//! hashing, serde_json for decoding JSON request bodies. Verus believes the
//! contracts in this file; everything else in the crate is proved from them.

use vstd::prelude::*;

verus! {

/// Whether bcrypt accepts `password` against the stored `hash`. What
/// `bcrypt::verify` computes depends on its two arguments alone, so the
/// outcome is given a name here rather than a definition.
pub uninterp spec fn bcrypt_accepts(password: Seq<char>, hash: Seq<char>) -> bool;

/// Relies on bcrypt::verify: its result is a function of the password and
/// the stored hash alone. An error (an ill-formed stored hash) counts as a
/// rejection, exactly as a caller that accepts only `Ok(true)` treats it.
#[verifier::external_body]
pub fn bcrypt_verify(password: &str, hash: &str) -> (r: bool)
    ensures
        r == bcrypt_accepts(password@, hash@),
{
    bcrypt::verify(password, hash).unwrap_or(false)
}

/// Relies on bcrypt::hash: the salt is drawn from OS randomness, so the
/// hash itself is tied to nothing; but every hash it returns is one that
/// bcrypt::verify accepts for the hashed password, since verify re-derives
/// the hash from the password and the cost and salt stored in it. A failure
/// (a disallowed cost, or the randomness source failing) comes back as
/// `None`.
#[verifier::external_body]
pub fn bcrypt_hash(password: &str, cost: u32) -> (r: Option<String>)
    ensures
        r matches Some(h) ==> bcrypt_accepts(password@, h@),
{
    bcrypt::hash(password, cost).ok()
}

/// The string pairs of a flat JSON object with string values, sorted by
/// key; `None` when the text is not such an object.
pub uninterp spec fn json_string_pairs(s: Seq<char>) -> Option<Seq<(Seq<char>, Seq<char>)>>;

/// Relies on serde_json::from_str: deserializing into a string-to-string
/// B-tree map succeeds exactly on a flat JSON object with string values
/// (later duplicate keys win), and iterating that map yields the entries
/// sorted by key, so the result is a function of the text alone.
#[verifier::external_body]
pub fn parse_json_pairs(s: &str) -> (r: Option<Vec<(String, String)>>)
    ensures
        r is Some <==> json_string_pairs(s@) is Some,
        r matches Some(v) ==> json_string_pairs(s@) == Some(v.deep_view()),
{
    match serde_json::from_str::<std::collections::BTreeMap<String, String>>(s) {
        Ok(m) => Some(m.into_iter().collect()),
        Err(_) => None,
    }
}

} // verus!
