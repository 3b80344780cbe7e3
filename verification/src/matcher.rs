//! Scoring of a candidate string against a live query.
//!
//! A rating is carried as the bit encoding of the underlying
//! similarity value. On non-negative similarities that encoding is
//! strictly monotone, so two ratings compare exactly as the
//! similarities they encode; a similarity of one encodes to
//! `RATING_ONE`, a similarity of zero to `0`.

use vstd::prelude::*;

verus! {

/// The encoding of a similarity of exactly one: the largest rating.
pub const RATING_ONE: u64 = 0x3FF0000000000000;

/// The Unicode lowercase form of a string, as `str::to_lowercase`
/// computes it.
pub uninterp spec fn lower_of(s: Seq<char>) -> Seq<char>;

/// The Jaro-Winkler similarity of two strings, as
/// `strsim::jaro_winkler` computes it, carried as its
/// order-preserving bit encoding.
pub uninterp spec fn similarity_of(a: Seq<char>, b: Seq<char>) -> int;

/// Relies on `str::to_lowercase`: the result is the Unicode lowercase
/// form of the input, a function of its characters alone, and
/// lowercasing a string that is already lowercase leaves it unchanged.
#[verifier::external_body]
fn to_lower(s: &str) -> (r: String)
    ensures
        r@ == lower_of(s@),
        lower_of(r@) == r@,
{
    s.to_lowercase()
}

/// Relies on `strsim::jaro_winkler`: the similarity is a value in the
/// unit interval that depends on the two arguments alone. The body
/// only re-expresses it as its bit encoding, which on the unit
/// interval is strictly monotone and bounded by `RATING_ONE`.
#[verifier::external_body]
fn similarity_code(a: &str, b: &str) -> (r: u64)
    ensures
        r == similarity_of(a@, b@),
        r <= RATING_ONE,
{
    strsim::jaro_winkler(a, b).to_bits()
}

/// The rating of candidate `c` against query `q`: the similarity of
/// the two strings once both are lowercased.
pub open spec fn score_spec(q: Seq<char>, c: Seq<char>) -> int {
    similarity_of(lower_of(q), lower_of(c))
}

/// Score one candidate against the query, case-insensitively.
///
/// The rating never exceeds `RATING_ONE`, and lowercasing the
/// operands beforehand does not change it.
pub fn score(query: &str, candidate: &str) -> (r: u64)
    ensures
        r == score_spec(query@, candidate@),
        r <= RATING_ONE,
        score_spec(query@, candidate@) == score_spec(lower_of(query@), lower_of(candidate@)),
{
    let lq = to_lower(query);
    let lc = to_lower(candidate);
    similarity_code(lq.as_str(), lc.as_str())
}

} // verus!
