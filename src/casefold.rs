use vstd::prelude::*;

verus! {

/// The Unicode case folding of a string, as computed by `unicase`.
pub uninterp spec fn fold_of(s: Seq<char>) -> Seq<char>;

/// The lower-case form of a string, as computed by `str::to_lowercase`.
pub uninterp spec fn lower_of(s: Seq<char>) -> Seq<char>;

/// Relies on `unicase::UniCase::to_folded_case`: the folded form depends on
/// the characters alone, so two strings compare equal under `UniCase` exactly
/// when their folded forms are equal.
#[verifier::external_body]
pub(crate) fn fold_case(s: &str) -> (r: String)
    ensures
        r@ == fold_of(s@),
{
    unicase::UniCase::new(s).to_folded_case()
}

/// Relies on `str::to_lowercase`: the result depends on the characters alone.
#[verifier::external_body]
pub(crate) fn to_lower(s: &str) -> (r: String)
    ensures
        r@ == lower_of(s@),
{
    s.to_lowercase()
}

} // verus!
