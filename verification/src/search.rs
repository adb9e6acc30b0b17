//! Fuzzy search of the tree rows, by the `frizbee` matcher.

use vstd::prelude::*;
use crate::text::string_views;

verus! {

/// The indices of the haystacks that `frizbee` matches against `needle` with its
/// default configuration, in the order it ranks them.
pub uninterp spec fn fuzzy_matches(needle: Seq<char>, haystacks: Seq<Seq<char>>) -> Seq<usize>;

/// Runs `frizbee::Matcher::match_list` for `needle` (with `Config::default()`) on
/// `haystacks` and returns the index of each match. Claimed: the result is the
/// named function of the needle's and the haystacks' characters, and every index
/// it holds is an index of `haystacks` and occurs once (each match carries the
/// position at which the matcher enumerated its haystack, and each haystack is
/// matched at most once). The matcher panics on more than
/// `u32::MAX` haystacks, which `requires` leaves out.
#[verifier::external_body]
pub(crate) fn match_indices(needle: &String, haystacks: &Vec<String>) -> (r: Vec<usize>)
    requires
        haystacks.len() <= u32::MAX,
    ensures
        r@ == fuzzy_matches(needle@, string_views(haystacks@)),
        forall|i: int| 0 <= i < r.len() ==> r[i] < haystacks.len(),
        r@.no_duplicates(),
{
    let mut matcher = frizbee::Matcher::new(needle.as_str(), &frizbee::Config::default());
    matcher.match_list(haystacks).into_iter().map(|m| m.index as usize).collect()
}

} // verus!
