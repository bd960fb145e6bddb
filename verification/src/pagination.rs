//! Walking through paginated API listings.
use vstd::prelude::*;

verus! {

/// The token of the next page, from a listing's (doubly optional) token: a
/// non-empty token means there is another page; no token, or an empty one, ends
/// the walk.
pub fn next_page_token(token: Option<Option<String>>) -> (r: Option<String>)
    ensures
        match token {
            Some(Some(t)) => if t@.len() > 0 {
                r == Some(t)
            } else {
                r is None
            },
            _ => r is None,
        },
{
    match token {
        Some(Some(t)) => {
            if t.unicode_len() > 0 {
                Some(t)
            } else {
                None
            }
        },
        _ => None,
    }
}

} // verus!
