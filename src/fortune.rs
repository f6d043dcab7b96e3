//! Drawing a quotation from a list.
use vstd::prelude::*;
use crate::utils::random_below;

verus! {

/// A quotation of `fortunes` drawn at random, or `None` where there is
/// none.
pub fn get_random_fortune(fortunes: &[String]) -> (r: Option<String>)
    ensures
        r is None <==> fortunes.len() == 0,
        r is Some ==> exists|i: int| 0 <= i < fortunes.len() && r->0@ == (#[trigger] fortunes@[i])@,
{
    if fortunes.len() == 0 {
        None
    } else {
        let i = random_below(fortunes.len());
        Some(fortunes[i].clone())
    }
}

} // verus!
