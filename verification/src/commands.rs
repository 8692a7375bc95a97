//! Picking a wallpaper at random, as the command-line flag does without
//! opening the window.

use vstd::prelude::*;

use rand::seq::IteratorRandom;

verus! {

/// Relies on rand's `IteratorRandom::choose` over `0..n` with `thread_rng`:
/// some position below `n`, or nothing exactly when the range is empty.
/// Which position comes back is random, so nothing more is promised.
#[verifier::external_body]
pub(crate) fn choose_index(n: usize) -> (r: Option<usize>)
    ensures
        r is Some <==> n > 0,
        r matches Some(k) ==> k < n,
{
    (0..n).choose(&mut rand::thread_rng())
}

/// Picks one of the given image paths at random: nothing exactly when there
/// are none, else one of them.  Listing the wallpapers folder and applying
/// the picked wallpaper stay with the caller.
pub fn pick_random_image(paths: &Vec<String>) -> (r: Option<String>)
    ensures
        r is Some <==> paths@.len() > 0,
        r matches Some(p) ==> exists|k: int| 0 <= k < paths@.len() && p@ == paths@[k]@,
{
    match choose_index(paths.len()) {
        Option::Some(k) => {
            let p = paths[k].clone();
            proof {
                assert(p@ == paths@[k as int]@);
            }
            Option::Some(p)
        },
        Option::None => Option::None,
    }
}

} // verus!
