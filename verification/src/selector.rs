//! The selector: one item from each adjacent pair, as a bit vector says.

use crate::digest::Digest;
use crate::error::Error;
use vstd::prelude::*;

verus! {

/// From each adjacent pair of `items`, the right one where the bit of
/// `selector` at the pair's index is set and the left one where it is not.
pub open spec fn choose_from_pairs<T>(selector: Seq<bool>, items: Seq<T>) -> Seq<T> {
    Seq::new(
        selector.len(),
        |i: int|
            if selector[i] {
                items[2 * i + 1]
            } else {
                items[2 * i]
            },
    )
}

/// The contents of each list of a list of lists, as sequences.
pub open spec fn contents<T>(lists: Seq<Vec<T>>) -> Seq<Seq<T>> {
    Seq::new(lists.len(), |i: int| lists[i]@)
}

/// Picks one digest from each adjacent pair of `images`, as the bits of
/// `selector` say. Fails with `InvalidInput` unless there are exactly two
/// images for each bit.
pub fn select(selector: &Vec<bool>, images: &Vec<Digest>) -> (selected: Result<Vec<Digest>, Error>)
    ensures
        (match selected {
            Ok(chosen) => {
                &&& images@.len() == 2 * selector@.len()
                &&& chosen@ == choose_from_pairs(selector@, images@)
            },
            Err(reason) => {
                &&& images@.len() != 2 * selector@.len()
                &&& reason == Error::InvalidInput
            },
        }),
{
    if images.len() % 2 != 0 || images.len() / 2 != selector.len() {
        return Err(Error::InvalidInput);
    }
    let mut selected_images: Vec<Digest> = Vec::new();
    let mut i: usize = 0;
    while i < selector.len()
        invariant
            images.len() == 2 * selector.len(),
            i <= selector.len(),
            selected_images@ == choose_from_pairs(selector@, images@).take(i as int),
        decreases selector.len() - i,
    {
        let picked = if selector[i] {
            images[2 * i + 1]
        } else {
            images[2 * i]
        };
        selected_images.push(picked);
        i = i + 1;
    }
    Ok(selected_images)
}

/// Picks one preimage from each adjacent pair of `pre_images` by the same
/// rule as [`select`]: this is what a discloser hands to a verifier. Fails
/// with `InvalidInput` unless there are exactly two preimages for each bit.
pub fn select_pre_images(selector: &Vec<bool>, pre_images: &Vec<Vec<u64>>) -> (selected: Result<
    Vec<Vec<u64>>,
    Error,
>)
    ensures
        (match selected {
            Ok(chosen) => {
                &&& pre_images@.len() == 2 * selector@.len()
                &&& contents(chosen@) == choose_from_pairs(selector@, contents(pre_images@))
            },
            Err(reason) => {
                &&& pre_images@.len() != 2 * selector@.len()
                &&& reason == Error::InvalidInput
            },
        }),
{
    if pre_images.len() % 2 != 0 || pre_images.len() / 2 != selector.len() {
        return Err(Error::InvalidInput);
    }
    let mut selected_images: Vec<Vec<u64>> = Vec::new();
    let mut i: usize = 0;
    while i < selector.len()
        invariant
            pre_images.len() == 2 * selector.len(),
            i <= selector.len(),
            selected_images@.len() == i,
            forall|k: int|
                0 <= k < i ==> (#[trigger] selected_images@[k])@ == choose_from_pairs(
                    selector@,
                    contents(pre_images@),
                )[k],
        decreases selector.len() - i,
    {
        let picked = if selector[i] {
            pre_images[2 * i + 1].clone()
        } else {
            pre_images[2 * i].clone()
        };
        assert(picked@ == choose_from_pairs(selector@, contents(pre_images@))[i as int]);
        selected_images.push(picked);
        i = i + 1;
    }
    assert(contents(selected_images@) =~= choose_from_pairs(selector@, contents(pre_images@)));
    Ok(selected_images)
}

} // verus!
