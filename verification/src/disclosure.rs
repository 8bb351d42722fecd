//! The verifier of disclosure bundles, and what holds of it: the round
//! trip of an honest discloser and the fate of tampered bundles.

use crate::digest::{Digest, Hasher};
use crate::error::Error;
use crate::selector::{choose_from_pairs, contents, select};
use crate::tree::{
    collision_free, commit, is_power_of_two, lemma_equal_roots_equal_leaves,
    lemma_power_of_two_is_even, tree_root,
};
use vstd::arithmetic::power2::pow2;
use vstd::prelude::*;

verus! {

/// The lists of a disclosure bundle fit together: the number of leaves is a
/// power of two, there is one selector bit for each pair of leaves, and one
/// revealed preimage for each bit.
pub open spec fn well_shaped(leaves: nat, bits: nat, revealed: nat) -> bool {
    &&& is_power_of_two(leaves)
    &&& leaves / 2 == bits
    &&& bits == revealed
}

/// The revealed preimage at index `i` hashes to the leaf that the selector
/// picks from pair `i`.
pub open spec fn reveals<H: Hasher>(
    images: Seq<Digest>,
    selector: Seq<bool>,
    pre_images: Seq<Seq<u64>>,
    i: int,
) -> bool {
    H::hash(pre_images[i]) == choose_from_pairs(selector, images)[i]
}

/// Index `k` is the first at which a revealed preimage does not hash to its
/// selected leaf.
pub open spec fn first_mismatch_at<H: Hasher>(
    images: Seq<Digest>,
    selector: Seq<bool>,
    pre_images: Seq<Seq<u64>>,
    k: int,
) -> bool {
    &&& 0 <= k < pre_images.len()
    &&& !reveals::<H>(images, selector, pre_images, k)
    &&& forall|i: int| 0 <= i < k ==> reveals::<H>(images, selector, pre_images, i)
}

/// `outcome` is what verification of the bundle yields: the first condition
/// that the bundle violates decides the failure, and a bundle that violates
/// none is accepted.
pub open spec fn is_outcome<H: Hasher>(
    c: Digest,
    images: Seq<Digest>,
    selector: Seq<bool>,
    pre_images: Seq<Seq<u64>>,
    outcome: Result<(), Error>,
) -> bool {
    let shaped = well_shaped(images.len(), selector.len(), pre_images.len());
    let committed = tree_root::<H>(images) == c;
    match outcome {
        Ok(()) => shaped && committed && forall|i: int|
            0 <= i < pre_images.len() ==> reveals::<H>(images, selector, pre_images, i),
        Err(Error::InvalidInput) => !shaped,
        Err(Error::CommitMismatch) => shaped && !committed,
        Err(Error::PreImageMismatch(k)) => shaped && committed && first_mismatch_at::<H>(
            images,
            selector,
            pre_images,
            k as int,
        ),
    }
}

/// A bundle has one outcome only: it is accepted or rejected, never both,
/// and rejected for one reason.
pub proof fn lemma_outcome_unique<H: Hasher>(
    c: Digest,
    images: Seq<Digest>,
    selector: Seq<bool>,
    pre_images: Seq<Seq<u64>>,
    first: Result<(), Error>,
    second: Result<(), Error>,
)
    requires
        is_outcome::<H>(c, images, selector, pre_images, first),
        is_outcome::<H>(c, images, selector, pre_images, second),
    ensures
        first is Ok <==> second is Ok,
        first is Err ==> second is Err && first->Err_0 == second->Err_0,
{
    match first {
        Ok(()) => {
            if let Err(Error::PreImageMismatch(k)) = second {
                assert(reveals::<H>(images, selector, pre_images, k as int));
            }
            assert(second is Ok);
        },
        Err(reason) => {
            if let Error::PreImageMismatch(k) = reason {
                assert(!reveals::<H>(images, selector, pre_images, k as int));
                if let Err(Error::PreImageMismatch(other)) = second {
                    if k < other {
                        assert(reveals::<H>(images, selector, pre_images, k as int));
                    }
                    if other < k {
                        assert(reveals::<H>(images, selector, pre_images, other as int));
                    }
                    assert(k == other);
                }
            }
            assert(second == Err::<(), Error>(reason));
        },
    }
}

/// Checks a disclosure bundle against a commitment.
///
/// The bundle is rejected with `InvalidInput` before any hashing when its
/// lists do not fit together, with `CommitMismatch` when the root recomputed
/// from `images` is not `c`, and with `PreImageMismatch(k)` when `k` is the
/// first index whose revealed preimage does not hash to the leaf that
/// `selector` picks from pair `k`. Everything else is accepted.
pub fn verify<H: Hasher>(
    c: &Digest,
    images: &Vec<Digest>,
    selector: &Vec<bool>,
    pre_images: &Vec<Vec<u64>>,
) -> (outcome: Result<(), Error>)
    ensures
        is_outcome::<H>(*c, images@, selector@, contents(pre_images@), outcome),
{
    if images.len() / 2 != selector.len() || selector.len() != pre_images.len() {
        return Err(Error::InvalidInput);
    }
    let root = match commit::<H>(images) {
        Ok(root) => root,
        Err(_) => {
            return Err(Error::InvalidInput);
        },
    };
    if !(*c == root) {
        return Err(Error::CommitMismatch);
    }
    let selected_images = if images.len() == 1 {
        Vec::new()
    } else {
        proof {
            lemma_power_of_two_is_even(images@.len());
        }
        match select(selector, images) {
            Ok(selected) => selected,
            Err(_) => {
                return Err(Error::InvalidInput);
            },
        }
    };
    assert(selected_images@ =~= choose_from_pairs(selector@, images@));
    let mut i: usize = 0;
    while i < pre_images.len()
        invariant
            i <= pre_images.len(),
            well_shaped(images@.len(), selector@.len(), pre_images@.len()),
            tree_root::<H>(images@) == *c,
            selected_images@ == choose_from_pairs(selector@, images@),
            forall|j: int|
                0 <= j < i ==> reveals::<H>(images@, selector@, contents(pre_images@), j),
        decreases pre_images.len() - i,
    {
        let hashed_pre_image = H::hash_no_pad(&pre_images[i]);
        assert(contents(pre_images@)[i as int] == pre_images@[i as int]@);
        if !(hashed_pre_image == selected_images[i]) {
            assert(!reveals::<H>(images@, selector@, contents(pre_images@), i as int));
            return Err(Error::PreImageMismatch(i));
        }
        assert(reveals::<H>(images@, selector@, contents(pre_images@), i as int));
        i = i + 1;
    }
    Ok(())
}

/// Round trip: a bundle made from leaves that are the hashes of their
/// preimages, with the commitment to those leaves and the preimages that the
/// selector picks, is accepted, whatever the selector bits are.
pub proof fn lemma_round_trip<H: Hasher>(
    images: Seq<Digest>,
    all_pre_images: Seq<Seq<u64>>,
    selector: Seq<bool>,
)
    requires
        is_power_of_two(images.len()),
        all_pre_images.len() == images.len(),
        images.len() / 2 == selector.len(),
        forall|j: int| 0 <= j < images.len() ==> H::hash(all_pre_images[j]) == images[j],
    ensures
        is_outcome::<H>(
            tree_root::<H>(images),
            images,
            selector,
            choose_from_pairs(selector, all_pre_images),
            Ok(()),
        ),
{
    let revealed = choose_from_pairs(selector, all_pre_images);
    assert forall|i: int| 0 <= i < revealed.len() implies reveals::<H>(
        images,
        selector,
        revealed,
        i,
    ) by {
        if selector[i] {
            assert(H::hash(all_pre_images[2 * i + 1]) == images[2 * i + 1]);
        } else {
            assert(H::hash(all_pre_images[2 * i]) == images[2 * i]);
        }
    }
}

/// Tampering with a preimage: in an accepted bundle, replacing one element
/// of the revealed preimage at index `k` makes verification fail with
/// `PreImageMismatch(k)`, unless the changed preimage has the same leaf
/// hash as the unchanged one.
pub proof fn lemma_tampered_pre_image<H: Hasher>(
    c: Digest,
    images: Seq<Digest>,
    selector: Seq<bool>,
    pre_images: Seq<Seq<u64>>,
    k: usize,
    position: int,
    element: u64,
)
    requires
        is_outcome::<H>(c, images, selector, pre_images, Ok(())),
        0 <= k < pre_images.len(),
        0 <= position < pre_images[k as int].len(),
        element != pre_images[k as int][position],
        H::hash(pre_images[k as int].update(position, element)) != H::hash(pre_images[k as int]),
    ensures
        is_outcome::<H>(
            c,
            images,
            selector,
            pre_images.update(k as int, pre_images[k as int].update(position, element)),
            Err(Error::PreImageMismatch(k)),
        ),
{
    let tampered = pre_images.update(k as int, pre_images[k as int].update(position, element));
    assert(reveals::<H>(images, selector, pre_images, k as int));
    assert forall|i: int| 0 <= i < k implies reveals::<H>(images, selector, tampered, i) by {
        assert(reveals::<H>(images, selector, pre_images, i));
    }
}

/// Tampering with a leaf: in an accepted bundle, replacing one leaf by a
/// different digest makes verification fail with `CommitMismatch`, unless a
/// compression collision occurs between the two trees.
pub proof fn lemma_tampered_leaf<H: Hasher>(
    c: Digest,
    images: Seq<Digest>,
    selector: Seq<bool>,
    pre_images: Seq<Seq<u64>>,
    k: int,
    leaf: Digest,
)
    requires
        is_outcome::<H>(c, images, selector, pre_images, Ok(())),
        0 <= k < images.len(),
        leaf != images[k],
        collision_free::<H>(images, images.update(k, leaf)),
    ensures
        is_outcome::<H>(
            c,
            images.update(k, leaf),
            selector,
            pre_images,
            Err(Error::CommitMismatch),
        ),
{
    let tampered = images.update(k, leaf);
    let depth = choose|e: nat| images.len() == pow2(e);
    assert(tampered[k] == leaf);
    if tree_root::<H>(tampered) == tree_root::<H>(images) {
        lemma_equal_roots_equal_leaves::<H>(images, tampered, depth);
    }
}

} // verus!
