//! Soundness of the circuit twin: a witness that satisfies the recorded
//! verifier assigns a bundle that native verification accepts.

use crate::circuit::{
    digest_at, digests_at, handle_at, BoolHandle, DigestHandle, Handle, Relation, SystemModel,
};
use crate::digest::{Digest, Hasher};
use crate::disclosure::{is_outcome, reveals, well_shaped};
use crate::layout::{
    commitment_end, lemma_commitment_relation, lemma_kept_relation, lemma_opening_relation,
    lemma_reduction_relation, lemma_selection_relation, lemma_verifier_size, reduction_end,
    reduction_handles, selection_end,
};
use crate::mock::MockHasher;
use crate::selector::choose_from_pairs;
use crate::tree::{compress_pairs, lemma_pow2_zero, lemma_root_of_compressed_pairs, tree_root};
use crate::twin::{
    lemma_reduction_extends, pairing_relations, reduction_root, selection_relations,
    with_pairing, with_reduction, with_verifier,
};
use crate::witness::{digest_value, holds, satisfied, value, values};
use vstd::arithmetic::power2::{lemma_pow2_pos, lemma_pow2_unfold, pow2};
use vstd::prelude::*;

verus! {

/// The digests that a witness assigns to a list of digest handles.
pub open spec fn digest_values(witness: Seq<u64>, digests: Seq<DigestHandle>) -> Seq<Digest> {
    Seq::new(digests.len(), |i: int| digest_value(witness, digests[i]))
}

/// The bits that a witness assigns to a list of boolean handles: a handle
/// that holds one is set.
pub open spec fn bit_values(witness: Seq<u64>, bits: Seq<BoolHandle>) -> Seq<bool> {
    Seq::new(bits.len(), |i: int| value(witness, bits[i].handle) == 1)
}

/// The preimages that a witness assigns to lists of handles.
pub open spec fn pre_image_values(witness: Seq<u64>, pre_images: Seq<Seq<Handle>>) -> Seq<
    Seq<u64>,
> {
    Seq::new(pre_images.len(), |i: int| values(witness, pre_images[i]))
}

/// The hasher compresses two digests by hashing their eight elements, the
/// left digest's first: the hash gadget of a circuit then stands for the
/// compression function as well.
pub open spec fn compresses_by_hashing<H: Hasher>() -> bool {
    forall|left: Digest, right: Digest| #[trigger]
        H::compress(left, right) == H::hash(left.elements@ + right.elements@)
}

/// The stand-in hasher compresses by hashing.
pub proof fn lemma_mock_compresses_by_hashing()
    ensures
        compresses_by_hashing::<MockHasher>(),
{
}

/// The values of the eight elements of two sibling digests are the
/// elements of the two digests that the witness assigns to them.
proof fn lemma_sibling_values(witness: Seq<u64>, left: DigestHandle, right: DigestHandle)
    ensures
        values(witness, left.elements@ + right.elements@) == digest_value(witness, left).elements@
            + digest_value(witness, right).elements@,
{
    assert(values(witness, left.elements@ + right.elements@) =~= digest_value(
        witness,
        left,
    ).elements@ + digest_value(witness, right).elements@);
}

/// Where a witness satisfies what the reduction of `2^depth` images
/// records, it assigns to the handle of the root the root of the tree over
/// the digests that it assigns to the images.
pub proof fn lemma_reduction_sound<H: Hasher>(
    system: SystemModel,
    level: Seq<DigestHandle>,
    depth: nat,
    witness: Seq<u64>,
)
    requires
        level.len() == pow2(depth),
        compresses_by_hashing::<H>(),
        forall|j: int|
            system.relations.len() <= j < with_reduction(system, level).relations.len()
                ==> holds::<H>(#[trigger] with_reduction(system, level).relations[j], witness),
    ensures
        digest_value(witness, reduction_root(system, level)) == tree_root::<H>(
            digest_values(witness, level),
        ),
    decreases depth,
{
    lemma_pow2_pos(depth);
    if depth == 0 {
        lemma_pow2_zero();
    } else {
        lemma_pow2_unfold(depth);
        lemma_pow2_pos((depth - 1) as nat);
        let paired = with_pairing(system, level);
        let next = digests_at(system.handles as int, level.len() / 2);
        let all = with_reduction(paired, next).relations;
        let before = system.relations.len() as int;
        let recorded = pairing_relations(system.handles, level);
        lemma_reduction_extends(paired, next);
        assert(all == with_reduction(system, level).relations);
        let given = digest_values(witness, level);
        assert forall|i: int| 0 <= i < next.len() implies digest_value(witness, next[i])
            == compress_pairs::<H>(given)[i] by {
            assert(all[before + i] == paired.relations[before + i]) by {
                assert(paired.relations == all.subrange(0, paired.relations.len() as int));
                assert(all.subrange(0, paired.relations.len() as int)[before + i] == all[before
                    + i]);
            }
            assert(paired.relations[before + i] == recorded[i]);
            assert(holds::<H>(all[before + i], witness));
            lemma_sibling_values(witness, level[2 * i], level[2 * i + 1]);
            assert(H::compress(given[2 * i], given[2 * i + 1]) == H::hash(
                given[2 * i].elements@ + given[2 * i + 1].elements@,
            ));
        }
        assert(digest_values(witness, next) =~= compress_pairs::<H>(given));
        lemma_reduction_sound::<H>(paired, next, (depth - 1) as nat, witness);
        lemma_root_of_compressed_pairs::<H>(given, depth);
    }
}

/// Where the selects of a selection hold of a witness that assigns bits
/// to the selector handles, each selected digest handle holds the image
/// that its bit picks from its pair.
pub proof fn lemma_selection_sound<H: Hasher>(
    relations: Seq<Relation>,
    at: int,
    first: nat,
    selector: Seq<BoolHandle>,
    images: Seq<DigestHandle>,
    witness: Seq<u64>,
)
    requires
        0 <= at,
        at + 4 * selector.len() <= relations.len(),
        images.len() >= 2 * selector.len(),
        forall|n: int|
            0 <= n < 4 * selector.len() ==> #[trigger] relations[at + n] == selection_relations(
                first,
                selector,
                images,
            )[n] && holds::<H>(relations[at + n], witness),
        forall|i: int|
            0 <= i < selector.len() ==> value(witness, (#[trigger] selector[i]).handle) == 0
                || value(witness, selector[i].handle) == 1,
    ensures
        forall|i: int|
            0 <= i < selector.len() ==> digest_value(
                witness,
                #[trigger] digests_at(first as int, selector.len())[i],
            ) == choose_from_pairs(
                bit_values(witness, selector),
                digest_values(witness, images),
            )[i],
{
    let selected = digests_at(first as int, selector.len());
    let given_bits = bit_values(witness, selector);
    let given_images = digest_values(witness, images);
    assert forall|i: int| 0 <= i < selector.len() implies digest_value(
        witness,
        #[trigger] selected[i],
    ) == choose_from_pairs(given_bits, given_images)[i] by {
        assert(value(witness, selector[i].handle) == 0 || value(witness, selector[i].handle) == 1);
        assert forall|k: int| 0 <= k < 4 implies value(witness, selected[i].elements[k]) == (
        if given_bits[i] {
            value(witness, images[2 * i + 1].elements[k])
        } else {
            value(witness, images[2 * i].elements[k])
        }) by {
            let n = 4 * i + k;
            assert(relations[at + n] == selection_relations(first, selector, images)[n]);
            assert(holds::<H>(relations[at + n], witness));
            assert(selected[i].elements[k] == handle_at(first + n));
        }
        if given_bits[i] {
            assert(digest_value(witness, selected[i]).elements =~= given_images[2 * i
                + 1].elements);
        } else {
            assert(digest_value(witness, selected[i]).elements =~= given_images[2 * i].elements);
        }
    }
}

/// The selector handles were restricted to zero or one in the system.
pub open spec fn restricted(system: SystemModel, selector: Seq<BoolHandle>) -> bool {
    forall|i: int|
        0 <= i < selector.len() ==> system.relations.contains(
            Relation::Boolean { handle: (#[trigger] selector[i]).handle },
        )
}

/// The selector handles hold bits in a witness of which the relations
/// hold, where the first of those relations restrict them to zero or one.
pub proof fn lemma_selector_bits<H: Hasher>(
    kept: Seq<Relation>,
    all: Seq<Relation>,
    selector: Seq<BoolHandle>,
    witness: Seq<u64>,
)
    requires
        kept.len() <= all.len(),
        forall|j: int| 0 <= j < kept.len() ==> #[trigger] all[j] == kept[j],
        forall|j: int| 0 <= j < kept.len() ==> holds::<H>(#[trigger] all[j], witness),
        forall|i: int|
            0 <= i < selector.len() ==> kept.contains(
                Relation::Boolean { handle: (#[trigger] selector[i]).handle },
            ),
    ensures
        forall|i: int|
            0 <= i < selector.len() ==> value(witness, (#[trigger] selector[i]).handle) == 0
                || value(witness, selector[i].handle) == 1,
{
    assert forall|i: int| 0 <= i < selector.len() implies value(
        witness,
        (#[trigger] selector[i]).handle,
    ) == 0 || value(witness, selector[i].handle) == 1 by {
        let restriction = Relation::Boolean { handle: selector[i].handle };
        assert(kept.contains(restriction));
        let j = choose|j: int| 0 <= j < kept.len() && kept[j] == restriction;
        assert(all[j] == restriction);
        assert(holds::<H>(all[j], witness));
    }
}

/// Where the relations of the verifier hold of a witness, the witness
/// assigns to the handle of the commitment the root of the tree over the
/// digests that it assigns to the images.
pub proof fn lemma_commitment_sound<H: Hasher>(
    system: SystemModel,
    c: DigestHandle,
    images: Seq<DigestHandle>,
    selector: Seq<BoolHandle>,
    pre_images: Seq<Seq<Handle>>,
    witness: Seq<u64>,
)
    requires
        well_shaped(images.len(), selector.len(), pre_images.len()),
        compresses_by_hashing::<H>(),
        forall|p: int|
            system.relations.len() <= p < commitment_end(system, images) ==> holds::<H>(
                #[trigger] with_verifier(system, c, images, selector, pre_images).relations[p],
                witness,
            ),
    ensures
        digest_value(witness, c) == tree_root::<H>(digest_values(witness, images)),
{
    let all = with_verifier(system, c, images, selector, pre_images).relations;
    let reduced = with_reduction(system, images);
    let root = reduction_root(system, images);
    let hashed = reduction_end(system, images);
    lemma_verifier_size(system, c, images, selector, pre_images);
    assert(digest_value(witness, root) == tree_root::<H>(digest_values(witness, images))) by {
        let depth = choose|e: nat| images.len() == pow2(e);
        assert forall|j: int| system.relations.len() <= j < hashed implies holds::<H>(
            #[trigger] reduced.relations[j],
            witness,
        ) by {
            lemma_reduction_relation(system, c, images, selector, pre_images, j);
            assert(holds::<H>(all[j], witness));
        }
        lemma_reduction_sound::<H>(system, images, depth, witness);
    }
    assert forall|k: int| 0 <= k < 4 implies value(witness, c.elements[k]) == value(
        witness,
        root.elements[k],
    ) by {
        lemma_commitment_relation(system, c, images, selector, pre_images, k);
        assert(holds::<H>(all[hashed + k], witness));
    }
    assert(digest_value(witness, c).elements =~= digest_value(witness, root).elements);
}

/// Where the selects of the verifier hold of a witness that assigns bits
/// to the selector handles, each selected digest handle holds the image
/// that its bit picks from its pair.
pub proof fn lemma_selected_sound<H: Hasher>(
    system: SystemModel,
    c: DigestHandle,
    images: Seq<DigestHandle>,
    selector: Seq<BoolHandle>,
    pre_images: Seq<Seq<Handle>>,
    witness: Seq<u64>,
)
    requires
        well_shaped(images.len(), selector.len(), pre_images.len()),
        forall|i: int|
            0 <= i < selector.len() ==> value(witness, (#[trigger] selector[i]).handle) == 0
                || value(witness, selector[i].handle) == 1,
        forall|p: int|
            commitment_end(system, images) <= p < selection_end(system, images) ==> holds::<H>(
                #[trigger] with_verifier(system, c, images, selector, pre_images).relations[p],
                witness,
            ),
    ensures
        forall|i: int|
            0 <= i < selector.len() ==> digest_value(
                witness,
                #[trigger] digests_at(reduction_handles(system, images) as int, selector.len())[i],
            ) == choose_from_pairs(
                bit_values(witness, selector),
                digest_values(witness, images),
            )[i],
{
    let all = with_verifier(system, c, images, selector, pre_images).relations;
    let at = commitment_end(system, images);
    let first = reduction_handles(system, images);
    lemma_verifier_size(system, c, images, selector, pre_images);
    assert forall|n: int| 0 <= n < 4 * selector.len() implies #[trigger] all[at + n]
        == selection_relations(first, selector, images)[n] && holds::<H>(
        all[at + n],
        witness,
    ) by {
        lemma_selection_relation(system, c, images, selector, pre_images, n);
    }
    lemma_selection_sound::<H>(all, at, first, selector, images, witness);
}

/// The circuit is sound for the native check: where a witness satisfies a
/// system in which the verifier was recorded, the bundle that the witness
/// assigns to the handles of the commitment, the images, the selector and
/// the revealed preimages is one that native verification accepts.
///
/// This holds for a hasher that compresses by hashing, and for selector
/// handles that the system had restricted to zero or one before.
pub proof fn lemma_verifier_sound<H: Hasher>(
    system: SystemModel,
    c: DigestHandle,
    images: Seq<DigestHandle>,
    selector: Seq<BoolHandle>,
    pre_images: Seq<Seq<Handle>>,
    witness: Seq<u64>,
)
    requires
        well_shaped(images.len(), selector.len(), pre_images.len()),
        compresses_by_hashing::<H>(),
        restricted(system, selector),
        satisfied::<H>(with_verifier(system, c, images, selector, pre_images), witness),
    ensures
        is_outcome::<H>(
            digest_value(witness, c),
            digest_values(witness, images),
            bit_values(witness, selector),
            pre_image_values(witness, pre_images),
            Ok(()),
        ),
{
    let all = with_verifier(system, c, images, selector, pre_images).relations;
    let first = reduction_handles(system, images);
    let selected = digests_at(first as int, selector.len());
    let at = selection_end(system, images);
    lemma_verifier_size(system, c, images, selector, pre_images);
    lemma_commitment_sound::<H>(system, c, images, selector, pre_images, witness);
    assert forall|j: int| 0 <= j < system.relations.len() implies #[trigger] all[j]
        == system.relations[j] by {
        lemma_kept_relation(system, c, images, selector, pre_images, j);
    }
    lemma_selector_bits::<H>(system.relations, all, selector, witness);
    lemma_selected_sound::<H>(system, c, images, selector, pre_images, witness);
    assert forall|i: int| 0 <= i < pre_images.len() implies reveals::<H>(
        digest_values(witness, images),
        bit_values(witness, selector),
        pre_image_values(witness, pre_images),
        i,
    ) by {
        let opened = digest_at(first + 4 * selector.len() + 4 * i);
        lemma_opening_relation(system, c, images, selector, pre_images, 5 * i);
        assert(holds::<H>(all[at + 5 * i], witness));
        assert(H::hash(values(witness, pre_images[i])) == digest_value(witness, opened));
        assert forall|k: int| 0 <= k < 4 implies value(witness, opened.elements[k]) == value(
            witness,
            selected[i].elements[k],
        ) by {
            lemma_opening_relation(system, c, images, selector, pre_images, 5 * i + 1 + k);
            assert(holds::<H>(all[at + (5 * i + 1 + k)], witness));
        }
        assert(digest_value(witness, opened).elements =~= digest_value(
            witness,
            selected[i],
        ).elements);
        assert(digest_value(witness, selected[i]) == choose_from_pairs(
            bit_values(witness, selector),
            digest_values(witness, images),
        )[i]);
    }
}

} // verus!
