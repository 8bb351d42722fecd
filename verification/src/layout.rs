//! Where the relations of the recorded verifier stand in the system.

use crate::circuit::{digests_at, BoolHandle, DigestHandle, Handle, Relation, SystemModel};
use crate::disclosure::well_shaped;
use crate::twin::{
    lemma_reduction_extends, lemma_reduction_handles, opening_relations, pairing_relations,
    reduction_root, selection_relations, with_pairing, with_reduction, with_selection,
    with_verifier,
};
use vstd::arithmetic::power2::{lemma_pow2_pos, lemma_pow2_unfold, pow2};
use crate::tree::lemma_pow2_zero;
use vstd::prelude::*;

verus! {

/// Reducing `2^depth` images records one relation for each node of the
/// tree above the leaves.
pub proof fn lemma_reduction_relations(system: SystemModel, level: Seq<DigestHandle>, depth: nat)
    requires
        level.len() == pow2(depth),
    ensures
        with_reduction(system, level).relations.len() == system.relations.len() + level.len() - 1,
    decreases depth,
{
    lemma_pow2_pos(depth);
    if depth == 0 {
        lemma_pow2_zero();
    } else {
        lemma_pow2_unfold(depth);
        lemma_pow2_pos((depth - 1) as nat);
        lemma_reduction_relations(
            with_pairing(system, level),
            digests_at(system.handles as int, level.len() / 2),
            (depth - 1) as nat,
        );
    }
}

/// Every relation that a reduction records is a hash.
pub proof fn lemma_reduction_hashes(
    system: SystemModel,
    level: Seq<DigestHandle>,
    depth: nat,
    p: int,
)
    requires
        level.len() == pow2(depth),
        system.relations.len() <= p < with_reduction(system, level).relations.len(),
    ensures
        with_reduction(system, level).relations[p] is Hash,
    decreases depth,
{
    lemma_pow2_pos(depth);
    if depth > 0 {
        lemma_pow2_unfold(depth);
        lemma_pow2_pos((depth - 1) as nat);
        let paired = with_pairing(system, level);
        let next = digests_at(system.handles as int, level.len() / 2);
        let reduced = with_reduction(paired, next);
        lemma_reduction_extends(paired, next);
        if p < paired.relations.len() {
            assert(paired.relations == reduced.relations.subrange(
                0,
                paired.relations.len() as int,
            ));
            assert(reduced.relations.subrange(0, paired.relations.len() as int)[p]
                == reduced.relations[p]);
            assert(paired.relations[p] == pairing_relations(system.handles, level)[p
                - system.relations.len()]);
        } else {
            lemma_reduction_hashes(paired, next, (depth - 1) as nat, p);
        }
    } else {
        lemma_pow2_zero();
    }
}

/// The number of relations of a system once the reduction of the images
/// is recorded after them.
pub open spec fn reduction_end(system: SystemModel, images: Seq<DigestHandle>) -> int {
    system.relations.len() + images.len() - 1
}

/// The number of relations once the equalities of the commitment are
/// recorded as well.
pub open spec fn commitment_end(system: SystemModel, images: Seq<DigestHandle>) -> int {
    reduction_end(system, images) + 4
}

/// The number of relations once the selects are recorded as well.
pub open spec fn selection_end(system: SystemModel, images: Seq<DigestHandle>) -> int {
    commitment_end(system, images) + 4 * (images.len() / 2)
}

/// The number of handles of a system once the reduction of the images has
/// allocated its own.
pub open spec fn reduction_handles(system: SystemModel, images: Seq<DigestHandle>) -> nat {
    (system.handles + 4 * (images.len() - 1)) as nat
}

/// How much the system has grown once the verifier is recorded: by one
/// relation and four handles for each node above the leaves, four
/// relations for the commitment, and nine relations and eight handles for
/// each pair of leaves.
pub proof fn lemma_verifier_size(
    system: SystemModel,
    c: DigestHandle,
    images: Seq<DigestHandle>,
    selector: Seq<BoolHandle>,
    pre_images: Seq<Seq<Handle>>,
)
    requires
        well_shaped(images.len(), selector.len(), pre_images.len()),
    ensures
        images.len() >= 1,
        images.len() >= 2 * selector.len(),
        with_reduction(system, images).relations.len() == reduction_end(system, images),
        with_reduction(system, images).handles == reduction_handles(system, images),
        with_verifier(system, c, images, selector, pre_images).relations.len() == selection_end(
            system,
            images,
        ) + 5 * selector.len(),
        with_verifier(system, c, images, selector, pre_images).handles == reduction_handles(
            system,
            images,
        ) + 8 * selector.len(),
{
    let depth = choose|e: nat| images.len() == pow2(e);
    lemma_pow2_pos(depth);
    if depth > 0 {
        lemma_pow2_unfold(depth);
    }
    lemma_reduction_handles(system, images, depth);
    lemma_reduction_relations(system, images, depth);
}

/// The relations that the system had before stand where they stood.
pub proof fn lemma_kept_relation(
    system: SystemModel,
    c: DigestHandle,
    images: Seq<DigestHandle>,
    selector: Seq<BoolHandle>,
    pre_images: Seq<Seq<Handle>>,
    p: int,
)
    requires
        well_shaped(images.len(), selector.len(), pre_images.len()),
        0 <= p < system.relations.len(),
    ensures
        with_verifier(system, c, images, selector, pre_images).relations[p]
            == system.relations[p],
{
    let reduced = with_reduction(system, images);
    lemma_verifier_size(system, c, images, selector, pre_images);
    lemma_reduction_relation(system, c, images, selector, pre_images, p);
    lemma_reduction_extends(system, images);
    assert(system.relations == reduced.relations.subrange(0, system.relations.len() as int));
    assert(reduced.relations.subrange(0, system.relations.len() as int)[p]
        == reduced.relations[p]);
}

/// After them stand the relations of the reduction, all of them hashes.
pub proof fn lemma_reduction_relation(
    system: SystemModel,
    c: DigestHandle,
    images: Seq<DigestHandle>,
    selector: Seq<BoolHandle>,
    pre_images: Seq<Seq<Handle>>,
    p: int,
)
    requires
        well_shaped(images.len(), selector.len(), pre_images.len()),
        0 <= p < reduction_end(system, images),
    ensures
        with_verifier(system, c, images, selector, pre_images).relations[p] == with_reduction(
            system,
            images,
        ).relations[p],
        p >= system.relations.len() ==> with_verifier(
            system,
            c,
            images,
            selector,
            pre_images,
        ).relations[p] is Hash,
{
    let reduced = with_reduction(system, images);
    let committed = reduced.with_equal_digests(c, reduction_root(system, images));
    let chosen = with_selection(committed, selector, images);
    lemma_verifier_size(system, c, images, selector, pre_images);
    assert(committed.relations[p] == reduced.relations[p]);
    assert(chosen.relations[p] == committed.relations[p]);
    if p >= system.relations.len() {
        let depth = choose|e: nat| images.len() == pow2(e);
        lemma_reduction_hashes(system, images, depth, p);
    }
}

/// Then the four equalities between the commitment and the root.
pub proof fn lemma_commitment_relation(
    system: SystemModel,
    c: DigestHandle,
    images: Seq<DigestHandle>,
    selector: Seq<BoolHandle>,
    pre_images: Seq<Seq<Handle>>,
    k: int,
)
    requires
        well_shaped(images.len(), selector.len(), pre_images.len()),
        0 <= k < 4,
    ensures
        with_verifier(system, c, images, selector, pre_images).relations[reduction_end(
            system,
            images,
        ) + k] == (Relation::Equal {
            left: c.elements[k],
            right: reduction_root(system, images).elements[k],
        }),
{
    let reduced = with_reduction(system, images);
    let committed = reduced.with_equal_digests(c, reduction_root(system, images));
    let chosen = with_selection(committed, selector, images);
    let at = reduction_end(system, images) + k;
    lemma_verifier_size(system, c, images, selector, pre_images);
    assert(chosen.relations[at] == committed.relations[at]);
}

/// Then the selects, four for each pair.
pub proof fn lemma_selection_relation(
    system: SystemModel,
    c: DigestHandle,
    images: Seq<DigestHandle>,
    selector: Seq<BoolHandle>,
    pre_images: Seq<Seq<Handle>>,
    n: int,
)
    requires
        well_shaped(images.len(), selector.len(), pre_images.len()),
        0 <= n < 4 * selector.len(),
    ensures
        with_verifier(system, c, images, selector, pre_images).relations[commitment_end(
            system,
            images,
        ) + n] == selection_relations(reduction_handles(system, images), selector, images)[n],
        selection_relations(reduction_handles(system, images), selector, images)[n] is Select,
{
    let reduced = with_reduction(system, images);
    let committed = reduced.with_equal_digests(c, reduction_root(system, images));
    let chosen = with_selection(committed, selector, images);
    let at = commitment_end(system, images) + n;
    lemma_verifier_size(system, c, images, selector, pre_images);
    assert(with_verifier(system, c, images, selector, pre_images).relations[at]
        == chosen.relations[at]);
}

/// And last, for each revealed preimage, one hash and four equalities.
pub proof fn lemma_opening_relation(
    system: SystemModel,
    c: DigestHandle,
    images: Seq<DigestHandle>,
    selector: Seq<BoolHandle>,
    pre_images: Seq<Seq<Handle>>,
    n: int,
)
    requires
        well_shaped(images.len(), selector.len(), pre_images.len()),
        0 <= n < 5 * selector.len(),
    ensures
        with_verifier(system, c, images, selector, pre_images).relations[selection_end(
            system,
            images,
        ) + n] == opening_relations(
            reduction_handles(system, images) + 4 * selector.len(),
            pre_images,
            digests_at(reduction_handles(system, images) as int, selector.len()),
        )[n],
{
    lemma_verifier_size(system, c, images, selector, pre_images);
}

} // verus!
