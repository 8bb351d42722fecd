//! The circuit twin: the counterparts of commitment, selection and
//! verification that record constraints over symbolic handles instead of
//! computing on values.

use crate::circuit::{
    digest_at, digests_at, handle_at, BoolHandle, ConstraintSystem, DigestHandle, Handle, Relation,
    SystemModel,
};
use crate::disclosure::well_shaped;
use crate::error::Error;
use crate::selector::contents;
use crate::tree::{is_power_of_two, lemma_pow2_zero, lemma_power_of_two_is_even, log2};
use vstd::arithmetic::power2::{lemma_pow2_pos, lemma_pow2_unfold, pow2};
use vstd::prelude::*;

verus! {

/// The relations that selecting from the pairs of `images` records, with
/// results numbered from `first` on: for each pair four conditional
/// selects, one for each element of a digest, between the element of the
/// right sibling and that of the left one.
pub open spec fn selection_relations(
    first: nat,
    selector: Seq<BoolHandle>,
    images: Seq<DigestHandle>,
) -> Seq<Relation> {
    Seq::new(
        4 * selector.len(),
        |n: int|
            Relation::Select {
                selector: selector[n / 4],
                when_set: images[2 * (n / 4) + 1].elements[n % 4],
                otherwise: images[2 * (n / 4)].elements[n % 4],
                out: handle_at(first + n),
            },
    )
}

/// The system after a digest was selected from each pair of `images`.
pub open spec fn with_selection(
    system: SystemModel,
    selector: Seq<BoolHandle>,
    images: Seq<DigestHandle>,
) -> SystemModel {
    system.record_all(selection_relations(system.handles, selector, images)).allocate(
        4 * selector.len(),
    )
}

/// The circuit counterpart of selecting one digest from each pair: for each
/// pair and each of the four elements of a digest it records a conditional
/// select between the right sibling's element, taken where the selector
/// handle is one, and the left sibling's. The results are fresh digest
/// handles, one for each pair. Fails with `InvalidInput`, and records
/// nothing, unless there are exactly two images for each selector handle.
pub fn select_t(
    system: &mut ConstraintSystem,
    selector: Vec<BoolHandle>,
    images: Vec<DigestHandle>,
) -> (selected: Result<Vec<DigestHandle>, Error>)
    requires
        old(system).handles + 4 * selector.len() <= usize::MAX,
    ensures
        (match selected {
            Ok(chosen) => {
                &&& images@.len() == 2 * selector@.len()
                &&& chosen@ == digests_at(old(system).handles as int, selector@.len())
                &&& final(system)@ == with_selection(old(system)@, selector@, images@)
            },
            Err(reason) => {
                &&& images@.len() != 2 * selector@.len()
                &&& reason == Error::InvalidInput
                &&& final(system)@ == old(system)@
            },
        }),
{
    if images.len() % 2 != 0 || images.len() / 2 != selector.len() {
        return Err(Error::InvalidInput);
    }
    let ghost before = system@;
    let ghost recorded = selection_relations(before.handles, selector@, images@);
    let mut selected_images: Vec<DigestHandle> = Vec::new();
    let mut i: usize = 0;
    assert(system@ == before.record_all(recorded.take(0)).allocate(0)) by {
        assert(before.relations + recorded.take(0) =~= before.relations);
    }
    while i < selector.len()
        invariant
            images.len() == 2 * selector.len(),
            i <= selector.len(),
            before.handles + 4 * selector.len() <= usize::MAX,
            recorded == selection_relations(before.handles, selector@, images@),
            system@ == before.record_all(recorded.take(4 * i)).allocate((4 * i) as nat),
            selected_images@ == digests_at(before.handles as int, selector@.len()).take(i as int),
        decreases selector.len() - i,
    {
        let bit = selector[i];
        let right = images[2 * i + 1];
        let left = images[2 * i];
        let ghost start = system@;
        let t0 = system.select(bit, right.elements[0], left.elements[0]);
        let t1 = system.select(bit, right.elements[1], left.elements[1]);
        let t2 = system.select(bit, right.elements[2], left.elements[2]);
        let t3 = system.select(bit, right.elements[3], left.elements[3]);
        let picked = DigestHandle { elements: [t0, t1, t2, t3] };
        proof {
            assert(picked.elements =~= digest_at(before.handles + 4 * i).elements);
            assert(recorded.take(4 * (i + 1)) =~= recorded.take(4 * i).push(recorded[4 * i]).push(
                recorded[4 * i + 1],
            ).push(recorded[4 * i + 2]).push(recorded[4 * i + 3]));
            assert(system@.relations =~= before.relations + recorded.take(4 * (i + 1)));
        }
        selected_images.push(picked);
        i = i + 1;
    }
    proof {
        assert(recorded.take(4 * selector@.len() as int) =~= recorded);
    }
    Ok(selected_images)
}

/// The relations that compressing the pairs of `level` records, with
/// results numbered from `first` on: for each pair one hash of the eight
/// elements of the two siblings, the left one's first.
pub open spec fn pairing_relations(first: nat, level: Seq<DigestHandle>) -> Seq<Relation> {
    Seq::new(
        level.len() / 2,
        |i: int|
            Relation::Hash {
                inputs: level[2 * i].elements@ + level[2 * i + 1].elements@,
                digest: digest_at(first + 4 * i),
            },
    )
}

/// The system after each pair of `level` was compressed into a fresh digest
/// handle.
pub open spec fn with_pairing(system: SystemModel, level: Seq<DigestHandle>) -> SystemModel {
    system.record_all(pairing_relations(system.handles, level)).allocate(4 * (level.len() / 2))
}

/// The system after `level` was reduced to a single digest handle by
/// compressing its pairs level by level.
pub open spec fn with_reduction(system: SystemModel, level: Seq<DigestHandle>) -> SystemModel
    decreases level.len(),
{
    if level.len() <= 1 {
        system
    } else {
        with_reduction(
            with_pairing(system, level),
            digests_at(system.handles as int, level.len() / 2),
        )
    }
}

/// The digest handle that reducing `level` in `system` ends with: the only
/// handle of a level of one, the handle of the root otherwise.
pub open spec fn reduction_root(system: SystemModel, level: Seq<DigestHandle>) -> DigestHandle
    decreases level.len(),
{
    if level.len() <= 1 {
        level[0]
    } else {
        reduction_root(
            with_pairing(system, level),
            digests_at(system.handles as int, level.len() / 2),
        )
    }
}

/// The circuit counterpart of building a commitment: it reduces `images`
/// by the same schedule, level by level and pair by pair in order, and
/// records for each pair the hash of the eight elements of the two
/// siblings into a fresh digest handle. It returns the handle of the root;
/// for a single image that is the image's own handle, and nothing is
/// recorded. Fails with `InvalidInput`, and records nothing, when the
/// number of images is not a power of two.
pub fn commit_t(system: &mut ConstraintSystem, images: Vec<DigestHandle>) -> (root: Result<
    DigestHandle,
    Error,
>)
    requires
        old(system).handles + 4 * images.len() <= usize::MAX,
    ensures
        (match root {
            Ok(handle) => {
                &&& is_power_of_two(images@.len())
                &&& handle == reduction_root(old(system)@, images@)
                &&& final(system)@ == with_reduction(old(system)@, images@)
            },
            Err(reason) => {
                &&& !is_power_of_two(images@.len())
                &&& reason == Error::InvalidInput
                &&& final(system)@ == old(system)@
            },
        }),
{
    let depth = match log2(images.len()) {
        Some(d) => d,
        None => {
            return Err(Error::InvalidInput);
        },
    };
    let mut level: Vec<DigestHandle> = images;
    let mut round: usize = 0;
    while round < depth
        invariant
            round <= depth,
            level.len() == pow2((depth - round) as nat),
            system.handles + 4 * level.len() <= usize::MAX,
            with_reduction(system@, level@) == with_reduction(old(system)@, images@),
            reduction_root(system@, level@) == reduction_root(old(system)@, images@),
        decreases depth - round,
    {
        proof {
            lemma_pow2_unfold((depth - round) as nat);
            lemma_pow2_pos((depth - round - 1) as nat);
        }
        let ghost start = system@;
        let ghost recorded = pairing_relations(start.handles, level@);
        let ghost results = digests_at(start.handles as int, level@.len() / 2);
        let mut next: Vec<DigestHandle> = Vec::new();
        let mut i: usize = 0;
        assert(system@ == start.record_all(recorded.take(0)).allocate(0)) by {
            assert(start.relations + recorded.take(0) =~= start.relations);
        }
        while i < level.len() / 2
            invariant
                i <= level.len() / 2,
                start.handles + 4 * level.len() <= usize::MAX,
                recorded == pairing_relations(start.handles, level@),
                results == digests_at(start.handles as int, level@.len() / 2),
                system@ == start.record_all(recorded.take(i as int)).allocate((4 * i) as nat),
                next@ == results.take(i as int),
            decreases level.len() / 2 - i,
        {
            let left = level[2 * i];
            let right = level[2 * i + 1];
            let mut inputs: Vec<Handle> = Vec::new();
            inputs.push(left.elements[0]);
            inputs.push(left.elements[1]);
            inputs.push(left.elements[2]);
            inputs.push(left.elements[3]);
            inputs.push(right.elements[0]);
            inputs.push(right.elements[1]);
            inputs.push(right.elements[2]);
            inputs.push(right.elements[3]);
            assert(inputs@ =~= left.elements@ + right.elements@);
            let parent = system.hash_no_pad(inputs);
            proof {
                assert(recorded.take(i + 1) =~= recorded.take(i as int).push(recorded[i as int]));
                assert(system@.relations =~= start.relations + recorded.take(i + 1));
            }
            next.push(parent);
            i = i + 1;
        }
        proof {
            assert(recorded.take((level@.len() / 2) as int) =~= recorded);
            assert(next@ =~= results);
            assert(system@ == with_pairing(start, level@));
        }
        level = next;
        round = round + 1;
    }
    proof {
        lemma_pow2_zero();
    }
    Ok(level[0])
}

/// Reducing a level keeps what the system had recorded before, in place.
pub proof fn lemma_reduction_extends(system: SystemModel, level: Seq<DigestHandle>)
    ensures
        system.relations.is_prefix_of(with_reduction(system, level).relations),
    decreases level.len(),
{
    if level.len() > 1 {
        let paired = with_pairing(system, level);
        let next = digests_at(system.handles as int, level.len() / 2);
        lemma_reduction_extends(paired, next);
        let all = with_reduction(paired, next).relations;
        assert(system.relations =~= paired.relations.subrange(0, system.relations.len() as int));
        assert(system.relations =~= all.subrange(0, system.relations.len() as int));
    } else {
        assert(system.relations =~= system.relations.subrange(0, system.relations.len() as int));
    }
}

/// Reducing `2^depth` images allocates four handles for each node of the
/// tree above the leaves.
pub proof fn lemma_reduction_handles(system: SystemModel, level: Seq<DigestHandle>, depth: nat)
    requires
        level.len() == pow2(depth),
    ensures
        with_reduction(system, level).handles == system.handles + 4 * (level.len() - 1),
    decreases depth,
{
    lemma_pow2_pos(depth);
    if depth == 0 {
        lemma_pow2_zero();
    } else {
        lemma_pow2_unfold(depth);
        lemma_pow2_pos((depth - 1) as nat);
        lemma_reduction_handles(
            with_pairing(system, level),
            digests_at(system.handles as int, level.len() / 2),
            (depth - 1) as nat,
        );
    }
}

/// The relations that opening the revealed preimages records, with results
/// numbered from `first` on: for each preimage the hash of its elements
/// into a fresh digest handle, followed by four equalities between the
/// elements of that handle and those of the selected digest.
pub open spec fn opening_relations(
    first: nat,
    pre_images: Seq<Seq<Handle>>,
    selected: Seq<DigestHandle>,
) -> Seq<Relation> {
    Seq::new(
        5 * pre_images.len(),
        |n: int|
            if n % 5 == 0 {
                Relation::Hash { inputs: pre_images[n / 5], digest: digest_at(first + 4 * (n / 5)) }
            } else {
                Relation::Equal {
                    left: handle_at(first + 4 * (n / 5) + n % 5 - 1),
                    right: selected[n / 5].elements[n % 5 - 1],
                }
            },
    )
}

/// The system after each revealed preimage was hashed and the result was
/// required to equal the selected digest.
pub open spec fn with_openings(
    system: SystemModel,
    pre_images: Seq<Seq<Handle>>,
    selected: Seq<DigestHandle>,
) -> SystemModel {
    system.record_all(opening_relations(system.handles, pre_images, selected)).allocate(
        4 * pre_images.len(),
    )
}

/// The system after the whole verifier was recorded: the reduction of
/// `images` to a root, the equality of that root with `c`, the selection
/// from the pairs of `images`, and the opening of each revealed preimage
/// against its selected digest.
pub open spec fn with_verifier(
    system: SystemModel,
    c: DigestHandle,
    images: Seq<DigestHandle>,
    selector: Seq<BoolHandle>,
    pre_images: Seq<Seq<Handle>>,
) -> SystemModel {
    let committed = with_reduction(system, images).with_equal_digests(
        c,
        reduction_root(system, images),
    );
    let selected = digests_at(committed.handles as int, selector.len());
    with_openings(with_selection(committed, selector, images), pre_images, selected)
}

/// The circuit counterpart of verifying a disclosure bundle. It records, in
/// this order: the reduction of `images` to a root, as [`commit_t`] does;
/// the equality of `c` with that root; the selection from the pairs of
/// `images`, as [`select_t`] does; and for each revealed preimage the hash
/// of its handles and the equality of that hash with the selected digest.
/// Fails with `InvalidInput`, and records nothing, when the lists do not
/// fit together.
pub fn make_verifier(
    system: &mut ConstraintSystem,
    c: DigestHandle,
    images: Vec<DigestHandle>,
    selector: Vec<BoolHandle>,
    pre_images: Vec<Vec<Handle>>,
) -> (outcome: Result<(), Error>)
    requires
        old(system).handles + 8 * images.len() <= usize::MAX,
    ensures
        (match outcome {
            Ok(()) => {
                &&& well_shaped(images@.len(), selector@.len(), pre_images@.len())
                &&& final(system)@ == with_verifier(
                    old(system)@,
                    c,
                    images@,
                    selector@,
                    contents(pre_images@),
                )
            },
            Err(reason) => {
                &&& !well_shaped(images@.len(), selector@.len(), pre_images@.len())
                &&& reason == Error::InvalidInput
                &&& final(system)@ == old(system)@
            },
        }),
{
    if images.len() / 2 != selector.len() || selector.len() != pre_images.len() {
        return Err(Error::InvalidInput);
    }
    let leaves = images.clone();
    assert(leaves@ =~= images@);
    let c_cal = match commit_t(system, leaves) {
        Ok(root) => root,
        Err(_) => {
            return Err(Error::InvalidInput);
        },
    };
    proof {
        let depth = choose|e: nat| images@.len() == pow2(e);
        lemma_reduction_handles(old(system)@, images@, depth);
    }
    system.connect_digests(c, c_cal);
    let ghost committed = system@;
    let ghost revealed = contents(pre_images@);
    let selected_images = if images.len() == 1 {
        assert(with_selection(committed, selector@, images@) == committed) by {
            assert(committed.relations + selection_relations(
                committed.handles,
                selector@,
                images@,
            ) =~= committed.relations);
        }
        Vec::new()
    } else {
        proof {
            lemma_power_of_two_is_even(images@.len());
        }
        match select_t(system, selector, images) {
            Ok(selected) => selected,
            Err(_) => {
                return Err(Error::InvalidInput);
            },
        }
    };
    assert(selected_images@ =~= digests_at(committed.handles as int, pre_images@.len()));
    let ghost start = system@;
    let ghost recorded = opening_relations(start.handles, revealed, selected_images@);
    let mut i: usize = 0;
    assert(system@ == start.record_all(recorded.take(0)).allocate(0)) by {
        assert(start.relations + recorded.take(0) =~= start.relations);
    }
    while i < pre_images.len()
        invariant
            i <= pre_images.len(),
            selected_images.len() == pre_images.len(),
            start.handles + 4 * pre_images.len() <= usize::MAX,
            revealed == contents(pre_images@),
            recorded == opening_relations(start.handles, revealed, selected_images@),
            system@ == start.record_all(recorded.take(5 * i)).allocate((4 * i) as nat),
        decreases pre_images.len() - i,
    {
        let inputs = pre_images[i].clone();
        assert(inputs@ =~= revealed[i as int]);
        let hashed_pre_image = system.hash_no_pad(inputs);
        system.connect_digests(hashed_pre_image, selected_images[i]);
        proof {
            assert(recorded.take(5 * (i + 1)) =~= recorded.take(5 * i).push(recorded[5 * i]).push(
                recorded[5 * i + 1],
            ).push(recorded[5 * i + 2]).push(recorded[5 * i + 3]).push(recorded[5 * i + 4]));
            assert(system@.relations =~= start.relations + recorded.take(5 * (i + 1)));
        }
        i = i + 1;
    }
    proof {
        assert(recorded.take(5 * pre_images@.len() as int) =~= recorded);
    }
    Ok(())
}

} // verus!
