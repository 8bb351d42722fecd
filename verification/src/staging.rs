//! The relations that the circuit twin records were recorded in stages.

use crate::circuit::{
    digest_at, digests_at, handle_at, BoolHandle, DigestHandle, Handle, Relation, SystemModel,
};
use crate::completion::{is_defining, mark, staged, writes_above_reads};
use crate::twin::{
    lemma_reduction_extends, opening_relations, pairing_relations, reduction_root,
    selection_relations, with_openings, with_pairing, with_reduction, with_selection,
};
use crate::witness::{allocated, digest_allocated, in_range};
use vstd::arithmetic::power2::{lemma_pow2_pos, lemma_pow2_unfold, pow2};
use crate::tree::lemma_pow2_zero;
use vstd::prelude::*;

verus! {

/// Every digest handle of the list is made of handles among the first
/// `handles`.
pub open spec fn digests_allocated(digests: Seq<DigestHandle>, handles: nat) -> bool {
    forall|i: int| 0 <= i < digests.len() ==> digest_allocated(#[trigger] digests[i], handles)
}

/// Every boolean handle of the list is among the first `handles`.
pub open spec fn bits_allocated(bits: Seq<BoolHandle>, handles: nat) -> bool {
    forall|i: int| 0 <= i < bits.len() ==> allocated((#[trigger] bits[i]).handle, handles)
}

/// Every handle of every list is among the first `handles`.
pub open spec fn lists_allocated(lists: Seq<Seq<Handle>>, handles: nat) -> bool {
    forall|i: int, j: int|
        0 <= i < lists.len() && 0 <= j < lists[i].len() ==> allocated(
            #[trigger] lists[i][j],
            handles,
        )
}

/// Handles that are among the first of a system stay so when the system
/// grows.
pub proof fn lemma_allocation_grows(
    c: DigestHandle,
    images: Seq<DigestHandle>,
    selector: Seq<BoolHandle>,
    pre_images: Seq<Seq<Handle>>,
    handles: nat,
    more: nat,
)
    requires
        handles <= more,
        digest_allocated(c, handles),
        digests_allocated(images, handles),
        bits_allocated(selector, handles),
        lists_allocated(pre_images, handles),
    ensures
        digest_allocated(c, more),
        digests_allocated(images, more),
        bits_allocated(selector, more),
        lists_allocated(pre_images, more),
{
    assert forall|k: int| 0 <= k < 4 implies allocated(#[trigger] c.elements[k], more) by {
        assert(allocated(c.elements[k], handles));
    }
    assert forall|i: int| 0 <= i < images.len() implies digest_allocated(
        #[trigger] images[i],
        more,
    ) by {
        assert(digest_allocated(images[i], handles));
        assert forall|k: int| 0 <= k < 4 implies allocated(
            #[trigger] images[i].elements[k],
            more,
        ) by {
            assert(allocated(images[i].elements[k], handles));
        }
    }
    assert forall|i: int| 0 <= i < selector.len() implies allocated(
        (#[trigger] selector[i]).handle,
        more,
    ) by {
        assert(allocated(selector[i].handle, handles));
    }
    assert forall|i: int, j: int|
        0 <= i < pre_images.len() && 0 <= j < pre_images[i].len() implies allocated(
        #[trigger] pre_images[i][j],
        more,
    ) by {
        assert(allocated(pre_images[i][j], handles));
    }
}

/// Staging speaks of the relations of its stretch only.
pub proof fn lemma_staged_same(
    first: Seq<Relation>,
    second: Seq<Relation>,
    from: int,
    to: int,
    floor: nat,
    ceiling: nat,
)
    requires
        0 <= from,
        to <= first.len(),
        to <= second.len(),
        forall|p: int| from <= p < to ==> first[p] == second[p],
        staged(first, from, to, floor, ceiling),
    ensures
        staged(second, from, to, floor, ceiling),
{
    assert forall|p: int| from <= p < to implies {
        &&& in_range(#[trigger] second[p], ceiling)
        &&& writes_above_reads(second[p])
        &&& is_defining(second[p]) ==> {
            &&& mark(second[p]) >= floor
            &&& forall|q: int|
                from <= q < p ==> in_range(#[trigger] second[q], mark(second[p]) as nat)
        }
    } by {
        assert(in_range(first[p], ceiling));
        if is_defining(second[p]) {
            assert forall|q: int| from <= q < p implies in_range(
                #[trigger] second[q],
                mark(second[p]) as nat,
            ) by {
                assert(in_range(first[q], mark(first[p]) as nat));
            }
        }
    }
}

/// Two stretches that follow each other, the second staged above the
/// ceiling of the first, make one staged stretch.
pub proof fn lemma_staged_join(
    relations: Seq<Relation>,
    from: int,
    middle: int,
    to: int,
    floor: nat,
    between: nat,
    ceiling: nat,
)
    requires
        from <= middle <= to,
        floor <= between <= ceiling,
        staged(relations, from, middle, floor, between),
        staged(relations, middle, to, between, ceiling),
    ensures
        staged(relations, from, to, floor, ceiling),
{
    assert forall|p: int| from <= p < to implies {
        &&& in_range(#[trigger] relations[p], ceiling)
        &&& writes_above_reads(relations[p])
        &&& is_defining(relations[p]) ==> {
            &&& mark(relations[p]) >= floor
            &&& forall|q: int|
                from <= q < p ==> in_range(#[trigger] relations[q], mark(relations[p]) as nat)
        }
    } by {
        if p < middle {
            assert(in_range(relations[p], between));
            if is_defining(relations[p]) {
                assert forall|q: int| from <= q < p implies in_range(
                    #[trigger] relations[q],
                    mark(relations[p]) as nat,
                ) by {}
            }
        } else {
            assert(in_range(relations[p], ceiling));
            if is_defining(relations[p]) {
                assert forall|q: int| from <= q < p implies in_range(
                    #[trigger] relations[q],
                    mark(relations[p]) as nat,
                ) by {
                    if q < middle {
                        assert(in_range(relations[q], between));
                    }
                }
            }
        }
    }
}

/// The digest handles made of consecutive handles are allocated once
/// those handles are.
pub proof fn lemma_digests_at_allocated(first: nat, count: nat)
    requires
        first + 4 * count <= usize::MAX,
    ensures
        digests_allocated(digests_at(first as int, count), first + 4 * count),
{
    assert forall|i: int| 0 <= i < count implies digest_allocated(
        #[trigger] digests_at(first as int, count)[i],
        first + 4 * count,
    ) by {
        let digest = digests_at(first as int, count)[i];
        assert forall|k: int| 0 <= k < 4 implies allocated(
            #[trigger] digest.elements[k],
            first + 4 * count,
        ) by {
            assert(digest.elements[k] == handle_at(first + 4 * i + k));
        }
    }
}

/// The relations that compressing the pairs of a level records are
/// staged from the handles of the system on.
pub proof fn lemma_pairing_staged(system: SystemModel, level: Seq<DigestHandle>)
    requires
        digests_allocated(level, system.handles),
        system.handles + 4 * (level.len() / 2) <= usize::MAX,
    ensures
        staged(
            with_pairing(system, level).relations,
            system.relations.len() as int,
            (system.relations.len() + level.len() / 2) as int,
            system.handles,
            with_pairing(system, level).handles,
        ),
{
    let all = with_pairing(system, level).relations;
    let before = system.relations.len() as int;
    let count = (level.len() / 2) as int;
    let first = system.handles;
    let ceiling = with_pairing(system, level).handles;
    assert forall|p: int| before <= p < before + count implies {
        &&& in_range(#[trigger] all[p], ceiling)
        &&& writes_above_reads(all[p])
        &&& is_defining(all[p]) ==> {
            &&& mark(all[p]) >= first
            &&& forall|q: int| before <= q < p ==> in_range(#[trigger] all[q], mark(all[p]) as nat)
        }
    } by {
        let i = p - before;
        lemma_pairing_relation(system, level, i, ceiling);
        assert(mark(all[p]) == first + 4 * i);
        assert forall|q: int| before <= q < p implies in_range(
            #[trigger] all[q],
            mark(all[p]) as nat,
        ) by {
            lemma_pairing_relation(system, level, q - before, (first + 4 * i) as nat);
        }
    }
}

/// The relation that compressing pair `i` of a level records reads the
/// handles of the pair and writes the four handles after those of the
/// pairs before it.
proof fn lemma_pairing_relation(system: SystemModel, level: Seq<DigestHandle>, i: int, bound: nat)
    requires
        digests_allocated(level, system.handles),
        0 <= i < level.len() / 2,
        system.handles + 4 * (i + 1) <= bound <= usize::MAX,
    ensures
        with_pairing(system, level).relations[system.relations.len() + i] == pairing_relations(
            system.handles,
            level,
        )[i],
        in_range(pairing_relations(system.handles, level)[i], bound),
        writes_above_reads(pairing_relations(system.handles, level)[i]),
        mark(pairing_relations(system.handles, level)[i]) == system.handles + 4 * i,
{
    let relation = pairing_relations(system.handles, level)[i];
    let inputs = level[2 * i].elements@ + level[2 * i + 1].elements@;
    let digest = digest_at(system.handles + 4 * i);
    assert(relation == Relation::Hash { inputs, digest });
    assert forall|j: int| 0 <= j < inputs.len() implies (#[trigger] inputs[j]).index
        < system.handles by {
        if j < 4 {
            assert(inputs[j] == level[2 * i].elements[j]);
            assert(digest_allocated(level[2 * i], system.handles));
        } else {
            assert(inputs[j] == level[2 * i + 1].elements[j - 4]);
            assert(digest_allocated(level[2 * i + 1], system.handles));
        }
    }
    assert(digest.elements[0] == handle_at(system.handles + 4 * i));
    assert(digest.elements[1] == handle_at(system.handles + 4 * i + 1));
    assert(digest.elements[2] == handle_at(system.handles + 4 * i + 2));
    assert(digest.elements[3] == handle_at(system.handles + 4 * i + 3));
    assert(digest_allocated(digest, bound));
}

/// The relations that reducing `2^depth` images records are staged from
/// the handles of the system on: one for each node above the leaves, each
/// with four handles of its own, and the root among them.
pub proof fn lemma_reduction_staged(system: SystemModel, level: Seq<DigestHandle>, depth: nat)
    requires
        level.len() == pow2(depth),
        digests_allocated(level, system.handles),
        system.handles + 4 * (level.len() - 1) <= usize::MAX,
    ensures
        with_reduction(system, level).handles == system.handles + 4 * (level.len() - 1),
        with_reduction(system, level).relations.len() == system.relations.len() + level.len() - 1,
        staged(
            with_reduction(system, level).relations,
            system.relations.len() as int,
            with_reduction(system, level).relations.len() as int,
            system.handles,
            with_reduction(system, level).handles,
        ),
        digest_allocated(reduction_root(system, level), with_reduction(system, level).handles),
        forall|p: int|
            system.relations.len() <= p < with_reduction(system, level).relations.len() ==> (
            #[trigger] with_reduction(system, level).relations[p]) is Hash,
    decreases depth,
{
    lemma_pow2_pos(depth);
    if depth == 0 {
        lemma_pow2_zero();
        assert(digest_allocated(level[0], system.handles));
    } else {
        lemma_pow2_unfold(depth);
        lemma_pow2_pos((depth - 1) as nat);
        let paired = with_pairing(system, level);
        let next = digests_at(system.handles as int, level.len() / 2);
        let reduced = with_reduction(system, level);
        assert(reduced == with_reduction(paired, next));
        lemma_digests_at_allocated(system.handles, level.len() / 2);
        lemma_reduction_staged(paired, next, (depth - 1) as nat);
        lemma_pairing_staged(system, level);
        lemma_reduction_extends(paired, next);
        let middle = paired.relations.len() as int;
        assert forall|p: int| 0 <= p < middle implies paired.relations[p]
            == reduced.relations[p] by {
            assert(paired.relations == reduced.relations.subrange(0, middle));
            assert(reduced.relations.subrange(0, middle)[p] == reduced.relations[p]);
        }
        lemma_staged_same(
            paired.relations,
            reduced.relations,
            system.relations.len() as int,
            middle,
            system.handles,
            paired.handles,
        );
        lemma_staged_join(
            reduced.relations,
            system.relations.len() as int,
            middle,
            reduced.relations.len() as int,
            system.handles,
            paired.handles,
            reduced.handles,
        );
        assert forall|p: int|
            system.relations.len() <= p < reduced.relations.len() implies (
        #[trigger] reduced.relations[p]) is Hash by {
            if p < middle {
                lemma_pairing_relation(
                    system,
                    level,
                    p - system.relations.len(),
                    paired.handles,
                );
                assert(paired.relations[p] == reduced.relations[p]);
            }
        }
    }
}

/// The relations that selecting from the pairs of `images` records are
/// staged from the handles of the system on.
pub proof fn lemma_selection_staged(
    system: SystemModel,
    selector: Seq<BoolHandle>,
    images: Seq<DigestHandle>,
)
    requires
        images.len() >= 2 * selector.len(),
        bits_allocated(selector, system.handles),
        digests_allocated(images, system.handles),
        system.handles + 4 * selector.len() <= usize::MAX,
    ensures
        staged(
            with_selection(system, selector, images).relations,
            system.relations.len() as int,
            (system.relations.len() + 4 * selector.len()) as int,
            system.handles,
            with_selection(system, selector, images).handles,
        ),
{
    let all = with_selection(system, selector, images).relations;
    let before = system.relations.len() as int;
    let first = system.handles;
    let ceiling = with_selection(system, selector, images).handles;
    assert forall|p: int| before <= p < before + 4 * selector.len() implies {
        &&& in_range(#[trigger] all[p], ceiling)
        &&& writes_above_reads(all[p])
        &&& is_defining(all[p]) ==> {
            &&& mark(all[p]) >= first
            &&& forall|q: int| before <= q < p ==> in_range(#[trigger] all[q], mark(all[p]) as nat)
        }
    } by {
        let n = p - before;
        lemma_selection_relation(system, selector, images, n, ceiling);
        assert forall|q: int| before <= q < p implies in_range(
            #[trigger] all[q],
            mark(all[p]) as nat,
        ) by {
            lemma_selection_relation(system, selector, images, q - before, (first + n) as nat);
        }
    }
}

/// The select that is recorded in place `n` of a selection reads handles
/// of the system and writes the handle `n` places after them.
proof fn lemma_selection_relation(
    system: SystemModel,
    selector: Seq<BoolHandle>,
    images: Seq<DigestHandle>,
    n: int,
    bound: nat,
)
    requires
        images.len() >= 2 * selector.len(),
        bits_allocated(selector, system.handles),
        digests_allocated(images, system.handles),
        0 <= n < 4 * selector.len(),
        system.handles + n < bound <= usize::MAX,
    ensures
        with_selection(system, selector, images).relations[system.relations.len() + n]
            == selection_relations(system.handles, selector, images)[n],
        in_range(selection_relations(system.handles, selector, images)[n], bound),
        writes_above_reads(selection_relations(system.handles, selector, images)[n]),
        is_defining(selection_relations(system.handles, selector, images)[n]),
        mark(selection_relations(system.handles, selector, images)[n]) == system.handles + n,
{
    let i = n / 4;
    let k = n % 4;
    assert(allocated(selector[i].handle, system.handles));
    assert(digest_allocated(images[2 * i], system.handles));
    assert(digest_allocated(images[2 * i + 1], system.handles));
    assert(allocated(images[2 * i].elements[k], system.handles));
    assert(allocated(images[2 * i + 1].elements[k], system.handles));
}

/// The relations that opening the revealed preimages records are staged
/// from the handles of the system on.
pub proof fn lemma_openings_staged(
    system: SystemModel,
    pre_images: Seq<Seq<Handle>>,
    selected: Seq<DigestHandle>,
)
    requires
        selected.len() == pre_images.len(),
        lists_allocated(pre_images, system.handles),
        digests_allocated(selected, system.handles),
        system.handles + 4 * pre_images.len() <= usize::MAX,
    ensures
        staged(
            with_openings(system, pre_images, selected).relations,
            system.relations.len() as int,
            (system.relations.len() + 5 * pre_images.len()) as int,
            system.handles,
            with_openings(system, pre_images, selected).handles,
        ),
{
    let all = with_openings(system, pre_images, selected).relations;
    let before = system.relations.len() as int;
    let first = system.handles;
    let ceiling = with_openings(system, pre_images, selected).handles;
    assert forall|p: int| before <= p < before + 5 * pre_images.len() implies {
        &&& in_range(#[trigger] all[p], ceiling)
        &&& writes_above_reads(all[p])
        &&& is_defining(all[p]) ==> {
            &&& mark(all[p]) >= first
            &&& forall|q: int| before <= q < p ==> in_range(#[trigger] all[q], mark(all[p]) as nat)
        }
    } by {
        let n = p - before;
        lemma_opening_relation(system, pre_images, selected, n, ceiling);
        if is_defining(all[p]) {
            assert forall|q: int| before <= q < p implies in_range(
                #[trigger] all[q],
                mark(all[p]) as nat,
            ) by {
                lemma_opening_relation(
                    system,
                    pre_images,
                    selected,
                    q - before,
                    (first + 4 * (n / 5)) as nat,
                );
            }
        }
    }
}

/// The relation that is recorded in place `n` of the openings: a hash
/// that reads the handles of a preimage and writes four handles of its
/// own, or an equality between one of those and a handle of the system.
proof fn lemma_opening_relation(
    system: SystemModel,
    pre_images: Seq<Seq<Handle>>,
    selected: Seq<DigestHandle>,
    n: int,
    bound: nat,
)
    requires
        selected.len() == pre_images.len(),
        lists_allocated(pre_images, system.handles),
        digests_allocated(selected, system.handles),
        0 <= n < 5 * pre_images.len(),
        system.handles + 4 * (n / 5) + (if n % 5 == 0 {
            4int
        } else {
            n % 5
        }) <= bound <= usize::MAX,
    ensures
        with_openings(system, pre_images, selected).relations[system.relations.len() + n]
            == opening_relations(system.handles, pre_images, selected)[n],
        in_range(opening_relations(system.handles, pre_images, selected)[n], bound),
        writes_above_reads(opening_relations(system.handles, pre_images, selected)[n]),
        is_defining(opening_relations(system.handles, pre_images, selected)[n]) <==> n % 5 == 0,
        n % 5 == 0 ==> mark(opening_relations(system.handles, pre_images, selected)[n])
            == system.handles + 4 * (n / 5),
{
    let i = n / 5;
    let relation = opening_relations(system.handles, pre_images, selected)[n];
    if n % 5 == 0 {
        let digest = digest_at(system.handles + 4 * i);
        assert(relation == Relation::Hash { inputs: pre_images[i], digest });
        assert forall|j: int| 0 <= j < pre_images[i].len() implies allocated(
            #[trigger] pre_images[i][j],
            system.handles,
        ) by {}
        assert(digest.elements[0] == handle_at(system.handles + 4 * i));
        assert(digest.elements[1] == handle_at(system.handles + 4 * i + 1));
        assert(digest.elements[2] == handle_at(system.handles + 4 * i + 2));
        assert(digest.elements[3] == handle_at(system.handles + 4 * i + 3));
        assert(digest_allocated(digest, bound));
    } else {
        let k = n % 5 - 1;
        assert(digest_allocated(selected[i], system.handles));
        assert(allocated(selected[i].elements[k], system.handles));
    }
}

} // verus!
