//! Completeness of the circuit twin: for a bundle that native
//! verification accepts, completing the witness satisfies the recorded
//! verifier.

use crate::circuit::{
    digest_at, digests_at, handle_at, BoolHandle, DigestHandle, Handle, Relation, SystemModel,
};
use crate::completion::{is_defining, lemma_completion, lemma_holds_frame, staged};
use crate::digest::Hasher;
use crate::disclosure::{is_outcome, reveals, well_shaped};
use crate::layout::{
    commitment_end, lemma_commitment_relation, lemma_kept_relation, lemma_opening_relation,
    lemma_reduction_relation, lemma_selection_relation, lemma_verifier_size, reduction_end,
    reduction_handles, selection_end,
};
use crate::selector::choose_from_pairs;
use crate::soundness::{
    bit_values, compresses_by_hashing, digest_values, lemma_reduction_sound,
    lemma_selected_sound, lemma_selector_bits, pre_image_values, restricted,
};
use crate::staging::{
    bits_allocated, digests_allocated, lemma_allocation_grows, lemma_digests_at_allocated,
    lemma_openings_staged, lemma_reduction_staged, lemma_selection_staged, lemma_staged_join,
    lemma_staged_same, lists_allocated,
};
use crate::tree::tree_root;
use crate::twin::{
    opening_relations, reduction_root, with_openings, with_reduction, with_selection,
    with_verifier,
};
use crate::witness::{
    allocated, completed, digest_allocated, digest_value, holds, in_range, satisfied, value, values,
};
use vstd::arithmetic::power2::pow2;
use vstd::prelude::*;

verus! {

/// The handles of a bundle were allocated in the system, and the system
/// with the verifier recorded has no more handles than can be numbered.
pub open spec fn fits(
    system: SystemModel,
    c: DigestHandle,
    images: Seq<DigestHandle>,
    selector: Seq<BoolHandle>,
    pre_images: Seq<Seq<Handle>>,
) -> bool {
    &&& well_shaped(images.len(), selector.len(), pre_images.len())
    &&& digest_allocated(c, system.handles)
    &&& digests_allocated(images, system.handles)
    &&& bits_allocated(selector, system.handles)
    &&& lists_allocated(pre_images, system.handles)
    &&& with_verifier(system, c, images, selector, pre_images).handles <= usize::MAX
}

/// The witness that completing makes of a witness of the system so far:
/// made longer with zeros, then completed along the relations of the
/// system with the verifier recorded.
pub open spec fn completion<H: Hasher>(
    system: SystemModel,
    c: DigestHandle,
    images: Seq<DigestHandle>,
    selector: Seq<BoolHandle>,
    pre_images: Seq<Seq<Handle>>,
    witness: Seq<u64>,
) -> Seq<u64> {
    let whole = with_verifier(system, c, images, selector, pre_images);
    completed::<H>(whole.relations, padded(witness, whole.handles))
}

/// The relations of the verifier were recorded in stages, from the
/// handles that the system had before on.
proof fn lemma_verifier_staged(
    system: SystemModel,
    c: DigestHandle,
    images: Seq<DigestHandle>,
    selector: Seq<BoolHandle>,
    pre_images: Seq<Seq<Handle>>,
)
    requires
        fits(system, c, images, selector, pre_images),
    ensures
        staged(
            with_verifier(system, c, images, selector, pre_images).relations,
            system.relations.len() as int,
            with_verifier(system, c, images, selector, pre_images).relations.len() as int,
            system.handles,
            with_verifier(system, c, images, selector, pre_images).handles,
        ),
{
    let reduced = with_reduction(system, images);
    let root = reduction_root(system, images);
    let committed = reduced.with_equal_digests(c, root);
    let selected = digests_at(committed.handles as int, selector.len());
    let chosen = with_selection(committed, selector, images);
    let whole = with_openings(chosen, pre_images, selected);
    let all = whole.relations;
    let n0 = system.relations.len() as int;
    let n1 = reduction_end(system, images);
    let n2 = commitment_end(system, images);
    let n3 = selection_end(system, images);
    let n4 = n3 + 5 * selector.len();
    let depth = choose|e: nat| images.len() == pow2(e);
    lemma_verifier_size(system, c, images, selector, pre_images);
    lemma_reduction_staged(system, images, depth);
    assert forall|p: int| n0 <= p < n1 implies reduced.relations[p] == all[p] by {
        lemma_reduction_relation(system, c, images, selector, pre_images, p);
    }
    lemma_staged_same(reduced.relations, all, n0, n1, system.handles, reduced.handles);
    assert(staged(all, n1, n2, reduced.handles, reduced.handles)) by {
        assert forall|p: int| n1 <= p < n2 implies in_range(#[trigger] all[p], reduced.handles)
            && !is_defining(all[p]) by {
            let k = p - n1;
            lemma_commitment_relation(system, c, images, selector, pre_images, k);
            assert(all[n1 + k] == Relation::Equal { left: c.elements[k], right: root.elements[k] });
            assert(allocated(c.elements[k], system.handles));
            assert(allocated(root.elements[k], reduced.handles));
        }
    }
    lemma_staged_join(all, n0, n1, n2, system.handles, reduced.handles, reduced.handles);
    lemma_allocation_grows(c, images, selector, pre_images, system.handles, committed.handles);
    lemma_selection_staged(committed, selector, images);
    assert forall|p: int| n2 <= p < n3 implies chosen.relations[p] == all[p] by {}
    lemma_staged_same(chosen.relations, all, n2, n3, committed.handles, chosen.handles);
    lemma_staged_join(all, n0, n2, n3, system.handles, reduced.handles, chosen.handles);
    lemma_digests_at_allocated(committed.handles, selector.len());
    lemma_allocation_grows(c, images, selector, pre_images, system.handles, chosen.handles);
    lemma_openings_staged(chosen, pre_images, selected);
    lemma_staged_join(all, n0, n3, n4, system.handles, chosen.handles, whole.handles);
}

/// A witness made longer with zeros, up to `length` values.
pub open spec fn padded(witness: Seq<u64>, length: nat) -> Seq<u64> {
    witness + Seq::new((length - witness.len()) as nat, |i: int| 0u64)
}

/// Two witnesses that agree on the first `handles` values assign the same
/// bundle to handles among the first `handles`.
proof fn lemma_same_bundle(
    c: DigestHandle,
    images: Seq<DigestHandle>,
    selector: Seq<BoolHandle>,
    pre_images: Seq<Seq<Handle>>,
    handles: nat,
    first: Seq<u64>,
    second: Seq<u64>,
)
    requires
        digest_allocated(c, handles),
        digests_allocated(images, handles),
        bits_allocated(selector, handles),
        lists_allocated(pre_images, handles),
        forall|index: int| 0 <= index < handles ==> first[index] == second[index],
    ensures
        digest_value(first, c) == digest_value(second, c),
        digest_values(first, images) == digest_values(second, images),
        bit_values(first, selector) == bit_values(second, selector),
        pre_image_values(first, pre_images) == pre_image_values(second, pre_images),
{
    assert(digest_value(first, c).elements =~= digest_value(second, c).elements) by {
        assert forall|k: int| 0 <= k < 4 implies value(first, c.elements[k]) == value(
            second,
            c.elements[k],
        ) by {
            assert(allocated(c.elements[k], handles));
        }
    }
    assert(digest_values(first, images) =~= digest_values(second, images)) by {
        assert forall|i: int| 0 <= i < images.len() implies digest_value(first, images[i])
            == digest_value(second, images[i]) by {
            assert(digest_allocated(images[i], handles));
            assert forall|k: int| 0 <= k < 4 implies value(first, images[i].elements[k]) == value(
                second,
                images[i].elements[k],
            ) by {
                assert(allocated(images[i].elements[k], handles));
            }
            assert(digest_value(first, images[i]).elements =~= digest_value(
                second,
                images[i],
            ).elements);
        }
    }
    assert(bit_values(first, selector) =~= bit_values(second, selector)) by {
        assert forall|i: int| 0 <= i < selector.len() implies value(first, selector[i].handle)
            == value(second, selector[i].handle) by {
            assert(allocated(selector[i].handle, handles));
        }
    }
    assert(pre_image_values(first, pre_images) =~= pre_image_values(second, pre_images)) by {
        assert forall|i: int| 0 <= i < pre_images.len() implies values(first, pre_images[i])
            == values(second, pre_images[i]) by {
            assert forall|j: int| 0 <= j < pre_images[i].len() implies value(
                first,
                pre_images[i][j],
            ) == value(second, pre_images[i][j]) by {
                assert(allocated(pre_images[i][j], handles));
            }
            assert(values(first, pre_images[i]) =~= values(second, pre_images[i]));
        }
    }
}

/// What completing does: the witness gets a value for every handle; the
/// values of the handles that the system had before stay; what held stays
/// true; and every select and hash of the verifier holds.
proof fn lemma_verifier_completion<H: Hasher>(
    system: SystemModel,
    c: DigestHandle,
    images: Seq<DigestHandle>,
    selector: Seq<BoolHandle>,
    pre_images: Seq<Seq<Handle>>,
    witness: Seq<u64>,
)
    requires
        fits(system, c, images, selector, pre_images),
        satisfied::<H>(system, witness),
    ensures
        ({
            let whole = with_verifier(system, c, images, selector, pre_images);
            let complete = completion::<H>(system, c, images, selector, pre_images, witness);
            &&& complete.len() == whole.handles
            &&& forall|index: int|
                0 <= index < system.handles ==> complete[index] == witness[index]
            &&& forall|p: int|
                0 <= p < system.relations.len() ==> holds::<H>(
                    #[trigger] whole.relations[p],
                    complete,
                )
            &&& forall|p: int|
                system.relations.len() <= p < whole.relations.len() && is_defining(
                    #[trigger] whole.relations[p],
                ) ==> holds::<H>(whole.relations[p], complete)
            &&& forall|p: int|
                system.relations.len() <= p < whole.relations.len() ==> in_range(
                    #[trigger] whole.relations[p],
                    whole.handles,
                )
        }),
{
    let whole = with_verifier(system, c, images, selector, pre_images);
    let all = whole.relations;
    let kept = system.relations.len() as int;
    let start = padded(witness, whole.handles);
    let complete = completed::<H>(all, start);
    lemma_verifier_size(system, c, images, selector, pre_images);
    lemma_verifier_staged(system, c, images, selector, pre_images);
    assert forall|q: int| 0 <= q < kept implies in_range(
        #[trigger] all[q],
        system.handles,
    ) && holds::<H>(all[q], start) by {
        lemma_kept_relation(system, c, images, selector, pre_images, q);
        assert(holds::<H>(system.relations[q], witness));
        lemma_holds_frame::<H>(all[q], system.handles, witness, start);
    }
    lemma_completion::<H>(all, kept, system.handles, start);
    assert forall|index: int| 0 <= index < system.handles implies complete[index]
        == witness[index] by {
        assert(start[index] == witness[index]);
    }
}

/// Completing keeps the bundle that the witness assigns to the handles of
/// the commitment, the images, the selector and the revealed preimages.
proof fn lemma_completion_keeps_bundle<H: Hasher>(
    system: SystemModel,
    c: DigestHandle,
    images: Seq<DigestHandle>,
    selector: Seq<BoolHandle>,
    pre_images: Seq<Seq<Handle>>,
    witness: Seq<u64>,
)
    requires
        fits(system, c, images, selector, pre_images),
        satisfied::<H>(system, witness),
    ensures
        ({
            let complete = completion::<H>(system, c, images, selector, pre_images, witness);
            &&& digest_value(complete, c) == digest_value(witness, c)
            &&& digest_values(complete, images) == digest_values(witness, images)
            &&& bit_values(complete, selector) == bit_values(witness, selector)
            &&& pre_image_values(complete, pre_images) == pre_image_values(witness, pre_images)
        }),
{
    let complete = completion::<H>(system, c, images, selector, pre_images, witness);
    lemma_verifier_completion::<H>(system, c, images, selector, pre_images, witness);
    lemma_same_bundle(c, images, selector, pre_images, system.handles, complete, witness);
}

/// Completing lets the handle of the commitment hold the root of the tree
/// over the images.
proof fn lemma_completion_commits<H: Hasher>(
    system: SystemModel,
    c: DigestHandle,
    images: Seq<DigestHandle>,
    selector: Seq<BoolHandle>,
    pre_images: Seq<Seq<Handle>>,
    witness: Seq<u64>,
    k: int,
)
    requires
        fits(system, c, images, selector, pre_images),
        compresses_by_hashing::<H>(),
        satisfied::<H>(system, witness),
        digest_value(witness, c) == tree_root::<H>(digest_values(witness, images)),
        0 <= k < 4,
    ensures
        holds::<H>(
            with_verifier(system, c, images, selector, pre_images).relations[reduction_end(
                system,
                images,
            ) + k],
            completion::<H>(system, c, images, selector, pre_images, witness),
        ),
{
    let whole = with_verifier(system, c, images, selector, pre_images);
    let all = whole.relations;
    let complete = completion::<H>(system, c, images, selector, pre_images, witness);
    let reduced = with_reduction(system, images);
    let root = reduction_root(system, images);
    let hashed = reduction_end(system, images);
    lemma_verifier_size(system, c, images, selector, pre_images);
    lemma_completion_keeps_bundle::<H>(system, c, images, selector, pre_images, witness);
    assert(digest_value(complete, root) == tree_root::<H>(
        digest_values(complete, images),
    )) by {
        let depth = choose|e: nat| images.len() == pow2(e);
        lemma_verifier_completion::<H>(system, c, images, selector, pre_images, witness);
        assert forall|j: int| system.relations.len() <= j < hashed implies holds::<H>(
            #[trigger] reduced.relations[j],
            complete,
        ) by {
            lemma_reduction_relation(system, c, images, selector, pre_images, j);
            assert(is_defining(all[j]));
        }
        lemma_reduction_sound::<H>(system, images, depth, complete);
    }
    lemma_commitment_relation(system, c, images, selector, pre_images, k);
    assert(in_range(all[hashed + k], whole.handles)) by {
        lemma_verifier_completion::<H>(system, c, images, selector, pre_images, witness);
    }
    assert(complete.len() == whole.handles) by {
        lemma_verifier_completion::<H>(system, c, images, selector, pre_images, witness);
    }
    assert(digest_value(complete, root).elements[k] == digest_value(complete, c).elements[k]);
}

/// Completing lets each selected digest handle hold the image that its
/// bit picks from its pair.
proof fn lemma_completion_selects<H: Hasher>(
    system: SystemModel,
    c: DigestHandle,
    images: Seq<DigestHandle>,
    selector: Seq<BoolHandle>,
    pre_images: Seq<Seq<Handle>>,
    witness: Seq<u64>,
)
    requires
        fits(system, c, images, selector, pre_images),
        restricted(system, selector),
        satisfied::<H>(system, witness),
    ensures
        forall|i: int|
            0 <= i < selector.len() ==> digest_value(
                completion::<H>(system, c, images, selector, pre_images, witness),
                #[trigger] digests_at(reduction_handles(system, images) as int, selector.len())[i],
            ) == choose_from_pairs(
                bit_values(witness, selector),
                digest_values(witness, images),
            )[i],
{
    let whole = with_verifier(system, c, images, selector, pre_images);
    let all = whole.relations;
    let complete = completion::<H>(system, c, images, selector, pre_images, witness);
    lemma_verifier_size(system, c, images, selector, pre_images);
    lemma_verifier_completion::<H>(system, c, images, selector, pre_images, witness);
    lemma_completion_keeps_bundle::<H>(system, c, images, selector, pre_images, witness);
    assert forall|j: int| 0 <= j < system.relations.len() implies #[trigger] all[j]
        == system.relations[j] by {
        lemma_kept_relation(system, c, images, selector, pre_images, j);
    }
    lemma_selector_bits::<H>(system.relations, all, selector, complete);
    assert forall|p: int|
        commitment_end(system, images) <= p < selection_end(system, images) implies holds::<H>(
        #[trigger] all[p],
        complete,
    ) by {
        lemma_selection_relation(
            system,
            c,
            images,
            selector,
            pre_images,
            p - commitment_end(system, images),
        );
        assert(is_defining(all[p]));
    }
    lemma_selected_sound::<H>(system, c, images, selector, pre_images, complete);
}

/// Where the hash of an opening holds of a witness that assigns to the
/// selected digest handle the digest of the revealed preimage, the four
/// equalities of the opening hold as well.
proof fn lemma_opening_equalities<H: Hasher>(
    first: nat,
    pre_images: Seq<Seq<Handle>>,
    selected: Seq<DigestHandle>,
    witness: Seq<u64>,
    n: int,
)
    requires
        selected.len() == pre_images.len(),
        0 <= n < 5 * pre_images.len(),
        n % 5 != 0,
        in_range(opening_relations(first, pre_images, selected)[n], witness.len()),
        holds::<H>(opening_relations(first, pre_images, selected)[5 * (n / 5)], witness),
        H::hash(values(witness, pre_images[n / 5])) == digest_value(witness, selected[n / 5]),
    ensures
        holds::<H>(opening_relations(first, pre_images, selected)[n], witness),
{
    let i = n / 5;
    let k = n % 5 - 1;
    let opened = digest_at(first + 4 * i);
    assert(opening_relations(first, pre_images, selected)[5 * i] == Relation::Hash {
        inputs: pre_images[i],
        digest: opened,
    });
    assert(digest_value(witness, selected[i]) == digest_value(witness, opened));
    assert(digest_value(witness, selected[i]).elements[k] == digest_value(
        witness,
        opened,
    ).elements[k]);
    assert(opened.elements[k] == handle_at(first + 4 * i + k));
}

/// Completing lets the relations of an opening hold where the revealed
/// preimage hashes to its selected image.
proof fn lemma_completion_opens<H: Hasher>(
    system: SystemModel,
    c: DigestHandle,
    images: Seq<DigestHandle>,
    selector: Seq<BoolHandle>,
    pre_images: Seq<Seq<Handle>>,
    witness: Seq<u64>,
    n: int,
)
    requires
        fits(system, c, images, selector, pre_images),
        restricted(system, selector),
        satisfied::<H>(system, witness),
        0 <= n < 5 * selector.len(),
        reveals::<H>(
            digest_values(witness, images),
            bit_values(witness, selector),
            pre_image_values(witness, pre_images),
            n / 5,
        ),
    ensures
        holds::<H>(
            with_verifier(system, c, images, selector, pre_images).relations[selection_end(
                system,
                images,
            ) + n],
            completion::<H>(system, c, images, selector, pre_images, witness),
        ),
{
    let all = with_verifier(system, c, images, selector, pre_images).relations;
    let complete = completion::<H>(system, c, images, selector, pre_images, witness);
    let first = reduction_handles(system, images);
    let selected = digests_at(first as int, selector.len());
    let openings = opening_relations(first + 4 * selector.len(), pre_images, selected);
    let at = selection_end(system, images);
    let i = n / 5;
    lemma_verifier_size(system, c, images, selector, pre_images);
    assert(all[at + n] == openings[n]) by {
        lemma_opening_relation(system, c, images, selector, pre_images, n);
    }
    assert(all[at + 5 * i] == openings[5 * i]) by {
        lemma_opening_relation(system, c, images, selector, pre_images, 5 * i);
    }
    assert(openings[5 * i] is Hash);
    assert(holds::<H>(all[at + 5 * i], complete) && in_range(all[at + n], complete.len())) by {
        lemma_verifier_completion::<H>(system, c, images, selector, pre_images, witness);
        assert(is_defining(all[at + 5 * i]));
    }
    if n % 5 != 0 {
        assert(H::hash(values(complete, pre_images[i])) == digest_value(complete, selected[i])) by {
            lemma_completion_keeps_bundle::<H>(system, c, images, selector, pre_images, witness);
            lemma_completion_selects::<H>(system, c, images, selector, pre_images, witness);
            assert(values(complete, pre_images[i]) == pre_image_values(complete, pre_images)[i]);
            assert(values(witness, pre_images[i]) == pre_image_values(witness, pre_images)[i]);
            assert(digest_value(complete, selected[i]) == choose_from_pairs(
                bit_values(witness, selector),
                digest_values(witness, images),
            )[i]);
        }
        lemma_opening_equalities::<H>(
            first + 4 * selector.len(),
            pre_images,
            selected,
            complete,
            n,
        );
    }
}

/// The circuit is complete for the native check: where native
/// verification accepts the bundle that a witness assigns to the handles
/// of the commitment, the images, the selector and the revealed preimages,
/// and the witness satisfies the system so far, completing the witness
/// satisfies the system with the verifier recorded.
///
/// This holds for a hasher that compresses by hashing, for handles that
/// were allocated in the system, and for selector handles that the system
/// had restricted to zero or one.
pub proof fn lemma_verifier_complete<H: Hasher>(
    system: SystemModel,
    c: DigestHandle,
    images: Seq<DigestHandle>,
    selector: Seq<BoolHandle>,
    pre_images: Seq<Seq<Handle>>,
    witness: Seq<u64>,
)
    requires
        fits(system, c, images, selector, pre_images),
        compresses_by_hashing::<H>(),
        restricted(system, selector),
        satisfied::<H>(system, witness),
        is_outcome::<H>(
            digest_value(witness, c),
            digest_values(witness, images),
            bit_values(witness, selector),
            pre_image_values(witness, pre_images),
            Ok(()),
        ),
    ensures
        satisfied::<H>(
            with_verifier(system, c, images, selector, pre_images),
            completion::<H>(system, c, images, selector, pre_images, witness),
        ),
{
    let whole = with_verifier(system, c, images, selector, pre_images);
    let all = whole.relations;
    let complete = completion::<H>(system, c, images, selector, pre_images, witness);
    lemma_verifier_size(system, c, images, selector, pre_images);
    assert(complete.len() == whole.handles) by {
        lemma_verifier_completion::<H>(system, c, images, selector, pre_images, witness);
    }
    assert forall|p: int| 0 <= p < all.len() implies holds::<H>(#[trigger] all[p], complete) by {
        if p < reduction_end(system, images) {
            lemma_reduction_relation(system, c, images, selector, pre_images, p);
            lemma_verifier_completion::<H>(system, c, images, selector, pre_images, witness);
            if p >= system.relations.len() {
                assert(is_defining(all[p]));
            }
        } else if p < commitment_end(system, images) {
            lemma_completion_commits::<H>(
                system,
                c,
                images,
                selector,
                pre_images,
                witness,
                p - reduction_end(system, images),
            );
        } else if p < selection_end(system, images) {
            lemma_selection_relation(
                system,
                c,
                images,
                selector,
                pre_images,
                p - commitment_end(system, images),
            );
            lemma_verifier_completion::<H>(system, c, images, selector, pre_images, witness);
            assert(is_defining(all[p]));
        } else {
            let n = p - selection_end(system, images);
            assert(reveals::<H>(
                digest_values(witness, images),
                bit_values(witness, selector),
                pre_image_values(witness, pre_images),
                n / 5,
            ));
            lemma_completion_opens::<H>(system, c, images, selector, pre_images, witness, n);
        }
    }
}

} // verus!
