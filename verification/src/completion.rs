//! Why completing a witness works: relations that were recorded in stages
//! define their results without disturbing one another.

use crate::circuit::{digest_at, Relation};
use crate::digest::Hasher;
use crate::witness::{completed, defined, digest_value, holds, in_range, value, values};
use vstd::prelude::*;

verus! {

/// The relation defines the value of a handle from the values of others:
/// it is a select or a hash.
pub open spec fn is_defining(relation: Relation) -> bool {
    relation is Select || relation is Hash
}

/// The number of the first handle that a defining relation writes.
pub open spec fn mark(relation: Relation) -> int {
    match relation {
        Relation::Select { out, .. } => out.index as int,
        Relation::Hash { digest, .. } => digest.elements[0].index as int,
        _ => 0,
    }
}

/// A defining relation reads below its mark and writes from its mark on: a
/// select writes the handle at its mark, a hash the four handles from its
/// mark on.
pub open spec fn writes_above_reads(relation: Relation) -> bool {
    match relation {
        Relation::Select { selector, when_set, otherwise, out } => {
            &&& selector.handle.index < out.index
            &&& when_set.index < out.index
            &&& otherwise.index < out.index
        },
        Relation::Hash { inputs, digest } => {
            &&& digest == digest_at(mark(relation))
            &&& mark(relation) + 3 <= usize::MAX
            &&& forall|i: int| 0 <= i < inputs.len() ==> (#[trigger] inputs[i]).index < mark(relation)
        },
        _ => true,
    }
}

/// The relations from index `from` up to index `to` were recorded in
/// stages between `floor` and `ceiling`: each mentions handles below
/// `ceiling` only, and each defining one writes at or above `floor`, above
/// what it reads and above every handle that the relations of the stretch
/// before it mention.
pub open spec fn staged(
    relations: Seq<Relation>,
    from: int,
    to: int,
    floor: nat,
    ceiling: nat,
) -> bool {
    forall|p: int|
        from <= p < to ==> {
            &&& in_range(#[trigger] relations[p], ceiling)
            &&& writes_above_reads(relations[p])
            &&& is_defining(relations[p]) ==> {
                &&& mark(relations[p]) >= floor
                &&& forall|q: int| from <= q < p ==> in_range(#[trigger] relations[q], mark(relations[p]) as nat)
            }
        }
}

/// A relation that mentions handles below a bound mentions handles below
/// every greater bound.
pub proof fn lemma_in_range_grows(relation: Relation, bound: nat, greater: nat)
    requires
        in_range(relation, bound),
        bound <= greater,
    ensures
        in_range(relation, greater),
{
}

/// Whether a relation holds depends on the values of the handles it
/// mentions only.
pub proof fn lemma_holds_frame<H: Hasher>(
    relation: Relation,
    bound: nat,
    first: Seq<u64>,
    second: Seq<u64>,
)
    requires
        in_range(relation, bound),
        bound <= first.len(),
        bound <= second.len(),
        forall|index: int| 0 <= index < bound ==> first[index] == second[index],
    ensures
        holds::<H>(relation, first) == holds::<H>(relation, second),
{
    lemma_in_range_grows(relation, bound, first.len());
    lemma_in_range_grows(relation, bound, second.len());
    match relation {
        Relation::Hash { inputs, digest } => {
            assert(values(first, inputs) =~= values(second, inputs));
            assert(digest_value(first, digest).elements =~= digest_value(second, digest).elements);
        },
        _ => {},
    }
}

/// A relation that holds defines nothing new.
pub proof fn lemma_defined_where_it_holds<H: Hasher>(relation: Relation, witness: Seq<u64>)
    requires
        holds::<H>(relation, witness),
    ensures
        defined::<H>(relation, witness) == witness,
{
    assert(defined::<H>(relation, witness) =~= witness);
}

/// A defining relation that reads below its mark holds once it has
/// defined its result, and it changes no value below its mark.
pub proof fn lemma_defined_holds<H: Hasher>(relation: Relation, witness: Seq<u64>)
    requires
        in_range(relation, witness.len()),
        writes_above_reads(relation),
    ensures
        defined::<H>(relation, witness).len() == witness.len(),
        is_defining(relation) ==> forall|index: int|
            0 <= index < mark(relation) ==> defined::<H>(relation, witness)[index]
                == witness[index],
        !is_defining(relation) ==> defined::<H>(relation, witness) == witness,
        relation is Hash ==> holds::<H>(relation, defined::<H>(relation, witness)),
        relation is Select ==> holds::<H>(relation, defined::<H>(relation, witness)),
{
    let after = defined::<H>(relation, witness);
    match relation {
        Relation::Hash { inputs, digest } => {
            assert(values(after, inputs) =~= values(witness, inputs));
            assert(digest_value(after, digest).elements =~= H::hash(
                values(witness, inputs),
            ).elements);
        },
        _ => {},
    }
}

/// Completing a witness along relations that were recorded in stages.
///
/// The first `kept` relations mention handles below `floor` only and hold
/// of the witness; the others were recorded in stages from `floor` on.
/// Then the completed witness has the same values below `floor`, the first
/// `kept` relations still hold of it, and so does every defining relation
/// among the others.
pub proof fn lemma_completion<H: Hasher>(
    relations: Seq<Relation>,
    kept: int,
    floor: nat,
    witness: Seq<u64>,
)
    requires
        0 <= kept <= relations.len(),
        floor <= witness.len(),
        forall|q: int|
            0 <= q < kept ==> in_range(#[trigger] relations[q], floor) && holds::<H>(
                relations[q],
                witness,
            ),
        staged(relations, kept, relations.len() as int, floor, witness.len()),
    ensures
        completed::<H>(relations, witness).len() == witness.len(),
        forall|index: int|
            0 <= index < floor ==> completed::<H>(relations, witness)[index] == witness[index],
        forall|q: int|
            0 <= q < kept ==> holds::<H>(
                #[trigger] relations[q],
                completed::<H>(relations, witness),
            ),
        forall|p: int|
            kept <= p < relations.len() && is_defining(#[trigger] relations[p]) ==> holds::<H>(
                relations[p],
                completed::<H>(relations, witness),
            ),
    decreases relations.len(),
{
    if relations.len() > 0 {
        let earlier = relations.drop_last();
        let last = relations.last();
        let before = completed::<H>(earlier, witness);
        let after = completed::<H>(relations, witness);
        assert(after == defined::<H>(last, before));
        assert forall|p: int| 0 <= p < earlier.len() implies earlier[p] == relations[p] by {}
        if kept == relations.len() {
            lemma_completion::<H>(earlier, kept - 1, floor, witness);
            assert(in_range(relations[kept - 1], floor));
            lemma_holds_frame::<H>(last, floor, witness, before);
            lemma_defined_where_it_holds::<H>(last, before);
            assert forall|q: int| 0 <= q < kept implies holds::<H>(
                #[trigger] relations[q],
                after,
            ) by {
                if q < kept - 1 {
                    assert(holds::<H>(earlier[q], before));
                }
            }
        } else {
            assert(staged(earlier, kept, earlier.len() as int, floor, witness.len())) by {
                assert forall|p: int| kept <= p < earlier.len() implies {
                    &&& in_range(#[trigger] earlier[p], witness.len())
                    &&& writes_above_reads(earlier[p])
                    &&& is_defining(earlier[p]) ==> {
                        &&& mark(earlier[p]) >= floor
                        &&& forall|q: int|
                            kept <= q < p ==> in_range(
                                #[trigger] earlier[q],
                                mark(earlier[p]) as nat,
                            )
                    }
                } by {
                    assert(in_range(relations[p], witness.len()));
                    if is_defining(earlier[p]) {
                        assert forall|q: int| kept <= q < p implies in_range(
                            #[trigger] earlier[q],
                            mark(earlier[p]) as nat,
                        ) by {
                            assert(in_range(relations[q], mark(relations[p]) as nat));
                        }
                    }
                }
            }
            assert forall|q: int| 0 <= q < kept implies in_range(
                #[trigger] earlier[q],
                floor,
            ) && holds::<H>(earlier[q], witness) by {
                assert(in_range(relations[q], floor));
            }
            lemma_completion::<H>(earlier, kept, floor, witness);
            let at = relations.len() - 1;
            assert(in_range(relations[at], witness.len()));
            lemma_defined_holds::<H>(last, before);
            if is_defining(last) {
                let written = mark(last) as nat;
                assert forall|q: int| 0 <= q < kept implies holds::<H>(
                    #[trigger] relations[q],
                    after,
                ) by {
                    assert(holds::<H>(earlier[q], before));
                    assert(in_range(relations[q], floor));
                    lemma_holds_frame::<H>(relations[q], floor, before, after);
                }
                assert forall|p: int|
                    kept <= p < relations.len() && is_defining(
                        #[trigger] relations[p],
                    ) implies holds::<H>(relations[p], after) by {
                    if p < at {
                        assert(holds::<H>(earlier[p], before));
                        assert(in_range(relations[p], written));
                        assert(written <= witness.len()) by {
                            assert(in_range(last, witness.len()));
                        }
                        lemma_holds_frame::<H>(relations[p], written, before, after);
                    }
                }
            } else {
                assert forall|q: int| 0 <= q < kept implies holds::<H>(
                    #[trigger] relations[q],
                    after,
                ) by {
                    assert(holds::<H>(earlier[q], before));
                }
                assert forall|p: int|
                    kept <= p < relations.len() && is_defining(
                        #[trigger] relations[p],
                    ) implies holds::<H>(relations[p], after) by {
                    assert(holds::<H>(earlier[p], before));
                }
            }
        }
    }
}

} // verus!
