//! Witnesses: what it means that values satisfy a constraint system, a
//! check of it, and the completion of a witness from the values of the
//! inputs.

use crate::circuit::{
    Constraint, ConstraintSystem, DigestHandle, Handle, Relation, SystemModel,
};
use crate::digest::{Digest, Hasher};
use vstd::prelude::*;

verus! {

/// The value that a witness assigns to a handle.
pub open spec fn value(witness: Seq<u64>, handle: Handle) -> u64 {
    witness[handle.index as int]
}

/// The values that a witness assigns to a list of handles.
pub open spec fn values(witness: Seq<u64>, handles: Seq<Handle>) -> Seq<u64> {
    Seq::new(handles.len(), |i: int| value(witness, handles[i]))
}

/// The digest that a witness assigns to a digest handle.
pub open spec fn digest_value(witness: Seq<u64>, digest: DigestHandle) -> Digest {
    Digest {
        elements: [
            value(witness, digest.elements[0]),
            value(witness, digest.elements[1]),
            value(witness, digest.elements[2]),
            value(witness, digest.elements[3]),
        ],
    }
}

/// The handle is one of the first `handles` of a system.
pub open spec fn allocated(handle: Handle, handles: nat) -> bool {
    handle.index < handles
}

/// All four handles of the digest are among the first `handles`.
pub open spec fn digest_allocated(digest: DigestHandle, handles: nat) -> bool {
    forall|k: int| 0 <= k < 4 ==> allocated(#[trigger] digest.elements[k], handles)
}

/// Every handle that the relation mentions is among the first `handles`.
pub open spec fn in_range(relation: Relation, handles: nat) -> bool {
    match relation {
        Relation::Boolean { handle } => allocated(handle, handles),
        Relation::Select { selector, when_set, otherwise, out } => {
            &&& allocated(selector.handle, handles)
            &&& allocated(when_set, handles)
            &&& allocated(otherwise, handles)
            &&& allocated(out, handles)
        },
        Relation::Hash { inputs, digest } => {
            &&& forall|i: int| 0 <= i < inputs.len() ==> allocated(#[trigger] inputs[i], handles)
            &&& digest_allocated(digest, handles)
        },
        Relation::Equal { left, right } => allocated(left, handles) && allocated(right, handles),
    }
}

/// The relation holds of the values that the witness assigns: every handle
/// it mentions has a value, and
/// - a boolean handle holds zero or one;
/// - the result of a select holds the value of `when_set` where the
///   selector holds one, and that of `otherwise` where it holds zero;
/// - the digest handle of a hash holds the digest of the input values;
/// - the two sides of an equality hold the same value.
pub open spec fn holds<H: Hasher>(relation: Relation, witness: Seq<u64>) -> bool {
    &&& in_range(relation, witness.len())
    &&& match relation {
        Relation::Boolean { handle } => value(witness, handle) == 0 || value(witness, handle) == 1,
        Relation::Select { selector, when_set, otherwise, out } => {
            &&& value(witness, selector.handle) == 1 ==> value(witness, out) == value(
                witness,
                when_set,
            )
            &&& value(witness, selector.handle) == 0 ==> value(witness, out) == value(
                witness,
                otherwise,
            )
        },
        Relation::Hash { inputs, digest } => H::hash(values(witness, inputs)) == digest_value(
            witness,
            digest,
        ),
        Relation::Equal { left, right } => value(witness, left) == value(witness, right),
    }
}

/// The witness satisfies the system: it assigns a value to each handle of
/// the system, and every recorded relation holds of those values.
pub open spec fn satisfied<H: Hasher>(system: SystemModel, witness: Seq<u64>) -> bool {
    &&& witness.len() == system.handles
    &&& forall|i: int|
        0 <= i < system.relations.len() ==> holds::<H>(#[trigger] system.relations[i], witness)
}

/// The witness after the relation has defined its result from the values
/// of its inputs: a select whose selector holds a bit writes the chosen
/// value to its result handle, a hash writes the digest of its inputs to
/// its digest handle. A relation that defines nothing, or that mentions a
/// handle without a value, leaves the witness as it is.
pub open spec fn defined<H: Hasher>(relation: Relation, witness: Seq<u64>) -> Seq<u64> {
    if !in_range(relation, witness.len()) {
        witness
    } else {
        match relation {
            Relation::Select { selector, when_set, otherwise, out } => {
                if value(witness, selector.handle) == 1 {
                    witness.update(out.index as int, value(witness, when_set))
                } else if value(witness, selector.handle) == 0 {
                    witness.update(out.index as int, value(witness, otherwise))
                } else {
                    witness
                }
            },
            Relation::Hash { inputs, digest } => {
                let hashed = H::hash(values(witness, inputs));
                witness.update(digest.elements[0].index as int, hashed.elements[0]).update(
                    digest.elements[1].index as int,
                    hashed.elements[1],
                ).update(digest.elements[2].index as int, hashed.elements[2]).update(
                    digest.elements[3].index as int,
                    hashed.elements[3],
                )
            },
            _ => witness,
        }
    }
}

/// The witness after each of the relations, in order, has defined its
/// result.
pub open spec fn completed<H: Hasher>(relations: Seq<Relation>, witness: Seq<u64>) -> Seq<u64>
    decreases relations.len(),
{
    if relations.len() == 0 {
        witness
    } else {
        defined::<H>(relations.last(), completed::<H>(relations.drop_last(), witness))
    }
}

/// Whether all four handles of the digest have a value in a witness of
/// length `handles`.
fn digest_in_range(digest: &DigestHandle, handles: usize) -> (ok: bool)
    ensures
        ok == digest_allocated(*digest, handles as nat),
{
    let ok = digest.elements[0].index < handles && digest.elements[1].index < handles
        && digest.elements[2].index < handles && digest.elements[3].index < handles;
    proof {
        if !ok {
            assert(!allocated(digest.elements[0], handles as nat) || !allocated(
                digest.elements[1],
                handles as nat,
            ) || !allocated(digest.elements[2], handles as nat) || !allocated(
                digest.elements[3],
                handles as nat,
            ));
        }
    }
    ok
}

/// The values of `inputs` in the witness, or `None` when one of them has
/// no value there.
fn read_values(inputs: &Vec<Handle>, witness: &Vec<u64>) -> (read: Option<Vec<u64>>)
    ensures
        (match read {
            Some(found) => {
                &&& forall|i: int|
                    0 <= i < inputs@.len() ==> allocated(#[trigger] inputs@[i], witness@.len())
                &&& found@ == values(witness@, inputs@)
            },
            None => exists|i: int|
                0 <= i < inputs@.len() && !allocated(#[trigger] inputs@[i], witness@.len()),
        }),
{
    let mut found: Vec<u64> = Vec::new();
    let mut i: usize = 0;
    while i < inputs.len()
        invariant
            i <= inputs.len(),
            forall|j: int| 0 <= j < i ==> allocated(#[trigger] inputs@[j], witness@.len()),
            found@ == values(witness@, inputs@).take(i as int),
        decreases inputs.len() - i,
    {
        let handle = inputs[i];
        if handle.index >= witness.len() {
            assert(!allocated(inputs@[i as int], witness@.len()));
            return None;
        }
        found.push(witness[handle.index]);
        i = i + 1;
    }
    assert(found@ =~= values(witness@, inputs@));
    Some(found)
}

/// Whether the constraint holds of the values that the witness assigns.
pub fn holds_in<H: Hasher>(constraint: &Constraint, witness: &Vec<u64>) -> (ok: bool)
    ensures
        ok == holds::<H>(constraint@, witness@),
{
    let handles = witness.len();
    match constraint {
        Constraint::Boolean { handle } => {
            handle.index < handles && (witness[handle.index] == 0 || witness[handle.index] == 1)
        },
        Constraint::Select { selector, when_set, otherwise, out } => {
            if selector.handle.index >= handles || when_set.index >= handles || otherwise.index
                >= handles || out.index >= handles {
                return false;
            }
            let bit = witness[selector.handle.index];
            if bit == 1 {
                witness[out.index] == witness[when_set.index]
            } else if bit == 0 {
                witness[out.index] == witness[otherwise.index]
            } else {
                true
            }
        },
        Constraint::Hash { inputs, digest } => {
            if !digest_in_range(digest, handles) {
                return false;
            }
            match read_values(inputs, witness) {
                None => false,
                Some(found) => {
                    let hashed = H::hash_no_pad(&found);
                    let assigned = Digest {
                        elements: [
                            witness[digest.elements[0].index],
                            witness[digest.elements[1].index],
                            witness[digest.elements[2].index],
                            witness[digest.elements[3].index],
                        ],
                    };
                    assert(assigned.elements =~= digest_value(witness@, *digest).elements);
                    hashed == assigned
                },
            }
        },
        Constraint::Equal { left, right } => {
            left.index < handles && right.index < handles && witness[left.index]
                == witness[right.index]
        },
    }
}

/// Lets the constraint define its result in the witness from the values of
/// its inputs.
pub fn define_in<H: Hasher>(constraint: &Constraint, witness: &mut Vec<u64>)
    ensures
        final(witness)@ == defined::<H>(constraint@, old(witness)@),
{
    let handles = witness.len();
    match constraint {
        Constraint::Select { selector, when_set, otherwise, out } => {
            if selector.handle.index >= handles || when_set.index >= handles || otherwise.index
                >= handles || out.index >= handles {
                return ;
            }
            let bit = witness[selector.handle.index];
            if bit == 1 {
                witness[out.index] = witness[when_set.index];
            } else if bit == 0 {
                witness[out.index] = witness[otherwise.index];
            }
        },
        Constraint::Hash { inputs, digest } => {
            if !digest_in_range(digest, handles) {
                return ;
            }
            match read_values(inputs, witness) {
                None => {},
                Some(found) => {
                    let hashed = H::hash_no_pad(&found);
                    witness[digest.elements[0].index] = hashed.elements[0];
                    witness[digest.elements[1].index] = hashed.elements[1];
                    witness[digest.elements[2].index] = hashed.elements[2];
                    witness[digest.elements[3].index] = hashed.elements[3];
                },
            }
        },
        _ => {},
    }
}

impl ConstraintSystem {
    /// Completes a witness: each constraint in turn, in the order of
    /// recording, defines its result from the values of its inputs. Values
    /// that no select or hash defines stay as the caller set them.
    pub fn complete_witness<H: Hasher>(&self, witness: &mut Vec<u64>)
        ensures
            final(witness)@ == completed::<H>(self@.relations, old(witness)@),
    {
        let mut i: usize = 0;
        while i < self.constraints.len()
            invariant
                i <= self.constraints.len(),
                witness@ == completed::<H>(self@.relations.take(i as int), old(witness)@),
            decreases self.constraints.len() - i,
        {
            proof {
                let upto = self@.relations.take(i + 1);
                assert(upto.drop_last() =~= self@.relations.take(i as int));
                assert(upto.last() == self.constraints@[i as int]@);
            }
            define_in::<H>(&self.constraints[i], witness);
            i = i + 1;
        }
        assert(self@.relations.take(i as int) =~= self@.relations);
    }

    /// Whether the witness satisfies the system: it has one value for each
    /// handle, and every constraint holds of those values.
    pub fn satisfied_by<H: Hasher>(&self, witness: &Vec<u64>) -> (ok: bool)
        ensures
            ok == satisfied::<H>(self@, witness@),
    {
        if witness.len() != self.handles {
            return false;
        }
        let mut i: usize = 0;
        while i < self.constraints.len()
            invariant
                i <= self.constraints.len(),
                witness.len() == self.handles,
                forall|j: int| 0 <= j < i ==> holds::<H>(#[trigger] self@.relations[j], witness@),
            decreases self.constraints.len() - i,
        {
            if !holds_in::<H>(&self.constraints[i], witness) {
                assert(!holds::<H>(self@.relations[i as int], witness@));
                return false;
            }
            i = i + 1;
        }
        true
    }
}

} // verus!
