//! Digests and the hash collaborator.

use vstd::prelude::*;
use vstd::std_specs::cmp::PartialEqSpecImpl;

verus! {

/// A fixed-width hash output: four field elements, each held by its canonical
/// 64-bit representative. Two digests are equal when all four elements are.
#[derive(Clone, Copy, Debug)]
pub struct Digest {
    pub elements: [u64; 4],
}

impl PartialEq for Digest {
    fn eq(&self, other: &Self) -> (equal: bool) {
        let equal = self.elements[0] == other.elements[0] && self.elements[1] == other.elements[1]
            && self.elements[2] == other.elements[2] && self.elements[3] == other.elements[3];
        proof {
            if equal {
                assert(self.elements =~= other.elements);
            }
        }
        equal
    }
}

impl Eq for Digest {

}

impl PartialEqSpecImpl for Digest {
    open spec fn obeys_eq_spec() -> bool {
        true
    }

    open spec fn eq_spec(&self, other: &Self) -> bool {
        *self == *other
    }
}

/// A preimage as a mathematical value: a finite sequence of field elements.
///
/// The name lets an implementation of [`Hasher`] in ordinary Rust spell the
/// type of the argument of [`Hasher::hash`].
pub type Elements = Seq<u64>;

/// The hash collaborator: a binary compression function on digests and a
/// leaf hash on sequences of field elements. The library is generic in it
/// and calls nothing else to hash.
///
/// `compress` and `hash` say what the hasher computes, as mathematical
/// functions; every contract and law of the library speaks of them, and of
/// nothing else about the hasher. `two_to_one` and `hash_no_pad` compute
/// them.
///
/// An implementation promises that its two executable methods return what
/// its two functions say, for every argument and at every call: they are
/// functions of their arguments alone. For an implementation in verified
/// code, such as [`crate::mock::MockHasher`], the promise is proved. For
/// one in ordinary Rust it is taken on trust, and what the library proves
/// holds as far as the promise is kept; such an implementation gives
/// `compress` and `hash` a body that is never run, such as
/// `unreachable!()`.
pub trait Hasher {
    /// The digest that compressing `left` and `right` yields.
    spec fn compress(left: Digest, right: Digest) -> Digest;

    /// The digest of a sequence of field elements, hashed without padding.
    spec fn hash(input: Elements) -> Digest;

    /// Compresses two digests into one.
    fn two_to_one(left: Digest, right: Digest) -> (out: Digest)
        ensures
            out == Self::compress(left, right),
    ;

    /// Hashes a sequence of field elements, without padding, to a digest.
    fn hash_no_pad(input: &Vec<u64>) -> (out: Digest)
        ensures
            out == Self::hash(input@),
    ;
}

} // verus!
