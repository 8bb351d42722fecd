//! A hash-based commitment with selective disclosure, and its circuit twin.
//!
//! A committer reduces a power-of-two list of leaf digests to one root
//! digest by pairwise compression ([`tree::commit`]). A discloser reveals,
//! for each pair of leaves, the preimage of the leaf that a selector bit
//! picks ([`selector::select_pre_images`]). A verifier recomputes the root
//! and hashes each revealed preimage ([`disclosure::verify`]).
//!
//! The same relation is recorded as constraints over symbolic handles
//! ([`twin::make_verifier`], in a [`circuit::ConstraintSystem`]), so that a
//! proving backend can certify it without seeing the withheld preimages.
//! [`soundness::lemma_verifier_sound`] and
//! [`completeness::lemma_verifier_complete`] prove that the recorded
//! constraints accept exactly the bundles that the verifier accepts.
//!
//! The hash function is a parameter: see [`digest::Hasher`]. A stand-in
//! without cryptographic strength is [`mock::MockHasher`].

pub mod circuit;
pub mod completeness;
pub mod completion;
pub mod digest;
pub mod disclosure;
pub mod error;
pub mod layout;
pub mod mock;
pub mod selector;
pub mod soundness;
pub mod staging;
pub mod tree;
pub mod twin;
pub mod witness;
