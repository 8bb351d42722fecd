//! The constraint system that the circuit twin is recorded in.
//!
//! A [`ConstraintSystem`] allocates symbolic handles and records, in
//! order, the constraints that are asked of the constraint-system
//! collaborator. It performs none of them: the surrounding program replays
//! the record into the builder of its proving backend, one gadget of the
//! backend for each constraint.

use vstd::prelude::*;

verus! {

/// A symbolic handle for one field element of a constraint system.
#[derive(Clone, Copy, Debug, PartialEq, Eq, Structural)]
pub struct Handle {
    pub index: usize,
}

/// A handle that is used as a bit. [`ConstraintSystem::new_bool`] allocates
/// one and restricts its value to zero or one.
#[derive(Clone, Copy, Debug, PartialEq, Eq, Structural)]
pub struct BoolHandle {
    pub handle: Handle,
}

/// The handles of the four field elements of a digest.
#[derive(Clone, Copy, Debug, PartialEq, Eq)]
pub struct DigestHandle {
    pub elements: [Handle; 4],
}

/// One constraint of a system, as it is recorded.
#[derive(Debug, PartialEq, Eq)]
pub enum Constraint {
    /// The value of `handle` is zero or one.
    Boolean { handle: Handle },
    /// The value of `out` is that of `when_set` where `selector` is one and
    /// that of `otherwise` where it is zero.
    Select { selector: BoolHandle, when_set: Handle, otherwise: Handle, out: Handle },
    /// The values of `digest` are the digest of the values of `inputs`,
    /// hashed without padding.
    Hash { inputs: Vec<Handle>, digest: DigestHandle },
    /// The values of `left` and `right` are equal.
    Equal { left: Handle, right: Handle },
}

/// A constraint as a mathematical value.
pub enum Relation {
    Boolean { handle: Handle },
    Select { selector: BoolHandle, when_set: Handle, otherwise: Handle, out: Handle },
    Hash { inputs: Seq<Handle>, digest: DigestHandle },
    Equal { left: Handle, right: Handle },
}

impl View for Constraint {
    type V = Relation;

    open spec fn view(&self) -> Relation {
        match *self {
            Constraint::Boolean { handle } => Relation::Boolean { handle },
            Constraint::Select { selector, when_set, otherwise, out } => Relation::Select {
                selector,
                when_set,
                otherwise,
                out,
            },
            Constraint::Hash { inputs, digest } => Relation::Hash { inputs: inputs@, digest },
            Constraint::Equal { left, right } => Relation::Equal { left, right },
        }
    }
}

impl Clone for Constraint {
    fn clone(&self) -> (copy: Self)
        ensures
            copy@ == self@,
    {
        match self {
            Constraint::Boolean { handle } => Constraint::Boolean { handle: *handle },
            Constraint::Select { selector, when_set, otherwise, out } => Constraint::Select {
                selector: *selector,
                when_set: *when_set,
                otherwise: *otherwise,
                out: *out,
            },
            Constraint::Hash { inputs, digest } => {
                let copied = inputs.clone();
                assert(copied@ =~= inputs@);
                Constraint::Hash { inputs: copied, digest: *digest }
            },
            Constraint::Equal { left, right } => Constraint::Equal { left: *left, right: *right },
        }
    }
}

/// A constraint system under construction: the handles allocated so far,
/// numbered from zero, and the constraints recorded so far, in order.
#[derive(Debug, PartialEq, Eq)]
pub struct ConstraintSystem {
    pub handles: usize,
    pub constraints: Vec<Constraint>,
}

/// A constraint system as a mathematical value.
pub struct SystemModel {
    pub handles: nat,
    pub relations: Seq<Relation>,
}

impl View for ConstraintSystem {
    type V = SystemModel;

    open spec fn view(&self) -> SystemModel {
        SystemModel {
            handles: self.handles as nat,
            relations: Seq::new(self.constraints@.len(), |i: int| self.constraints@[i]@),
        }
    }
}

impl Clone for ConstraintSystem {
    fn clone(&self) -> (copy: Self)
        ensures
            copy@ == self@,
    {
        let mut constraints: Vec<Constraint> = Vec::new();
        let mut i: usize = 0;
        while i < self.constraints.len()
            invariant
                i <= self.constraints.len(),
                constraints@.len() == i,
                forall|j: int| 0 <= j < i ==> (#[trigger] constraints@[j])@ == self.constraints@[j]@,
            decreases self.constraints.len() - i,
        {
            constraints.push(self.constraints[i].clone());
            i = i + 1;
        }
        let copy = ConstraintSystem { handles: self.handles, constraints };
        assert(copy@.relations =~= self@.relations);
        copy
    }
}

/// The handle with the given number.
pub open spec fn handle_at(index: int) -> Handle {
    Handle { index: index as usize }
}

/// The digest handle made of the four handles numbered from `first` on.
pub open spec fn digest_at(first: int) -> DigestHandle {
    DigestHandle {
        elements: [
            handle_at(first),
            handle_at(first + 1),
            handle_at(first + 2),
            handle_at(first + 3),
        ],
    }
}

/// `count` digest handles made of consecutive handles, numbered from
/// `first` on.
pub open spec fn digests_at(first: int, count: nat) -> Seq<DigestHandle> {
    Seq::new(count, |i: int| digest_at(first + 4 * i))
}

impl SystemModel {
    /// The handle that is allocated `offset` places after the next one.
    pub open spec fn fresh(self, offset: int) -> Handle {
        handle_at(self.handles + offset)
    }

    /// The digest handle made of the next four handles.
    pub open spec fn fresh_digest(self) -> DigestHandle {
        digest_at(self.handles as int)
    }

    /// This system with more relations recorded.
    pub open spec fn record_all(self, relations: Seq<Relation>) -> SystemModel {
        SystemModel { handles: self.handles, relations: self.relations + relations }
    }

    /// This system with `count` more handles allocated.
    pub open spec fn allocate(self, count: nat) -> SystemModel {
        SystemModel { handles: self.handles + count, relations: self.relations }
    }

    /// This system with one more relation recorded.
    pub open spec fn record(self, relation: Relation) -> SystemModel {
        SystemModel { handles: self.handles, relations: self.relations.push(relation) }
    }

    /// This system after a fresh boolean handle was allocated.
    pub open spec fn with_bool(self) -> SystemModel {
        self.record(Relation::Boolean { handle: self.fresh(0) }).allocate(1)
    }

    /// This system after a conditional select wrote its result to a fresh
    /// handle.
    pub open spec fn with_select(
        self,
        selector: BoolHandle,
        when_set: Handle,
        otherwise: Handle,
    ) -> SystemModel {
        self.record(Relation::Select { selector, when_set, otherwise, out: self.fresh(0) }).allocate(
            1,
        )
    }

    /// This system after the hash gadget wrote the digest of `inputs` to a
    /// fresh digest handle.
    pub open spec fn with_hash(self, inputs: Seq<Handle>) -> SystemModel {
        self.record(Relation::Hash { inputs, digest: self.fresh_digest() }).allocate(4)
    }

    /// This system after the two handles were required to be equal.
    pub open spec fn with_equal(self, left: Handle, right: Handle) -> SystemModel {
        self.record(Relation::Equal { left, right })
    }

    /// This system after the two digests were required to be equal, element
    /// by element.
    pub open spec fn with_equal_digests(self, left: DigestHandle, right: DigestHandle) -> SystemModel {
        self.with_equal(left.elements[0], right.elements[0]).with_equal(
            left.elements[1],
            right.elements[1],
        ).with_equal(left.elements[2], right.elements[2]).with_equal(
            left.elements[3],
            right.elements[3],
        )
    }
}

impl ConstraintSystem {
    /// An empty system: no handle, no constraint.
    pub fn new() -> (system: ConstraintSystem)
        ensures
            system@ == (SystemModel { handles: 0, relations: Seq::empty() }),
    {
        let system = ConstraintSystem { handles: 0, constraints: Vec::new() };
        assert(system@.relations =~= Seq::empty());
        system
    }

    /// Allocates a handle for a field element that nothing restricts yet.
    pub fn new_handle(&mut self) -> (handle: Handle)
        requires
            old(self).handles < usize::MAX,
        ensures
            handle == old(self)@.fresh(0),
            final(self)@ == old(self)@.allocate(1),
    {
        let handle = Handle { index: self.handles };
        self.handles = self.handles + 1;
        assert(self@.relations =~= old(self)@.relations);
        handle
    }

    /// Allocates a handle and restricts its value to zero or one.
    pub fn new_bool(&mut self) -> (handle: BoolHandle)
        requires
            old(self).handles < usize::MAX,
        ensures
            handle.handle == old(self)@.fresh(0),
            final(self)@ == old(self)@.with_bool(),
    {
        let handle = Handle { index: self.handles };
        self.push(Constraint::Boolean { handle });
        self.handles = self.handles + 1;
        BoolHandle { handle }
    }

    /// Allocates the four handles of a digest that nothing restricts yet.
    pub fn new_digest(&mut self) -> (digest: DigestHandle)
        requires
            old(self).handles + 4 <= usize::MAX,
        ensures
            digest == old(self)@.fresh_digest(),
            final(self)@ == old(self)@.allocate(4),
    {
        let first = self.handles;
        let digest = DigestHandle {
            elements: [
                Handle { index: first },
                Handle { index: first + 1 },
                Handle { index: first + 2 },
                Handle { index: first + 3 },
            ],
        };
        self.handles = self.handles + 4;
        assert(digest.elements =~= old(self)@.fresh_digest().elements);
        assert(self@.relations =~= old(self)@.relations);
        digest
    }

    /// Allocates `count` digest handles, one after the other.
    pub fn new_digests(&mut self, count: usize) -> (digests: Vec<DigestHandle>)
        requires
            old(self).handles + 4 * count <= usize::MAX,
        ensures
            digests@ == digests_at(old(self).handles as int, count as nat),
            final(self)@ == old(self)@.allocate((4 * count) as nat),
    {
        let mut digests: Vec<DigestHandle> = Vec::new();
        let mut i: usize = 0;
        while i < count
            invariant
                i <= count,
                old(self).handles + 4 * count <= usize::MAX,
                self@ == old(self)@.allocate((4 * i) as nat),
                digests@ == digests_at(old(self).handles as int, count as nat).take(i as int),
            decreases count - i,
        {
            let digest = self.new_digest();
            digests.push(digest);
            i = i + 1;
        }
        digests
    }

    /// Records the constraint that a fresh handle holds `when_set` where
    /// `selector` is one and `otherwise` where it is zero, and returns that
    /// handle.
    pub fn select(&mut self, selector: BoolHandle, when_set: Handle, otherwise: Handle) -> (out:
        Handle)
        requires
            old(self).handles < usize::MAX,
        ensures
            out == old(self)@.fresh(0),
            final(self)@ == old(self)@.with_select(selector, when_set, otherwise),
    {
        let out = Handle { index: self.handles };
        self.push(Constraint::Select { selector, when_set, otherwise, out });
        self.handles = self.handles + 1;
        out
    }

    /// Records the constraint that a fresh digest handle holds the digest of
    /// `inputs`, hashed without padding, and returns that handle.
    pub fn hash_no_pad(&mut self, inputs: Vec<Handle>) -> (out: DigestHandle)
        requires
            old(self).handles + 4 <= usize::MAX,
        ensures
            out == old(self)@.fresh_digest(),
            final(self)@ == old(self)@.with_hash(inputs@),
    {
        let first = self.handles;
        let out = DigestHandle {
            elements: [
                Handle { index: first },
                Handle { index: first + 1 },
                Handle { index: first + 2 },
                Handle { index: first + 3 },
            ],
        };
        assert(out.elements =~= old(self)@.fresh_digest().elements);
        self.push(Constraint::Hash { inputs, digest: out });
        self.handles = self.handles + 4;
        out
    }

    /// Records the constraint that two handles hold the same value.
    pub fn connect(&mut self, left: Handle, right: Handle)
        ensures
            final(self)@ == old(self)@.with_equal(left, right),
    {
        self.push(Constraint::Equal { left, right });
    }

    /// Records the constraints that two digest handles hold the same
    /// digest: one equality for each of the four elements.
    pub fn connect_digests(&mut self, left: DigestHandle, right: DigestHandle)
        ensures
            final(self)@ == old(self)@.with_equal_digests(left, right),
    {
        self.connect(left.elements[0], right.elements[0]);
        self.connect(left.elements[1], right.elements[1]);
        self.connect(left.elements[2], right.elements[2]);
        self.connect(left.elements[3], right.elements[3]);
    }

    /// Appends one constraint.
    fn push(&mut self, constraint: Constraint)
        ensures
            final(self)@ == old(self)@.record(constraint@),
            final(self).handles == old(self).handles,
    {
        self.constraints.push(constraint);
        assert(self@.relations =~= old(self)@.relations.push(constraint@));
    }
}

} // verus!
