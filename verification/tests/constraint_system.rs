use lamport_commit::circuit::{BoolHandle, Constraint, ConstraintSystem, DigestHandle, Handle};
use lamport_commit::digest::{Digest, Hasher};
use lamport_commit::disclosure::verify;
use lamport_commit::error::Error;
use lamport_commit::mock::MockHasher;
use lamport_commit::selector::{select, select_pre_images};
use lamport_commit::tree::commit;
use lamport_commit::twin::{commit_t, make_verifier, select_t};
use lamport_commit::witness::{define_in, holds_in};

fn handle(index: usize) -> Handle {
    Handle { index }
}

fn handles(range: std::ops::Range<usize>) -> Vec<Handle> {
    range.map(handle).collect()
}

fn digest_handle(first: usize) -> DigestHandle {
    DigestHandle { elements: [handle(first), handle(first + 1), handle(first + 2), handle(first + 3)] }
}

fn bool_handle(index: usize) -> BoolHandle {
    BoolHandle { handle: handle(index) }
}

/// A disclosure bundle with its handles in a fresh constraint system in
/// which the verifier was recorded.
struct Fixture {
    c: Digest,
    images: Vec<Digest>,
    selector: Vec<bool>,
    pre_images: Vec<Vec<u64>>,
    c_t: DigestHandle,
    images_t: Vec<DigestHandle>,
    selector_t: Vec<BoolHandle>,
    pre_images_t: Vec<Vec<Handle>>,
    system: ConstraintSystem,
}

fn fixture(leaves: usize) -> Fixture {
    let all_pre_images: Vec<Vec<u64>> =
        (0..leaves as u64).map(|seed| vec![5 * seed, 5 * seed + 1, 5 * seed + 2, 5 * seed + 3]).collect();
    let images: Vec<Digest> = all_pre_images.iter().map(|x| MockHasher::hash_no_pad(x)).collect();
    let selector: Vec<bool> = (0..leaves / 2).map(|i| i % 3 != 1).collect();
    let pre_images = if leaves == 1 {
        vec![]
    } else {
        select_pre_images(&selector, &all_pre_images).unwrap()
    };
    let c = commit::<MockHasher>(&images).unwrap();

    let mut system = ConstraintSystem::new();
    let c_t = system.new_digest();
    let images_t = system.new_digests(leaves);
    let selector_t: Vec<BoolHandle> = (0..leaves / 2).map(|_| system.new_bool()).collect();
    let pre_images_t: Vec<Vec<Handle>> =
        pre_images.iter().map(|x| x.iter().map(|_| system.new_handle()).collect()).collect();
    make_verifier(&mut system, c_t, images_t.clone(), selector_t.clone(), pre_images_t.clone())
        .unwrap();
    Fixture { c, images, selector, pre_images, c_t, images_t, selector_t, pre_images_t, system }
}

impl Fixture {
    /// The witness that assigns the bundle to its handles, completed.
    fn witness(&self) -> Vec<u64> {
        let mut witness = vec![0u64; self.system.handles];
        for k in 0..4 {
            witness[self.c_t.elements[k].index] = self.c.elements[k];
        }
        for i in 0..self.images.len() {
            for k in 0..4 {
                witness[self.images_t[i].elements[k].index] = self.images[i].elements[k];
            }
        }
        for i in 0..self.selector.len() {
            witness[self.selector_t[i].handle.index] = self.selector[i] as u64;
        }
        for i in 0..self.pre_images.len() {
            for j in 0..self.pre_images[i].len() {
                witness[self.pre_images_t[i][j].index] = self.pre_images[i][j];
            }
        }
        self.system.complete_witness::<MockHasher>(&mut witness);
        witness
    }

    fn accepted_natively(&self) -> bool {
        verify::<MockHasher>(&self.c, &self.images, &self.selector, &self.pre_images).is_ok()
    }

    fn satisfiable(&self) -> bool {
        self.system.satisfied_by::<MockHasher>(&self.witness())
    }
}

#[test]
fn a_new_system_is_empty() {
    let system = ConstraintSystem::new();
    assert_eq!(system.handles, 0);
    assert!(system.constraints.is_empty());
    assert!(system.satisfied_by::<MockHasher>(&vec![]));
    assert!(!system.satisfied_by::<MockHasher>(&vec![0]));
}

#[test]
fn handles_are_numbered_in_the_order_of_allocation() {
    let mut system = ConstraintSystem::new();
    assert_eq!(system.new_handle(), handle(0));
    assert_eq!(system.new_digest(), digest_handle(1));
    assert_eq!(system.new_bool(), bool_handle(5));
    assert_eq!(system.new_digests(2), vec![digest_handle(6), digest_handle(10)]);
    assert_eq!(system.new_handle(), handle(14));
    assert_eq!(system.handles, 15);
    assert_eq!(system.constraints, vec![Constraint::Boolean { handle: handle(5) }]);
}

#[test]
fn gadgets_record_their_constraint_and_return_a_fresh_handle() {
    let mut system = ConstraintSystem::new();
    let inputs = system.new_digests(2);
    let bit = system.new_bool();
    let out = system.select(bit, handle(4), handle(0));
    assert_eq!(out, handle(9));
    let digest = system.hash_no_pad(handles(0..3));
    assert_eq!(digest, digest_handle(10));
    system.connect(handle(9), handle(2));
    system.connect_digests(inputs[0], digest);
    assert_eq!(system.handles, 14);
    assert_eq!(
        system.constraints,
        vec![
            Constraint::Boolean { handle: handle(8) },
            Constraint::Select {
                selector: bool_handle(8),
                when_set: handle(4),
                otherwise: handle(0),
                out: handle(9)
            },
            Constraint::Hash { inputs: handles(0..3), digest: digest_handle(10) },
            Constraint::Equal { left: handle(9), right: handle(2) },
            Constraint::Equal { left: handle(0), right: handle(10) },
            Constraint::Equal { left: handle(1), right: handle(11) },
            Constraint::Equal { left: handle(2), right: handle(12) },
            Constraint::Equal { left: handle(3), right: handle(13) },
        ]
    );
}

#[test]
fn commit_t_records_one_hash_for_each_pair_level_by_level() {
    let mut system = ConstraintSystem::new();
    let images_t = system.new_digests(4);
    let root = commit_t(&mut system, images_t).unwrap();
    assert_eq!(root, digest_handle(24));
    assert_eq!(system.handles, 28);
    assert_eq!(
        system.constraints,
        vec![
            Constraint::Hash { inputs: handles(0..8), digest: digest_handle(16) },
            Constraint::Hash { inputs: handles(8..16), digest: digest_handle(20) },
            Constraint::Hash { inputs: handles(16..24), digest: digest_handle(24) },
        ]
    );
}

#[test]
fn commit_t_of_one_image_records_nothing() {
    let mut system = ConstraintSystem::new();
    let images_t = system.new_digests(1);
    let before = system.clone();
    assert_eq!(commit_t(&mut system, images_t), Ok(digest_handle(0)));
    assert_eq!(system, before);
}

#[test]
fn commit_t_counts_the_nodes_of_the_tree() {
    for depth in 0..10 {
        let leaves: usize = 1 << depth;
        let mut system = ConstraintSystem::new();
        let images_t = system.new_digests(leaves);
        let root = commit_t(&mut system, images_t).unwrap();
        assert_eq!(system.constraints.len(), leaves - 1);
        assert_eq!(system.handles, 4 * (2 * leaves - 1));
        if depth > 0 {
            assert_eq!(root, digest_handle(system.handles - 4));
        }
    }
}

#[test]
fn commit_t_rejects_lengths_that_are_no_power_of_two() {
    for length in [0usize, 3, 5, 6, 7, 12, 100] {
        let mut system = ConstraintSystem::new();
        let images_t = system.new_digests(length);
        let before = system.clone();
        assert_eq!(commit_t(&mut system, images_t), Err(Error::InvalidInput));
        assert_eq!(system, before);
    }
}

#[test]
fn commit_t_computes_the_commitment() {
    for depth in 0..8 {
        let images: Vec<Digest> =
            (0..1u64 << depth).map(|seed| Digest { elements: [seed, 1, 2, 3] }).collect();
        let mut system = ConstraintSystem::new();
        let images_t = system.new_digests(images.len());
        let root = commit_t(&mut system, images_t.clone()).unwrap();
        let mut witness = vec![0u64; system.handles];
        for i in 0..images.len() {
            for k in 0..4 {
                witness[images_t[i].elements[k].index] = images[i].elements[k];
            }
        }
        system.complete_witness::<MockHasher>(&mut witness);
        assert!(system.satisfied_by::<MockHasher>(&witness));
        let c = commit::<MockHasher>(&images).unwrap();
        for k in 0..4 {
            assert_eq!(witness[root.elements[k].index], c.elements[k]);
        }
    }
}

#[test]
fn select_t_records_four_selects_for_each_pair() {
    let mut system = ConstraintSystem::new();
    let bits = vec![system.new_bool(), system.new_bool()];
    let images_t = system.new_digests(4);
    let selected = select_t(&mut system, bits, images_t).unwrap();
    assert_eq!(selected, vec![digest_handle(18), digest_handle(22)]);
    assert_eq!(system.handles, 26);
    let mut expected =
        vec![Constraint::Boolean { handle: handle(0) }, Constraint::Boolean { handle: handle(1) }];
    for pair in 0..2 {
        for k in 0..4 {
            expected.push(Constraint::Select {
                selector: bool_handle(pair),
                when_set: handle(2 + 8 * pair + 4 + k),
                otherwise: handle(2 + 8 * pair + k),
                out: handle(18 + 4 * pair + k),
            });
        }
    }
    assert_eq!(system.constraints, expected);
}

#[test]
fn select_t_rejects_lists_that_do_not_fit() {
    let mut system = ConstraintSystem::new();
    let bits = vec![system.new_bool(), system.new_bool()];
    let images_t = system.new_digests(5);
    let before = system.clone();
    assert_eq!(select_t(&mut system, bits.clone(), images_t.clone()), Err(Error::InvalidInput));
    assert_eq!(select_t(&mut system, bits.clone(), images_t[..2].to_vec()), Err(Error::InvalidInput));
    assert_eq!(select_t(&mut system, vec![], images_t[..1].to_vec()), Err(Error::InvalidInput));
    assert_eq!(system, before);
    assert_eq!(select_t(&mut system, vec![], vec![]), Ok(vec![]));
    assert_eq!(system, before);
}

#[test]
fn select_t_computes_the_selection() {
    let images: Vec<Digest> =
        (0..16u64).map(|seed| Digest { elements: [seed, seed + 20, seed + 40, seed + 60] }).collect();
    let selector: Vec<bool> = (0..8).map(|i| i % 3 == 0).collect();
    let mut system = ConstraintSystem::new();
    let selector_t: Vec<BoolHandle> = (0..8).map(|_| system.new_bool()).collect();
    let images_t = system.new_digests(16);
    let selected_t = select_t(&mut system, selector_t.clone(), images_t.clone()).unwrap();
    let mut witness = vec![0u64; system.handles];
    for i in 0..16 {
        for k in 0..4 {
            witness[images_t[i].elements[k].index] = images[i].elements[k];
        }
    }
    for i in 0..8 {
        witness[selector_t[i].handle.index] = selector[i] as u64;
    }
    system.complete_witness::<MockHasher>(&mut witness);
    assert!(system.satisfied_by::<MockHasher>(&witness));
    let selected = select(&selector, &images).unwrap();
    for i in 0..8 {
        for k in 0..4 {
            assert_eq!(witness[selected_t[i].elements[k].index], selected[i].elements[k]);
        }
    }
}

#[test]
fn make_verifier_records_the_parts_in_order() {
    let mut system = ConstraintSystem::new();
    let c_t = system.new_digest();
    let images_t = system.new_digests(2);
    let bit = system.new_bool();
    let pre_image_t = vec![system.new_handle(), system.new_handle(), system.new_handle()];
    assert_eq!(system.handles, 16);
    make_verifier(&mut system, c_t, images_t, vec![bit], vec![pre_image_t]).unwrap();
    assert_eq!(system.handles, 28);
    let mut expected = vec![
        Constraint::Boolean { handle: handle(12) },
        Constraint::Hash { inputs: handles(4..12), digest: digest_handle(16) },
    ];
    for k in 0..4 {
        expected.push(Constraint::Equal { left: handle(k), right: handle(16 + k) });
    }
    for k in 0..4 {
        expected.push(Constraint::Select {
            selector: bool_handle(12),
            when_set: handle(8 + k),
            otherwise: handle(4 + k),
            out: handle(20 + k),
        });
    }
    expected.push(Constraint::Hash { inputs: handles(13..16), digest: digest_handle(24) });
    for k in 0..4 {
        expected.push(Constraint::Equal { left: handle(24 + k), right: handle(20 + k) });
    }
    assert_eq!(system.constraints, expected);
}

#[test]
fn make_verifier_rejects_lists_that_do_not_fit() {
    let mut system = ConstraintSystem::new();
    let c_t = system.new_digest();
    let images_t = system.new_digests(6);
    let bits: Vec<BoolHandle> = (0..3).map(|_| system.new_bool()).collect();
    let pre_images_t: Vec<Vec<Handle>> = (0..3).map(|_| vec![system.new_handle()]).collect();
    let before = system.clone();
    let invalid = Err(Error::InvalidInput);
    assert_eq!(
        make_verifier(&mut system, c_t, images_t.clone(), bits.clone(), pre_images_t.clone()),
        invalid
    );
    assert_eq!(
        make_verifier(&mut system, c_t, images_t[..4].to_vec(), bits.clone(), pre_images_t.clone()),
        invalid
    );
    assert_eq!(
        make_verifier(
            &mut system,
            c_t,
            images_t[..4].to_vec(),
            bits[..2].to_vec(),
            pre_images_t.clone()
        ),
        invalid
    );
    assert_eq!(make_verifier(&mut system, c_t, vec![], vec![], vec![]), invalid);
    assert_eq!(system, before);
    assert_eq!(
        make_verifier(
            &mut system,
            c_t,
            images_t[..4].to_vec(),
            bits[..2].to_vec(),
            pre_images_t[..2].to_vec()
        ),
        Ok(())
    );
}

#[test]
fn the_default_instance_is_accepted_by_both() {
    let fixture = fixture(512);
    assert_eq!(fixture.selector.len(), 256);
    assert!(fixture.accepted_natively());
    assert!(fixture.satisfiable());
}

#[test]
fn the_default_instance_with_a_bad_preimage_is_rejected_by_both() {
    let mut fixture = fixture(512);
    fixture.pre_images[200][1] ^= 1;
    assert_eq!(
        verify::<MockHasher>(&fixture.c, &fixture.images, &fixture.selector, &fixture.pre_images),
        Err(Error::PreImageMismatch(200))
    );
    assert!(!fixture.satisfiable());
}

#[test]
fn the_default_instance_with_a_bad_leaf_is_rejected_by_both() {
    let mut fixture = fixture(512);
    fixture.images[311].elements[2] ^= 1;
    assert_eq!(
        verify::<MockHasher>(&fixture.c, &fixture.images, &fixture.selector, &fixture.pre_images),
        Err(Error::CommitMismatch)
    );
    assert!(!fixture.satisfiable());
}

#[test]
fn the_default_instance_with_another_commitment_is_rejected_by_both() {
    let mut fixture = fixture(512);
    fixture.c.elements[0] ^= 1;
    assert!(!fixture.accepted_natively());
    assert!(!fixture.satisfiable());
}

#[test]
fn the_default_instance_with_a_flipped_bit_is_rejected_by_both() {
    let mut fixture = fixture(512);
    fixture.selector[17] = !fixture.selector[17];
    assert_eq!(
        verify::<MockHasher>(&fixture.c, &fixture.images, &fixture.selector, &fixture.pre_images),
        Err(Error::PreImageMismatch(17))
    );
    assert!(!fixture.satisfiable());
}

#[test]
fn both_agree_on_every_size() {
    for depth in 0..8 {
        let mut fixture = fixture(1 << depth);
        assert!(fixture.accepted_natively());
        assert!(fixture.satisfiable());
        fixture.c.elements[1] ^= 1;
        assert!(!fixture.accepted_natively());
        assert!(!fixture.satisfiable());
    }
}

#[test]
fn a_single_leaf_needs_the_commitment_only() {
    let mut fixture = fixture(1);
    assert_eq!(fixture.system.handles, 8);
    assert_eq!(
        fixture.system.constraints,
        (0..4)
            .map(|k| Constraint::Equal { left: handle(k), right: handle(4 + k) })
            .collect::<Vec<Constraint>>()
    );
    assert!(fixture.accepted_natively());
    assert!(fixture.satisfiable());
    fixture.images[0].elements[3] ^= 1;
    assert!(!fixture.accepted_natively());
    assert!(!fixture.satisfiable());
}

#[test]
fn a_selector_must_hold_a_bit() {
    let fixture = fixture(4);
    let mut witness = fixture.witness();
    assert!(fixture.system.satisfied_by::<MockHasher>(&witness));
    witness[fixture.selector_t[0].handle.index] = 2;
    assert!(!fixture.system.satisfied_by::<MockHasher>(&witness));
}

#[test]
fn a_witness_must_value_every_handle() {
    let fixture = fixture(4);
    let mut witness = fixture.witness();
    witness.push(0);
    assert!(!fixture.system.satisfied_by::<MockHasher>(&witness));
    witness.truncate(fixture.system.handles - 1);
    assert!(!fixture.system.satisfied_by::<MockHasher>(&witness));
}

#[test]
fn each_kind_of_constraint_is_checked() {
    let witness = vec![0, 1, 7, 8, 7, 2];
    let boolean = |index| Constraint::Boolean { handle: handle(index) };
    assert!(holds_in::<MockHasher>(&boolean(0), &witness));
    assert!(holds_in::<MockHasher>(&boolean(1), &witness));
    assert!(!holds_in::<MockHasher>(&boolean(2), &witness));
    assert!(!holds_in::<MockHasher>(&boolean(6), &witness));
    let select = |bit, out| Constraint::Select {
        selector: bool_handle(bit),
        when_set: handle(2),
        otherwise: handle(3),
        out: handle(out),
    };
    assert!(holds_in::<MockHasher>(&select(1, 4), &witness));
    assert!(!holds_in::<MockHasher>(&select(1, 3), &witness));
    assert!(holds_in::<MockHasher>(&select(0, 3), &witness));
    assert!(!holds_in::<MockHasher>(&select(0, 4), &witness));
    assert!(holds_in::<MockHasher>(&select(5, 0), &witness));
    assert!(!holds_in::<MockHasher>(&select(1, 6), &witness));
    let equal = |left, right| Constraint::Equal { left: handle(left), right: handle(right) };
    assert!(holds_in::<MockHasher>(&equal(2, 4), &witness));
    assert!(!holds_in::<MockHasher>(&equal(2, 3), &witness));
    assert!(!holds_in::<MockHasher>(&equal(2, 6), &witness));
}

#[test]
fn a_hash_constraint_is_checked_against_the_hasher() {
    let expected = MockHasher::hash_no_pad(&vec![7, 8]);
    let mut witness = vec![0, 0, 7, 8];
    witness.extend_from_slice(&expected.elements);
    let hash = Constraint::Hash { inputs: handles(2..4), digest: digest_handle(4) };
    assert!(holds_in::<MockHasher>(&hash, &witness));
    witness[6] ^= 1;
    assert!(!holds_in::<MockHasher>(&hash, &witness));
    let beyond = Constraint::Hash { inputs: handles(2..9), digest: digest_handle(4) };
    assert!(!holds_in::<MockHasher>(&beyond, &witness));
    let beyond = Constraint::Hash { inputs: handles(2..4), digest: digest_handle(5) };
    assert!(!holds_in::<MockHasher>(&beyond, &witness));
}

#[test]
fn a_select_defines_its_result_where_the_selector_holds_a_bit() {
    let select = |bit| Constraint::Select {
        selector: bool_handle(bit),
        when_set: handle(2),
        otherwise: handle(3),
        out: handle(4),
    };
    let mut witness = vec![0, 1, 7, 8, 0, 2];
    define_in::<MockHasher>(&select(1), &mut witness);
    assert_eq!(witness, vec![0, 1, 7, 8, 7, 2]);
    define_in::<MockHasher>(&select(0), &mut witness);
    assert_eq!(witness, vec![0, 1, 7, 8, 8, 2]);
    define_in::<MockHasher>(&select(5), &mut witness);
    assert_eq!(witness, vec![0, 1, 7, 8, 8, 2]);
    define_in::<MockHasher>(&select(6), &mut witness);
    assert_eq!(witness, vec![0, 1, 7, 8, 8, 2]);
}

#[test]
fn a_hash_defines_its_digest() {
    let expected = MockHasher::hash_no_pad(&vec![7, 8]);
    let mut witness = vec![0, 0, 7, 8, 0, 0, 0, 0];
    let hash = Constraint::Hash { inputs: handles(2..4), digest: digest_handle(4) };
    define_in::<MockHasher>(&hash, &mut witness);
    assert_eq!(witness[..4], [0, 0, 7, 8]);
    assert_eq!(witness[4..], expected.elements);
    let before = witness.clone();
    define_in::<MockHasher>(&Constraint::Equal { left: handle(0), right: handle(2) }, &mut witness);
    define_in::<MockHasher>(&Constraint::Boolean { handle: handle(2) }, &mut witness);
    define_in::<MockHasher>(
        &Constraint::Hash { inputs: handles(0..9), digest: digest_handle(4) },
        &mut witness,
    );
    assert_eq!(witness, before);
}
