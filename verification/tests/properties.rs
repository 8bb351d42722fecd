use lamport_commit::digest::{Digest, Elements, Hasher};
use lamport_commit::disclosure::verify;
use lamport_commit::error::Error;
use lamport_commit::mock::MockHasher;
use lamport_commit::selector::{select, select_pre_images};
use lamport_commit::tree::{commit, log2};

/// A hasher whose results are easy to compute by hand: it compresses two
/// digests to three times the left plus five times the right plus one,
/// element by element, and hashes a list to its sum plus the position of
/// the element.
struct Affine;

impl Hasher for Affine {
    fn compress(_: Digest, _: Digest) -> Digest {
        unreachable!()
    }

    fn hash(_: Elements) -> Digest {
        unreachable!()
    }

    fn two_to_one(left: Digest, right: Digest) -> Digest {
        let mut elements = [0u64; 4];
        for k in 0..4 {
            elements[k] = left.elements[k]
                .wrapping_mul(3)
                .wrapping_add(right.elements[k].wrapping_mul(5))
                .wrapping_add(1);
        }
        Digest { elements }
    }

    fn hash_no_pad(input: &Vec<u64>) -> Digest {
        let sum = input.iter().fold(0u64, |sum, element| sum.wrapping_add(*element));
        Digest { elements: [sum, sum.wrapping_add(1), sum.wrapping_add(2), sum.wrapping_add(3)] }
    }
}

fn leaf(seed: u64) -> Digest {
    Digest { elements: [seed, seed + 100, seed + 200, seed + 300] }
}

/// Preimages `[seed, seed + 1, seed + 2, seed + 3]` for seeds counted from
/// zero, with their images under the stand-in hasher.
fn instance(leaves: usize) -> (Vec<Vec<u64>>, Vec<Digest>) {
    let all_pre_images: Vec<Vec<u64>> =
        (0..leaves as u64).map(|seed| vec![7 * seed, 7 * seed + 1, 7 * seed + 2, 7 * seed + 3]).collect();
    let images: Vec<Digest> = all_pre_images.iter().map(|x| MockHasher::hash_no_pad(x)).collect();
    (all_pre_images, images)
}

fn alternating(bits: usize) -> Vec<bool> {
    (0..bits).map(|i| i % 3 != 1).collect()
}

#[test]
fn log2_of_powers_of_two() {
    assert_eq!(log2(1), Some(0));
    assert_eq!(log2(2), Some(1));
    assert_eq!(log2(4), Some(2));
    assert_eq!(log2(512), Some(9));
    assert_eq!(log2(1024), Some(10));
    assert_eq!(log2(1usize << 31), Some(31));
}

#[test]
fn log2_of_other_numbers() {
    assert_eq!(log2(0), None);
    assert_eq!(log2(3), None);
    assert_eq!(log2(6), None);
    assert_eq!(log2(12), None);
    assert_eq!(log2(1023), None);
    assert_eq!(log2(usize::MAX), None);
}

#[test]
fn digests_compare_by_their_elements() {
    assert!(leaf(1) == leaf(1));
    assert!(leaf(1) != leaf(2));
    assert!(Digest { elements: [1, 2, 3, 4] } != Digest { elements: [1, 2, 3, 5] });
    assert!(Digest { elements: [1, 2, 3, 4] } != Digest { elements: [0, 2, 3, 4] });
}

#[test]
fn commit_of_one_leaf_is_the_leaf() {
    assert_eq!(commit::<Affine>(&vec![leaf(5)]).unwrap().elements, [5, 105, 205, 305]);
    assert!(commit::<MockHasher>(&vec![leaf(5)]).unwrap() == leaf(5));
}

#[test]
fn commit_of_two_leaves_compresses_them() {
    let root = commit::<Affine>(&vec![leaf(1), leaf(2)]).unwrap();
    assert_eq!(root.elements, [3 + 10 + 1, 303 + 510 + 1, 603 + 1010 + 1, 903 + 1510 + 1]);
    let root = commit::<MockHasher>(&vec![leaf(1), leaf(2)]).unwrap();
    assert!(root == MockHasher::two_to_one(leaf(1), leaf(2)));
}

#[test]
fn commit_of_four_leaves_compresses_level_by_level() {
    let leaves = vec![
        Digest { elements: [1, 0, 0, 0] },
        Digest { elements: [2, 0, 0, 0] },
        Digest { elements: [3, 0, 0, 0] },
        Digest { elements: [4, 0, 0, 0] },
    ];
    // Pairs: 3 * 1 + 5 * 2 + 1 = 14 and 3 * 3 + 5 * 4 + 1 = 30; the other
    // elements become 1. Root: 3 * 14 + 5 * 30 + 1 = 193 and 3 + 5 + 1 = 9.
    assert_eq!(commit::<Affine>(&leaves).unwrap().elements, [193, 9, 9, 9]);
    let expected = MockHasher::two_to_one(
        MockHasher::two_to_one(leaves[0], leaves[1]),
        MockHasher::two_to_one(leaves[2], leaves[3]),
    );
    assert!(commit::<MockHasher>(&leaves).unwrap() == expected);
}

#[test]
fn commit_of_eight_leaves_is_the_root_of_the_halves() {
    let leaves: Vec<Digest> = (0..8).map(leaf).collect();
    let left = commit::<MockHasher>(&leaves[..4].to_vec()).unwrap();
    let right = commit::<MockHasher>(&leaves[4..].to_vec()).unwrap();
    assert!(commit::<MockHasher>(&leaves).unwrap() == MockHasher::two_to_one(left, right));
}

#[test]
fn commit_is_deterministic() {
    for depth in 0..8 {
        let leaves: Vec<Digest> = (0..1u64 << depth).map(leaf).collect();
        let again = leaves.clone();
        assert!(commit::<MockHasher>(&leaves).unwrap() == commit::<MockHasher>(&again).unwrap());
    }
}

#[test]
fn commit_depends_on_the_order_of_the_leaves() {
    for depth in 1..8 {
        let leaves: Vec<Digest> = (0..1u64 << depth).map(leaf).collect();
        let root = commit::<MockHasher>(&leaves).unwrap();
        let last = leaves.len() - 1;
        for (i, j) in [(0, 1), (0, last), (last / 2, last)] {
            if i != j {
                let mut swapped = leaves.clone();
                swapped.swap(i, j);
                assert!(commit::<MockHasher>(&swapped).unwrap() != root);
            }
        }
    }
}

#[test]
fn commit_keeps_the_root_when_equal_leaves_change_places() {
    let mut leaves: Vec<Digest> = (0..8).map(leaf).collect();
    leaves[5] = leaves[2];
    let root = commit::<MockHasher>(&leaves).unwrap();
    leaves.swap(2, 5);
    assert!(commit::<MockHasher>(&leaves).unwrap() == root);
}

#[test]
fn commit_rejects_lengths_that_are_no_power_of_two() {
    for length in [0usize, 3, 5, 6, 7, 9, 12, 100, 511, 513] {
        let leaves: Vec<Digest> = (0..length as u64).map(leaf).collect();
        assert_eq!(commit::<MockHasher>(&leaves).err(), Some(Error::InvalidInput));
    }
}

#[test]
fn select_takes_the_right_leaf_where_the_bit_is_set() {
    let images: Vec<Digest> = (0..6).map(leaf).collect();
    let selected = select(&vec![false, true, true], &images).unwrap();
    assert_eq!(selected.len(), 3);
    assert_eq!(selected[0].elements, [0, 100, 200, 300]);
    assert_eq!(selected[1].elements, [3, 103, 203, 303]);
    assert_eq!(selected[2].elements, [5, 105, 205, 305]);
}

#[test]
fn select_follows_the_index_rule() {
    let images: Vec<Digest> = (0..64).map(leaf).collect();
    let selector = alternating(32);
    let selected = select(&selector, &images).unwrap();
    assert_eq!(selected.len(), selector.len());
    for i in 0..selector.len() {
        let offset = if selector[i] { 1 } else { 0 };
        assert!(selected[i] == images[2 * i + offset]);
    }
}

#[test]
fn select_of_nothing_is_empty() {
    assert_eq!(select(&vec![], &vec![]).unwrap().len(), 0);
    assert_eq!(select_pre_images(&vec![], &vec![]).unwrap().len(), 0);
}

#[test]
fn select_rejects_lists_that_do_not_fit() {
    let images: Vec<Digest> = (0..6).map(leaf).collect();
    assert_eq!(select(&vec![true, false], &images).err(), Some(Error::InvalidInput));
    assert_eq!(select(&vec![true; 4], &images).err(), Some(Error::InvalidInput));
    assert_eq!(select(&vec![], &images[..1].to_vec()).err(), Some(Error::InvalidInput));
    assert_eq!(select(&vec![true, false], &images[..5].to_vec()).err(), Some(Error::InvalidInput));
    assert_eq!(select(&vec![true], &vec![]).err(), Some(Error::InvalidInput));
}

#[test]
fn select_pre_images_takes_the_right_one_where_the_bit_is_set() {
    let pre_images = vec![vec![1, 2], vec![3], vec![], vec![4, 5, 6]];
    let selected = select_pre_images(&vec![true, false], &pre_images).unwrap();
    assert_eq!(selected, vec![vec![3], vec![]]);
    let selected = select_pre_images(&vec![false, true], &pre_images).unwrap();
    assert_eq!(selected, vec![vec![1, 2], vec![4, 5, 6]]);
}

#[test]
fn select_pre_images_rejects_lists_that_do_not_fit() {
    let pre_images = vec![vec![1, 2], vec![3], vec![], vec![4, 5, 6]];
    assert_eq!(select_pre_images(&vec![true], &pre_images).err(), Some(Error::InvalidInput));
    assert_eq!(select_pre_images(&vec![true; 3], &pre_images).err(), Some(Error::InvalidInput));
    assert_eq!(
        select_pre_images(&vec![true], &pre_images[..3].to_vec()).err(),
        Some(Error::InvalidInput)
    );
}

#[test]
fn verify_accepts_what_the_discloser_built() {
    for depth in 1..8 {
        let (all_pre_images, images) = instance(1 << depth);
        let selector = alternating(images.len() / 2);
        let pre_images = select_pre_images(&selector, &all_pre_images).unwrap();
        let c = commit::<MockHasher>(&images).unwrap();
        assert_eq!(verify::<MockHasher>(&c, &images, &selector, &pre_images), Ok(()));
    }
}

#[test]
fn verify_accepts_every_selector_of_eight_leaves() {
    let (all_pre_images, images) = instance(8);
    let c = commit::<MockHasher>(&images).unwrap();
    for choice in 0..16u32 {
        let selector: Vec<bool> = (0..4).map(|i| choice >> i & 1 == 1).collect();
        let pre_images = select_pre_images(&selector, &all_pre_images).unwrap();
        assert_eq!(verify::<MockHasher>(&c, &images, &selector, &pre_images), Ok(()));
    }
}

#[test]
fn verify_accepts_a_single_leaf_with_empty_lists() {
    let image = MockHasher::hash_no_pad(&vec![1, 2, 3, 4]);
    let c = commit::<MockHasher>(&vec![image]).unwrap();
    assert!(c == image);
    assert_eq!(verify::<MockHasher>(&c, &vec![image], &vec![], &vec![]), Ok(()));
}

#[test]
fn verify_rejects_a_single_leaf_under_another_commitment() {
    let image = MockHasher::hash_no_pad(&vec![1, 2, 3, 4]);
    assert_eq!(
        verify::<MockHasher>(&leaf(9), &vec![image], &vec![], &vec![]),
        Err(Error::CommitMismatch)
    );
}

#[test]
fn verify_names_the_preimage_that_was_tampered_with() {
    let (all_pre_images, images) = instance(32);
    let selector = alternating(16);
    let pre_images = select_pre_images(&selector, &all_pre_images).unwrap();
    let c = commit::<MockHasher>(&images).unwrap();
    for k in 0..pre_images.len() {
        for position in 0..4 {
            let mut tampered = pre_images.clone();
            tampered[k][position] ^= 1;
            assert_eq!(
                verify::<MockHasher>(&c, &images, &selector, &tampered),
                Err(Error::PreImageMismatch(k))
            );
        }
    }
}

#[test]
fn verify_names_the_first_of_several_bad_preimages() {
    let (all_pre_images, images) = instance(16);
    let selector = alternating(8);
    let mut pre_images = select_pre_images(&selector, &all_pre_images).unwrap();
    let c = commit::<MockHasher>(&images).unwrap();
    pre_images[6][0] += 1;
    pre_images[3][2] += 1;
    pre_images[5].push(0);
    assert_eq!(verify::<MockHasher>(&c, &images, &selector, &pre_images), Err(Error::PreImageMismatch(3)));
}

#[test]
fn verify_rejects_the_preimage_of_the_sibling() {
    let (all_pre_images, images) = instance(4);
    let selector = vec![true, false];
    let c = commit::<MockHasher>(&images).unwrap();
    let pre_images = select_pre_images(&vec![false, false], &all_pre_images).unwrap();
    assert_eq!(verify::<MockHasher>(&c, &images, &selector, &pre_images), Err(Error::PreImageMismatch(0)));
}

#[test]
fn verify_rejects_a_changed_leaf() {
    let (all_pre_images, images) = instance(32);
    let selector = alternating(16);
    let pre_images = select_pre_images(&selector, &all_pre_images).unwrap();
    let c = commit::<MockHasher>(&images).unwrap();
    for k in 0..images.len() {
        let mut tampered = images.clone();
        tampered[k].elements[k % 4] ^= 1;
        assert_eq!(
            verify::<MockHasher>(&c, &tampered, &selector, &pre_images),
            Err(Error::CommitMismatch)
        );
    }
}

#[test]
fn verify_rejects_another_commitment() {
    let (all_pre_images, images) = instance(8);
    let selector = alternating(4);
    let pre_images = select_pre_images(&selector, &all_pre_images).unwrap();
    let mut c = commit::<MockHasher>(&images).unwrap();
    c.elements[3] += 1;
    assert_eq!(verify::<MockHasher>(&c, &images, &selector, &pre_images), Err(Error::CommitMismatch));
}

#[test]
fn verify_reports_the_commitment_before_the_preimages() {
    let (all_pre_images, mut images) = instance(8);
    let selector = alternating(4);
    let mut pre_images = select_pre_images(&selector, &all_pre_images).unwrap();
    let c = commit::<MockHasher>(&images).unwrap();
    images[7].elements[0] ^= 1;
    pre_images[0][0] ^= 1;
    assert_eq!(verify::<MockHasher>(&c, &images, &selector, &pre_images), Err(Error::CommitMismatch));
}

#[test]
fn verify_rejects_lists_that_do_not_fit() {
    let (all_pre_images, images) = instance(8);
    let selector = alternating(4);
    let pre_images = select_pre_images(&selector, &all_pre_images).unwrap();
    let c = commit::<MockHasher>(&images).unwrap();
    let invalid = Err(Error::InvalidInput);
    assert_eq!(verify::<MockHasher>(&c, &images, &selector[..3].to_vec(), &pre_images), invalid);
    assert_eq!(verify::<MockHasher>(&c, &images, &selector, &pre_images[..3].to_vec()), invalid);
    assert_eq!(verify::<MockHasher>(&c, &images, &vec![true; 5], &pre_images), invalid);
    assert_eq!(verify::<MockHasher>(&c, &images[..4].to_vec(), &selector, &pre_images), invalid);
    assert_eq!(verify::<MockHasher>(&c, &vec![], &vec![], &vec![]), invalid);
}

#[test]
fn verify_rejects_leaf_counts_that_are_no_power_of_two() {
    let (all_pre_images, images) = instance(6);
    let selector = alternating(3);
    let pre_images = select_pre_images(&selector, &all_pre_images).unwrap();
    assert_eq!(
        verify::<MockHasher>(&leaf(0), &images, &selector, &pre_images),
        Err(Error::InvalidInput)
    );
    let (_, images) = instance(3);
    assert_eq!(
        verify::<MockHasher>(&leaf(0), &images, &vec![true], &vec![vec![0, 1, 2, 3]]),
        Err(Error::InvalidInput)
    );
}

#[test]
fn errors_describe_themselves() {
    assert_eq!(Error::InvalidInput.message(), "input shape is not correct");
    assert_eq!(Error::CommitMismatch.message(), "commit is not correct");
    assert_eq!(Error::PreImageMismatch(3).message(), "pre-image is not correct");
}
