//! The commitment tree: a power-of-two list of leaf digests reduced to one
//! root by pairwise compression.

use crate::digest::{Digest, Hasher};
use crate::error::Error;
use vstd::arithmetic::power2::{lemma_pow2_pos, lemma_pow2_unfold, pow2};
use vstd::prelude::*;

verus! {

/// `n` is an exact power of two: 1, 2, 4, 8, ...
pub open spec fn is_power_of_two(n: nat) -> bool {
    exists|e: nat| n == pow2(e)
}

/// Two to the power of zero is one.
pub proof fn lemma_pow2_zero()
    ensures
        pow2(0) == 1,
{
    vstd::arithmetic::power2::lemma2_to64();
}

/// A power of two other than one is even.
pub proof fn lemma_power_of_two_is_even(n: nat)
    requires
        is_power_of_two(n),
        n != 1,
    ensures
        n % 2 == 0,
        n >= 2,
{
    let e = choose|e: nat| n == pow2(e);
    if e == 0 {
        lemma_pow2_zero();
    } else {
        lemma_pow2_unfold(e);
        lemma_pow2_pos((e - 1) as nat);
    }
}

/// An odd number greater than one, doubled any number of times, is never a
/// power of two.
proof fn lemma_odd_multiple_is_not_power(m: nat, p: nat, e: nat)
    requires
        m > 1,
        m % 2 == 1,
    ensures
        m * pow2(p) != pow2(e),
    decreases p,
{
    lemma_pow2_pos(p);
    lemma_pow2_pos(e);
    if p == 0 {
        lemma_pow2_zero();
        assert(m * pow2(p) == m) by (nonlinear_arith)
            requires
                pow2(p) == 1,
        ;
        if e > 0 {
            lemma_pow2_unfold(e);
        }
    } else {
        lemma_pow2_unfold(p);
        assert(m * pow2(p) == 2 * (m * pow2((p - 1) as nat))) by (nonlinear_arith)
            requires
                pow2(p) == 2 * pow2((p - 1) as nat),
        ;
        lemma_pow2_pos((p - 1) as nat);
        assert(m * pow2((p - 1) as nat) >= 1) by (nonlinear_arith)
            requires
                m > 1,
                pow2((p - 1) as nat) > 0,
        ;
        if e == 0 {
            lemma_pow2_zero();
        } else {
            lemma_pow2_unfold(e);
            lemma_odd_multiple_is_not_power(m, (p - 1) as nat, (e - 1) as nat);
        }
    }
}

/// The exponent `d` with `n == 2^d`, or `None` when `n` is not a power of two.
pub fn log2(n: usize) -> (depth: Option<usize>)
    ensures
        (match depth {
            Some(d) => n == pow2(d as nat),
            None => !is_power_of_two(n as nat),
        }),
{
    if n == 0 {
        proof {
            assert forall|e: nat| 0 != pow2(e) by {
                lemma_pow2_pos(e);
            }
        }
        return None;
    }
    let mut m: usize = n;
    let mut p: usize = 0;
    proof {
        lemma_pow2_zero();
    }
    while m % 2 == 0
        invariant
            m >= 1,
            n == m * pow2(p as nat),
            p <= n,
        decreases m,
    {
        proof {
            lemma_pow2_unfold((p + 1) as nat);
            lemma_pow2_pos(p as nat);
            assert((m / 2) * pow2((p + 1) as nat) == m * pow2(p as nat)) by (nonlinear_arith)
                requires
                    m % 2 == 0,
                    pow2((p + 1) as nat) == 2 * pow2(p as nat),
            ;
            assert(pow2((p + 1) as nat) > p + 1) by {
                lemma_pow2_exceeds((p + 1) as nat);
            }
            assert((m / 2) * pow2((p + 1) as nat) >= pow2((p + 1) as nat)) by (nonlinear_arith)
                requires
                    m / 2 >= 1,
            ;
        }
        m = m / 2;
        p = p + 1;
    }
    if m == 1 {
        assert(n == pow2(p as nat)) by (nonlinear_arith)
            requires
                n == m * pow2(p as nat),
                m == 1,
        ;
        Some(p)
    } else {
        proof {
            assert forall|e: nat| n != pow2(e) by {
                lemma_odd_multiple_is_not_power(m as nat, p as nat, e);
            }
        }
        None
    }
}

/// Every power of two exceeds its exponent.
proof fn lemma_pow2_exceeds(e: nat)
    ensures
        pow2(e) > e,
    decreases e,
{
    if e == 0 {
        lemma_pow2_pos(0);
    } else {
        lemma_pow2_unfold(e);
        lemma_pow2_exceeds((e - 1) as nat);
    }
}

/// The root of the perfect binary tree whose leaves are `leaves`, in order:
/// a single leaf is its own root, and the root of a longer list compresses
/// the root of its first half with the root of its second half.
pub open spec fn tree_root<H: Hasher>(leaves: Seq<Digest>) -> Digest
    decreases leaves.len(),
{
    if leaves.len() <= 1 {
        leaves[0]
    } else {
        let half = leaves.len() as int / 2;
        H::compress(
            tree_root::<H>(leaves.subrange(0, half)),
            tree_root::<H>(leaves.subrange(half, leaves.len() as int)),
        )
    }
}

/// One level up in the tree: each adjacent pair of `level` compressed into
/// one digest, in the order of the pairs.
pub open spec fn compress_pairs<H: Hasher>(level: Seq<Digest>) -> Seq<Digest> {
    Seq::new(level.len() / 2, |i: int| H::compress(level[2 * i], level[2 * i + 1]))
}

/// What [`commit`] returns for a list of leaves.
pub open spec fn commitment<H: Hasher>(leaves: Seq<Digest>) -> Result<Digest, Error> {
    if is_power_of_two(leaves.len()) {
        Ok(tree_root::<H>(leaves))
    } else {
        Err(Error::InvalidInput)
    }
}

/// Compressing the pairs of a level leaves the root of the tree unchanged.
pub proof fn lemma_root_of_compressed_pairs<H: Hasher>(level: Seq<Digest>, depth: nat)
    requires
        depth >= 1,
        level.len() == pow2(depth),
    ensures
        tree_root::<H>(compress_pairs::<H>(level)) == tree_root::<H>(level),
    decreases depth,
{
    let n = level.len() as int;
    let half = n / 2;
    lemma_pow2_unfold(depth);
    lemma_pow2_pos((depth - 1) as nat);
    let left = level.subrange(0, half);
    let right = level.subrange(half, n);
    let up = compress_pairs::<H>(level);
    if depth == 1 {
        lemma_pow2_zero();
        assert(tree_root::<H>(left) == level[0]);
        assert(tree_root::<H>(right) == level[1]);
    } else {
        lemma_pow2_unfold((depth - 1) as nat);
        lemma_pow2_pos((depth - 2) as nat);
        lemma_root_of_compressed_pairs::<H>(left, (depth - 1) as nat);
        lemma_root_of_compressed_pairs::<H>(right, (depth - 1) as nat);
        let quarter = half / 2;
        assert(up.subrange(0, quarter) =~= compress_pairs::<H>(left));
        assert(up.subrange(quarter, half) =~= compress_pairs::<H>(right));
    }
}

/// No compression collision separates the trees over `a` and `b`: wherever
/// the two trees compress different pairs of children at the same place, the
/// two results differ as well.
pub open spec fn collision_free<H: Hasher>(a: Seq<Digest>, b: Seq<Digest>) -> bool
    decreases a.len(),
{
    if a.len() <= 1 || a.len() != b.len() {
        true
    } else {
        let half = a.len() as int / 2;
        let end = a.len() as int;
        let (a_left, a_right) = (a.subrange(0, half), a.subrange(half, end));
        let (b_left, b_right) = (b.subrange(0, half), b.subrange(half, end));
        &&& collision_free::<H>(a_left, b_left)
        &&& collision_free::<H>(a_right, b_right)
        &&& tree_root::<H>(a_left) != tree_root::<H>(b_left) || tree_root::<H>(a_right)
            != tree_root::<H>(b_right) ==> tree_root::<H>(a) != tree_root::<H>(b)
    }
}

/// Two lists of `2^depth` leaves with the same root are the same list,
/// unless a compression collision occurs between their trees.
pub proof fn lemma_equal_roots_equal_leaves<H: Hasher>(a: Seq<Digest>, b: Seq<Digest>, depth: nat)
    requires
        a.len() == pow2(depth),
        b.len() == pow2(depth),
        collision_free::<H>(a, b),
        tree_root::<H>(a) == tree_root::<H>(b),
    ensures
        a == b,
    decreases depth,
{
    if depth == 0 {
        lemma_pow2_zero();
        assert(a =~= b);
    } else {
        lemma_pow2_unfold(depth);
        lemma_pow2_pos((depth - 1) as nat);
        let half = a.len() as int / 2;
        let end = a.len() as int;
        lemma_equal_roots_equal_leaves::<H>(
            a.subrange(0, half),
            b.subrange(0, half),
            (depth - 1) as nat,
        );
        lemma_equal_roots_equal_leaves::<H>(
            a.subrange(half, end),
            b.subrange(half, end),
            (depth - 1) as nat,
        );
        assert forall|i: int| 0 <= i < end implies a[i] == b[i] by {
            if i < half {
                assert(a[i] == a.subrange(0, half)[i]);
                assert(b[i] == b.subrange(0, half)[i]);
            } else {
                assert(a[i] == a.subrange(half, end)[i - half]);
                assert(b[i] == b.subrange(half, end)[i - half]);
            }
        }
        assert(a =~= b);
    }
}

/// The commitment depends on nothing but the leaves and their order: equal
/// lists of leaves have equal commitments.
pub proof fn lemma_commit_deterministic<H: Hasher>(a: Seq<Digest>, b: Seq<Digest>)
    requires
        a.len() == b.len(),
        forall|i: int| 0 <= i < a.len() ==> a[i] == b[i],
    ensures
        commitment::<H>(a) == commitment::<H>(b),
{
    assert(a =~= b);
}

/// The commitment is sensitive to the order of the leaves: exchanging two
/// leaves that differ changes it, unless a compression collision occurs
/// between the two trees.
pub proof fn lemma_commit_order_sensitive<H: Hasher>(leaves: Seq<Digest>, i: int, j: int)
    requires
        is_power_of_two(leaves.len()),
        0 <= i < leaves.len(),
        0 <= j < leaves.len(),
        leaves[i] != leaves[j],
        collision_free::<H>(leaves, leaves.update(i, leaves[j]).update(j, leaves[i])),
    ensures
        commitment::<H>(leaves.update(i, leaves[j]).update(j, leaves[i])) != commitment::<H>(
            leaves,
        ),
{
    let swapped = leaves.update(i, leaves[j]).update(j, leaves[i]);
    let depth = choose|e: nat| leaves.len() == pow2(e);
    assert(swapped[j] == leaves[i]);
    if tree_root::<H>(swapped) == tree_root::<H>(leaves) {
        lemma_equal_roots_equal_leaves::<H>(leaves, swapped, depth);
    }
}

/// Builds the commitment to a list of leaf digests: the root of the binary
/// compression tree over them. Fails with `InvalidInput` when the number of
/// leaves is not a power of two; a single leaf is its own commitment.
pub fn commit<H: Hasher>(images: &Vec<Digest>) -> (root: Result<Digest, Error>)
    ensures
        root == commitment::<H>(images@),
{
    let depth = match log2(images.len()) {
        Some(d) => d,
        None => {
            return Err(Error::InvalidInput);
        },
    };
    let mut level: Vec<Digest> = images.clone();
    assert(level@ =~= images@);
    let mut round: usize = 0;
    while round < depth
        invariant
            round <= depth,
            level.len() == pow2((depth - round) as nat),
            tree_root::<H>(level@) == tree_root::<H>(images@),
        decreases depth - round,
    {
        proof {
            lemma_pow2_unfold((depth - round) as nat);
            lemma_root_of_compressed_pairs::<H>(level@, (depth - round) as nat);
        }
        let mut next: Vec<Digest> = Vec::new();
        let mut i: usize = 0;
        while i < level.len() / 2
            invariant
                i <= level.len() / 2,
                next@ == compress_pairs::<H>(level@).take(i as int),
            decreases level.len() / 2 - i,
        {
            next.push(H::two_to_one(level[2 * i], level[2 * i + 1]));
            i = i + 1;
        }
        assert(next@ =~= compress_pairs::<H>(level@));
        level = next;
        round = round + 1;
    }
    proof {
        lemma_pow2_zero();
    }
    Ok(level[0])
}

} // verus!
