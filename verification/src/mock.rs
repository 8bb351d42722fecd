//! A stand-in hasher for tests and examples.

use crate::digest::{Digest, Elements, Hasher};
use vstd::prelude::*;

verus! {

/// A small sponge over four independent 64-bit lanes. It is fast and
/// deterministic and has no cryptographic strength: it stands in for a real
/// hasher where the library is exercised without one. It compresses two
/// digests by hashing their eight elements.
#[derive(Clone, Copy, Debug)]
pub struct MockHasher;

/// The values that the four lanes start from.
pub open spec fn seed(lane: int) -> u64 {
    if lane == 0 {
        0x243f_6a88_85a3_08d3
    } else if lane == 1 {
        0x1319_8a2e_0370_7344
    } else if lane == 2 {
        0xa409_3822_299f_31d0
    } else {
        0x082e_fa98_ec4e_6c89
    }
}

/// A scrambling of 64 bits: two rounds of folding the high bits onto the
/// low ones and multiplying by an odd constant, and a last fold.
pub open spec fn mixed(x: u64) -> u64 {
    let once = (x ^ (x >> 30)).wrapping_mul(0xbf58_476d_1ce4_e5b9);
    let twice = (once ^ (once >> 27)).wrapping_mul(0x94d0_49bb_1331_11eb);
    twice ^ (twice >> 31)
}

/// What a lane that started from `start` holds after it absorbed `input`:
/// each element in turn is folded into the lane, and the lane scrambled.
pub open spec fn absorbed(start: u64, input: Seq<u64>) -> u64
    decreases input.len(),
{
    if input.len() == 0 {
        start
    } else {
        mixed(absorbed(start, input.drop_last()) ^ input.last())
    }
}

/// What a lane yields for `input`: what it holds after absorbing the input,
/// folded with the length of the input and scrambled once more.
pub open spec fn squeezed(lane: int, input: Seq<u64>) -> u64 {
    mixed(absorbed(seed(lane), input) ^ (input.len() as u64))
}

/// The digest of `input`: what each of the four lanes yields for it.
pub open spec fn mock_hash(input: Seq<u64>) -> Digest {
    Digest {
        elements: [squeezed(0, input), squeezed(1, input), squeezed(2, input), squeezed(3, input)],
    }
}

fn mix(x: u64) -> (scrambled: u64)
    ensures
        scrambled == mixed(x),
{
    let once = (x ^ (x >> 30)).wrapping_mul(0xbf58_476d_1ce4_e5b9);
    let twice = (once ^ (once >> 27)).wrapping_mul(0x94d0_49bb_1331_11eb);
    twice ^ (twice >> 31)
}

impl Hasher for MockHasher {
    open spec fn compress(left: Digest, right: Digest) -> Digest {
        mock_hash(left.elements@ + right.elements@)
    }

    open spec fn hash(input: Elements) -> Digest {
        mock_hash(input)
    }

    fn two_to_one(left: Digest, right: Digest) -> (out: Digest) {
        let mut input: Vec<u64> = Vec::new();
        input.push(left.elements[0]);
        input.push(left.elements[1]);
        input.push(left.elements[2]);
        input.push(left.elements[3]);
        input.push(right.elements[0]);
        input.push(right.elements[1]);
        input.push(right.elements[2]);
        input.push(right.elements[3]);
        assert(input@ =~= left.elements@ + right.elements@);
        MockHasher::hash_no_pad(&input)
    }

    fn hash_no_pad(input: &Vec<u64>) -> (out: Digest) {
        let mut lane0: u64 = 0x243f_6a88_85a3_08d3;
        let mut lane1: u64 = 0x1319_8a2e_0370_7344;
        let mut lane2: u64 = 0xa409_3822_299f_31d0;
        let mut lane3: u64 = 0x082e_fa98_ec4e_6c89;
        let mut i: usize = 0;
        assert(input@.take(0) =~= Seq::<u64>::empty());
        while i < input.len()
            invariant
                i <= input.len(),
                lane0 == absorbed(seed(0), input@.take(i as int)),
                lane1 == absorbed(seed(1), input@.take(i as int)),
                lane2 == absorbed(seed(2), input@.take(i as int)),
                lane3 == absorbed(seed(3), input@.take(i as int)),
            decreases input.len() - i,
        {
            let element = input[i];
            proof {
                let upto = input@.take(i + 1);
                assert(upto.drop_last() =~= input@.take(i as int));
                assert(upto.last() == element);
            }
            lane0 = mix(lane0 ^ element);
            lane1 = mix(lane1 ^ element);
            lane2 = mix(lane2 ^ element);
            lane3 = mix(lane3 ^ element);
            i = i + 1;
        }
        assert(input@.take(i as int) =~= input@);
        let length = input.len() as u64;
        Digest {
            elements: [
                mix(lane0 ^ length),
                mix(lane1 ^ length),
                mix(lane2 ^ length),
                mix(lane3 ^ length),
            ],
        }
    }
}

} // verus!
