use lamport_commit::circuit::{BoolHandle, ConstraintSystem, DigestHandle, Handle};
use lamport_commit::digest::{Digest, Hasher};
use lamport_commit::disclosure::verify;
use lamport_commit::mock::MockHasher;
use lamport_commit::selector::{select, select_pre_images};
use lamport_commit::tree::{commit, log2};
use lamport_commit::twin::{commit_t, make_verifier, select_t};
use rand::RngCore;

type H = MockHasher;

const ZERO: Digest = Digest { elements: [0; 4] };

fn rand_vec(rng: &mut rand::rngs::ThreadRng, n: usize) -> Vec<u64> {
    (0..n).map(|_| rng.next_u64()).collect()
}

fn set_hash_target(pw: &mut Vec<(Handle, u64)>, target: DigestHandle, value: Digest) {
    for k in 0..4 {
        pw.push((target.elements[k], value.elements[k]));
    }
}

fn set_bool_target(pw: &mut Vec<(Handle, u64)>, target: BoolHandle, value: bool) {
    pw.push((target.handle, value as u64));
}

fn set_target(pw: &mut Vec<(Handle, u64)>, target: Handle, value: u64) {
    pw.push((target, value));
}

/// Completes the values that were set into a witness of the whole system
/// and says whether it satisfies the system with every set value kept.
fn prove(builder: &ConstraintSystem, pw: &Vec<(Handle, u64)>) -> Result<Vec<u64>, &'static str> {
    let mut witness = vec![0u64; builder.handles];
    for (target, value) in pw {
        witness[target.index] = *value;
    }
    builder.complete_witness::<H>(&mut witness);
    let kept = pw.iter().all(|(target, value)| witness[target.index] == *value);
    if kept && builder.satisfied_by::<H>(&witness) {
        Ok(witness)
    } else {
        Err("prove failed")
    }
}

#[test]
fn test_commit() {
    let n: u32 = 9;
    let image: Vec<Digest> = (0..1 << n).map(|_| ZERO).collect();
    let root = commit::<H>(&image);
    println!("{:?}", root);
    assert!(root.is_ok());
}

#[test]
fn test_pow2() {
    let mut n: usize = 8;
    let mut p: usize = 0;
    while (n & 1) == 0 {
        n >>= 1;
        p += 1;
    }
    assert_eq!(n, 1, "is not pow of two");
    println!("{}", p);
    assert_eq!(log2(8), Some(p));
}

#[test]
fn test_commit_circuit() {
    let mut builder = ConstraintSystem::new();
    let mut pw: Vec<(Handle, u64)> = Vec::new();

    let n: u32 = 9;
    let image: Vec<Digest> = (0..1 << n).map(|_| ZERO).collect();
    let c = commit::<H>(&image).unwrap();
    let image_t = builder.new_digests(1 << n);
    for i in 0..1 << n {
        set_hash_target(&mut pw, image_t[i], image[i]);
    }
    let c_t = commit_t(&mut builder, image_t).unwrap();
    set_hash_target(&mut pw, c_t, c);
    let proof = prove(&builder, &pw);
    assert!(proof.is_ok());
}

#[test]
fn test_select() {
    let mut rng = rand::thread_rng();
    let mut builder = ConstraintSystem::new();
    let mut pw: Vec<(Handle, u64)> = Vec::new();
    let n: u32 = 9;
    let images: Vec<Digest> = (0..1 << n).map(|_| ZERO).collect();
    let selector: Vec<bool> = (0..1 << (n - 1)).map(|_| rng.next_u32() % 2 == 0).collect();
    let selected_images = select(&selector, &images).unwrap();

    let selector_t: Vec<BoolHandle> = (0..1 << (n - 1)).map(|_| builder.new_bool()).collect();
    let images_t = builder.new_digests(1 << n);
    let selected_images_t = select_t(&mut builder, selector_t.clone(), images_t.clone()).unwrap();

    for i in 0..images.len() {
        set_hash_target(&mut pw, images_t[i], images[i]);
    }
    for i in 0..selector.len() {
        set_bool_target(&mut pw, selector_t[i], selector[i]);
    }
    for i in 0..selected_images.len() {
        set_hash_target(&mut pw, selected_images_t[i], selected_images[i]);
    }
    let proof = prove(&builder, &pw);
    assert!(proof.is_ok());
}

#[test]
fn test_verify() -> Result<(), String> {
    let mut rng = rand::thread_rng();
    let mut builder = ConstraintSystem::new();
    let mut pw: Vec<(Handle, u64)> = Vec::new();

    let n: u32 = 9;
    let all_pre_images: Vec<Vec<u64>> = (0..1 << n).map(|_| rand_vec(&mut rng, 4)).collect();
    let images: Vec<Digest> = all_pre_images.iter().map(|x| H::hash_no_pad(x)).collect();
    let selector: Vec<bool> = (0..1 << (n - 1)).map(|_| rng.next_u32() % 2 == 0).collect();
    let pre_images = select_pre_images(&selector, &all_pre_images).map_err(|e| e.message())?;
    let c = commit::<H>(&images).map_err(|e| e.message())?;

    verify::<H>(&c, &images, &selector, &pre_images).map_err(|e| e.message())?;

    let c_t = builder.new_digest();
    let images_t = builder.new_digests(1 << n);
    let selector_t: Vec<BoolHandle> = (0..1 << (n - 1)).map(|_| builder.new_bool()).collect();
    let mut pre_images_t: Vec<Vec<Handle>> = vec![];
    for _ in 0..pre_images.len() {
        let pre_image: Vec<Handle> = (0..4).map(|_| builder.new_handle()).collect();
        pre_images_t.push(pre_image);
    }

    make_verifier(
        &mut builder,
        c_t,
        images_t.clone(),
        selector_t.clone(),
        pre_images_t.clone(),
    )
    .map_err(|e| e.message())?;

    set_hash_target(&mut pw, c_t, c);

    for i in 0..images.len() {
        set_hash_target(&mut pw, images_t[i], images[i]);
    }
    for i in 0..selector.len() {
        set_bool_target(&mut pw, selector_t[i], selector[i]);
    }
    for i in 0..pre_images.len() {
        for j in 0..4 {
            set_target(&mut pw, pre_images_t[i][j], pre_images[i][j]);
        }
    }

    match prove(&builder, &pw) {
        Ok(_) => Ok(()),
        _ => Err("prove failed"),
    }?;
    println!("{}", builder.constraints.len());
    println!("{}", builder.handles);
    Ok(())
}
