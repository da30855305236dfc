use zktx::note::{commitment_input, merkle_root, COMMITMENT_BITS};

fn mix(left: [u64; 4], right: [u64; 4]) -> [u64; 4] {
    let mut out = [0u64; 4];
    for i in 0..4 {
        out[i] = left[i].wrapping_mul(31).wrapping_add(right[i]).rotate_left(7) ^ (i as u64);
    }
    out
}

#[test]
fn commitment_is_hashed_from_blinding_amount_and_address() {
    let rcm = [0b101, 1 << 63];
    let va = [10, 0];
    let addr = [1, 2, 0, 1 << 62];
    let bits = commitment_input(rcm, va, addr);
    assert_eq!(bits.len(), COMMITMENT_BITS);
    assert_eq!(bits.len(), 512);
    let set: Vec<usize> = (0..512).filter(|&i| bits[i]).collect();
    assert_eq!(
        set,
        vec![
            0, 2, 127, // the blinding factor
            128 + 1, 128 + 3, // the amount: ten
            256, 256 + 64 + 1, 256 + 192 + 62, // the address
        ]
    );
}

#[test]
fn commitment_of_zeros_and_of_ones() {
    assert!(commitment_input([0, 0], [0, 0], [0; 4]).iter().all(|b| !*b));
    assert!(commitment_input([u64::MAX; 2], [u64::MAX; 2], [u64::MAX; 4]).iter().all(|b| *b));
}

#[test]
fn root_of_an_empty_path_is_the_leaf() {
    let leaf = [1, 2, 3, 4];
    assert_eq!(merkle_root(leaf, &Vec::new(), &Vec::new(), mix), Some(leaf));
}

#[test]
fn direction_bit_puts_the_sibling_first() {
    let leaf = [1, 2, 3, 4];
    let sibling = [5, 6, 7, 8];
    assert_eq!(merkle_root(leaf, &vec![sibling], &vec![false], mix), Some(mix(leaf, sibling)));
    assert_eq!(merkle_root(leaf, &vec![sibling], &vec![true], mix), Some(mix(sibling, leaf)));
    assert_ne!(mix(leaf, sibling), mix(sibling, leaf));
}

#[test]
fn root_climbs_the_path_from_the_leaf_upwards() {
    let leaf = [9, 9, 9, 9];
    let path = vec![[1, 0, 0, 0], [2, 0, 0, 0], [3, 0, 0, 0]];
    let locs = vec![true, false, true];
    let first = mix(path[0], leaf);
    let second = mix(first, path[1]);
    let third = mix(path[2], second);
    assert_eq!(merkle_root(leaf, &path, &locs, mix), Some(third));
}

#[test]
fn path_and_directions_must_agree_in_length() {
    let leaf = [1, 2, 3, 4];
    assert_eq!(merkle_root(leaf, &vec![[0; 4]], &Vec::new(), mix), None);
    assert_eq!(merkle_root(leaf, &Vec::new(), &vec![true], mix), None);
    assert_eq!(merkle_root(leaf, &vec![[0; 4]; 3], &vec![true; 2], mix), None);
}
