//! Notes outside the circuit: the bits that a note commitment is hashed
//! from, and the path from a commitment up to the root of the Merkle tree.
//! The compression function is the caller's.

use crate::amount::magnitude;
use crate::bits::{bits_value, decompose};
use crate::field::{words_value, Words};
use vstd::arithmetic::div_mod::lemma_small_mod;
use vstd::arithmetic::power2::{lemma2_to64, lemma2_to64_rest, lemma_pow2_adds, pow2};
use vstd::prelude::*;

verus! {

/// The number of bits that a commitment is hashed from: 128 of the blinding
/// factor, 128 of the amount, 256 of the address.
pub const COMMITMENT_BITS: usize = 512;

/// Appends `more` to `out`.
fn extend(out: &mut Vec<bool>, more: &Vec<bool>)
    ensures
        final(out)@ == old(out)@ + more@,
{
    let ghost before = out@;
    let mut i: usize = 0;
    assert(out@ =~= before + more@.take(0));
    while i < more.len()
        invariant
            i <= more@.len(),
            out@ == before + more@.take(i as int),
        decreases more@.len() - i,
    {
        out.push(more[i]);
        assert(out@ =~= before + more@.take(i + 1));
        i = i + 1;
    }
    assert(more@.take(more@.len() as int) =~= more@);
}

/// The bits that the commitment of a note is hashed from: the blinding
/// factor, the amount and the address, each least significant bit first.
pub fn commitment_input(rcm: [u64; 2], va: [u64; 2], addr: Words) -> (bits: Vec<bool>)
    ensures
        bits@.len() == COMMITMENT_BITS,
        bits_value(bits@.subrange(0, 128)) == magnitude(rcm),
        bits_value(bits@.subrange(128, 256)) == magnitude(va),
        bits_value(bits@.subrange(256, 512)) == words_value(addr),
{
    let blinding = decompose([rcm[0], rcm[1], 0, 0], 128);
    let amount = decompose([va[0], va[1], 0, 0], 128);
    let address = decompose(addr, 256);
    proof {
        lemma2_to64();
        lemma2_to64_rest();
        lemma_pow2_adds(64, 64);
        lemma_pow2_adds(128, 128);
        let half = pow2(128);
        assert(half * half
            == 0x1_0000_0000_0000_0000_0000_0000_0000_0000_0000_0000_0000_0000_0000_0000_0000_0000nat)
            by (nonlinear_arith)
            requires
                half == 0x1_0000_0000_0000_0000_0000_0000_0000_0000nat,
        ;
        lemma_small_mod(magnitude(rcm), pow2(128));
        lemma_small_mod(magnitude(va), pow2(128));
        lemma_small_mod(words_value(addr), pow2(256));
    }
    let mut bits: Vec<bool> = Vec::new();
    extend(&mut bits, &blinding);
    extend(&mut bits, &amount);
    extend(&mut bits, &address);
    assert(bits@.subrange(0, 128) =~= blinding@);
    assert(bits@.subrange(128, 256) =~= amount@);
    assert(bits@.subrange(256, 512) =~= address@);
    bits
}

/// The two children of a node in the order in which they are compressed:
/// the sibling first where the node is a right child.
pub open spec fn ordered(node: Words, sibling: Words, sibling_first: bool) -> (Words, Words) {
    if sibling_first {
        (sibling, node)
    } else {
        (node, sibling)
    }
}

/// `node` is what `compress` gives at the top of the path that starts at
/// `leaf`: at each level the node below and its sibling are compressed, in
/// the order that the direction bit of the level says.
pub open spec fn climbs<F: Fn(Words, Words) -> Words>(
    compress: F,
    leaf: Words,
    path: Seq<Words>,
    locs: Seq<bool>,
    node: Words,
) -> bool
    decreases path.len(),
{
    if path.len() == 0 {
        node == leaf
    } else {
        exists|below: Words|
            climbs(compress, leaf, path.drop_last(), locs.drop_last(), below) && (
            #[trigger] compress.ensures(ordered(below, path.last(), locs.last()), node))
    }
}

/// The root of the Merkle tree above `leaf`: the siblings of `path`, from the
/// leaf upwards, are compressed with the running node, the sibling first
/// where the direction bit is set. `None` exactly where the path and the
/// direction bits differ in length.
pub fn merkle_root<F: Fn(Words, Words) -> Words>(
    leaf: Words,
    path: &Vec<Words>,
    locs: &Vec<bool>,
    compress: F,
) -> (r: Option<Words>)
    requires
        forall|left: Words, right: Words| compress.requires((left, right)),
    ensures
        r.is_some() <==> path@.len() == locs@.len(),
        r.is_some() ==> climbs(compress, leaf, path@, locs@, r.unwrap()),
{
    if path.len() != locs.len() {
        return None;
    }
    let mut node: Words = leaf;
    let mut i: usize = 0;
    assert(path@.take(0) =~= Seq::<Words>::empty());
    while i < path.len()
        invariant
            i <= path@.len(),
            path@.len() == locs@.len(),
            forall|left: Words, right: Words| compress.requires((left, right)),
            climbs(compress, leaf, path@.take(i as int), locs@.take(i as int), node),
        decreases path@.len() - i,
    {
        let ghost below = node;
        let sibling: Words = path[i];
        node = if locs[i] { compress(sibling, node) } else { compress(node, sibling) };
        proof {
            let p = path@.take(i + 1);
            let l = locs@.take(i + 1);
            assert(p.drop_last() =~= path@.take(i as int));
            assert(l.drop_last() =~= locs@.take(i as int));
            assert(p.last() == sibling);
            assert(l.last() == locs@[i as int]);
            assert(climbs(compress, leaf, p.drop_last(), l.drop_last(), below));
            assert(compress.ensures(ordered(below, p.last(), l.last()), node));
            assert(climbs(compress, leaf, p, l, node));
        }
        i = i + 1;
    }
    assert(path@.take(path@.len() as int) =~= path@);
    assert(locs@.take(locs@.len() as int) =~= locs@);
    Some(node)
}

} // verus!
