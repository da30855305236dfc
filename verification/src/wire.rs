//! The wire format of proofs. A proof is three curve points. On the wire a
//! point is its coordinates, each six little-endian 64-bit words, and a flag
//! for the point at infinity. The curve library reads and writes a point as
//! bytes: each coordinate as 48 big-endian bytes, the flags in the three top
//! bits of the first byte.

use vstd::prelude::*;

verus! {

/// One coordinate: six little-endian 64-bit words.
pub type Coordinate = [u64; 6];

/// A point of the first group: `x`, `y`, and whether it is the point at
/// infinity.
pub type G1Wire = (Coordinate, Coordinate, bool);

/// A point of the second group, whose coordinates have two components each:
/// `(x.c0, x.c1)`, `(y.c0, y.c1)`, and whether it is the point at infinity.
pub type G2Wire = ((Coordinate, Coordinate), (Coordinate, Coordinate), bool);

/// A proof: a point of the first group, one of the second, one of the first.
pub type ProofWire = (G1Wire, G2Wire, G1Wire);

/// Byte `k` of a word, the most significant first.
pub open spec fn word_byte(w: u64, k: int) -> u8 {
    if k == 0 {
        ((w >> 56) & 0xff) as u8
    } else if k == 1 {
        ((w >> 48) & 0xff) as u8
    } else if k == 2 {
        ((w >> 40) & 0xff) as u8
    } else if k == 3 {
        ((w >> 32) & 0xff) as u8
    } else if k == 4 {
        ((w >> 24) & 0xff) as u8
    } else if k == 5 {
        ((w >> 16) & 0xff) as u8
    } else if k == 6 {
        ((w >> 8) & 0xff) as u8
    } else {
        (w & 0xff) as u8
    }
}

/// The word of eight bytes, the most significant first.
pub open spec fn word_of(b0: u8, b1: u8, b2: u8, b3: u8, b4: u8, b5: u8, b6: u8, b7: u8) -> u64 {
    ((b0 as u64) << 56) | ((b1 as u64) << 48) | ((b2 as u64) << 40) | ((b3 as u64) << 32) | ((
    b4 as u64) << 24) | ((b5 as u64) << 16) | ((b6 as u64) << 8) | (b7 as u64)
}

/// The word that the eight bytes from `at` on hold.
pub open spec fn bytes_word(b: Seq<u8>, at: int) -> u64 {
    word_of(b[at], b[at + 1], b[at + 2], b[at + 3], b[at + 4], b[at + 5], b[at + 6], b[at + 7])
}

/// A word is the word of its bytes.
pub proof fn lemma_word_of_its_bytes(w: u64)
    by (bit_vector)
    ensures
        word_of(
            ((w >> 56) & 0xff) as u8,
            ((w >> 48) & 0xff) as u8,
            ((w >> 40) & 0xff) as u8,
            ((w >> 32) & 0xff) as u8,
            ((w >> 24) & 0xff) as u8,
            ((w >> 16) & 0xff) as u8,
            ((w >> 8) & 0xff) as u8,
            (w & 0xff) as u8,
        ) == w,
{
}

/// The bytes of the word of eight bytes are those bytes.
pub proof fn lemma_bytes_of_word(b0: u8, b1: u8, b2: u8, b3: u8, b4: u8, b5: u8, b6: u8, b7: u8)
    by (bit_vector)
    ensures
        ({
            let w = word_of(b0, b1, b2, b3, b4, b5, b6, b7);
            &&& ((w >> 56) & 0xff) as u8 == b0
            &&& ((w >> 48) & 0xff) as u8 == b1
            &&& ((w >> 40) & 0xff) as u8 == b2
            &&& ((w >> 32) & 0xff) as u8 == b3
            &&& ((w >> 24) & 0xff) as u8 == b4
            &&& ((w >> 16) & 0xff) as u8 == b5
            &&& ((w >> 8) & 0xff) as u8 == b6
            &&& (w & 0xff) as u8 == b7
        }),
{
}

/// Each byte of a word fits a byte.
pub proof fn lemma_byte_range(w: u64)
    by (bit_vector)
    ensures
        (w >> 56) & 0xff <= 0xff,
        (w >> 48) & 0xff <= 0xff,
        (w >> 40) & 0xff <= 0xff,
        (w >> 32) & 0xff <= 0xff,
        (w >> 24) & 0xff <= 0xff,
        (w >> 16) & 0xff <= 0xff,
        (w >> 8) & 0xff <= 0xff,
        w & 0xff <= 0xff,
{
}

/// The flag bit of the point at infinity, in the first byte of a point.
pub open spec fn flag_bits(infinity: bool) -> u8 {
    if infinity {
        0x40
    } else {
        0
    }
}

/// The top three bits of the first coordinate are free for the flags.
pub open spec fn encodable(coords: Seq<Coordinate>) -> bool {
    coords.len() > 0 && coords[0][5] < 0x2000_0000_0000_0000
}

/// The bytes of a point: each coordinate in turn as 48 big-endian bytes, and
/// the infinity flag in the first byte.
pub open spec fn point_bytes(coords: Seq<Coordinate>, infinity: bool) -> Seq<u8> {
    Seq::new(
        48 * coords.len(),
        |i: int|
            {
                let byte = word_byte(coords[i / 48][5 - (i % 48) / 8], i % 8);
                if i == 0 {
                    byte | flag_bits(infinity)
                } else {
                    byte
                }
            },
    )
}

/// The bytes have the length of `n` coordinates, and neither the flag of a
/// compressed point nor that of its sign is set.
pub open spec fn well_flagged(b: Seq<u8>, n: nat) -> bool {
    n > 0 && b.len() == 48 * n && b[0] & 0xa0 == 0
}

/// Appends the eight bytes of `w`, the most significant first, with `flags`
/// set in the first of them.
fn push_word(out: &mut Vec<u8>, w: u64, flags: u8)
    ensures
        final(out)@.len() == old(out)@.len() + 8,
        forall|i: int| 0 <= i < old(out)@.len() ==> final(out)@[i] == old(out)@[i],
        final(out)@[old(out)@.len() as int] == word_byte(w, 0) | flags,
        forall|k: int| 1 <= k < 8 ==> final(out)@[old(out)@.len() + k] == word_byte(w, k),
{
    proof {
        lemma_byte_range(w);
    }
    out.push((((w >> 56) & 0xff) as u8) | flags);
    out.push(((w >> 48) & 0xff) as u8);
    out.push(((w >> 40) & 0xff) as u8);
    out.push(((w >> 32) & 0xff) as u8);
    out.push(((w >> 24) & 0xff) as u8);
    out.push(((w >> 16) & 0xff) as u8);
    out.push(((w >> 8) & 0xff) as u8);
    out.push((w & 0xff) as u8);
}

/// The word that the eight bytes from `at` on hold.
fn read_word(b: &Vec<u8>, at: usize) -> (w: u64)
    requires
        at + 8 <= b@.len(),
    ensures
        w == bytes_word(b@, at as int),
{
    let len: usize = b.len();
    assert(at + 8 <= len);
    let b0: u64 = b[at] as u64;
    let b1: u64 = b[at + 1] as u64;
    let b2: u64 = b[at + 2] as u64;
    let b3: u64 = b[at + 3] as u64;
    let b4: u64 = b[at + 4] as u64;
    let b5: u64 = b[at + 5] as u64;
    let b6: u64 = b[at + 6] as u64;
    let b7: u64 = b[at + 7] as u64;
    (b0 << 56) | (b1 << 48) | (b2 << 40) | (b3 << 32) | (b4 << 24) | (b5 << 16) | (b6 << 8) | b7
}

/// Facts about the first byte of a point and the word that begins with it.
pub proof fn lemma_flag_byte(b0: u8, b1: u8, b2: u8, b3: u8, b4: u8, b5: u8, b6: u8, b7: u8)
    by (bit_vector)
    requires
        b0 & 0xa0 == 0,
    ensures
        ({
            let w = word_of(b0, b1, b2, b3, b4, b5, b6, b7) & 0x1fff_ffff_ffff_ffff;
            &&& w < 0x2000_0000_0000_0000
            &&& (((w >> 56) & 0xff) as u8) | (if b0 & 0x40 != 0 {
                0x40u8
            } else {
                0u8
            }) == b0
            &&& ((w >> 48) & 0xff) as u8 == b1
            &&& ((w >> 40) & 0xff) as u8 == b2
            &&& ((w >> 32) & 0xff) as u8 == b3
            &&& ((w >> 24) & 0xff) as u8 == b4
            &&& ((w >> 16) & 0xff) as u8 == b5
            &&& ((w >> 8) & 0xff) as u8 == b6
            &&& (w & 0xff) as u8 == b7
        }),
{
}

/// Setting the infinity flag in the top byte of an encodable word changes
/// nothing else, and the word and the flag can be read back.
pub proof fn lemma_flag_word(w: u64, infinity: bool)
    by (bit_vector)
    requires
        w < 0x2000_0000_0000_0000,
    ensures
        ({
            let b0 = (((w >> 56) & 0xff) as u8) | (if infinity {
                0x40u8
            } else {
                0u8
            });
            &&& b0 & 0xa0 == 0
            &&& (b0 & 0x40 != 0) == infinity
            &&& word_of(
                b0,
                ((w >> 48) & 0xff) as u8,
                ((w >> 40) & 0xff) as u8,
                ((w >> 32) & 0xff) as u8,
                ((w >> 24) & 0xff) as u8,
                ((w >> 16) & 0xff) as u8,
                ((w >> 8) & 0xff) as u8,
                (w & 0xff) as u8,
            ) & 0x1fff_ffff_ffff_ffff == w
        }),
{
}

/// Word `w` (little endian) of coordinate `j`, as read from the bytes of a
/// point: the flags are masked out of the first word.
pub open spec fn decoded_word(b: Seq<u8>, j: int, w: int) -> u64 {
    let raw = bytes_word(b, 48 * j + 8 * (5 - w));
    if j == 0 && w == 5 {
        raw & 0x1fff_ffff_ffff_ffff
    } else {
        raw
    }
}

/// Whether the bytes of a point have the infinity flag set.
pub open spec fn decoded_infinity(b: Seq<u8>) -> bool {
    b[0] & 0x40 != 0
}

/// The coordinates are those that the bytes of a point hold.
#[verifier::opaque]
pub open spec fn decoded(b: Seq<u8>, coords: Seq<Coordinate>) -> bool {
    forall|j: int, w: int|
        0 <= j < coords.len() && 0 <= w < 6 ==> (#[trigger] coords[j][w]) == decoded_word(b, j, w)
}

/// Reading the bytes of an encodable point gives the point back.
pub proof fn lemma_decode_encode(coords: Seq<Coordinate>, infinity: bool)
    requires
        encodable(coords),
    ensures
        well_flagged(point_bytes(coords, infinity), coords.len()),
        decoded(point_bytes(coords, infinity), coords),
        decoded_infinity(point_bytes(coords, infinity)) == infinity,
{
    let b = point_bytes(coords, infinity);
    lemma_flag_word(coords[0][5], infinity);
    assert(decoded(b, coords)) by {
        reveal(decoded);
        assert forall|j: int, w: int| 0 <= j < coords.len() && 0 <= w < 6 implies (
        #[trigger] coords[j][w]) == decoded_word(b, j, w) by {
            let at = 48 * j + 8 * (5 - w);
            let word = coords[j][w];
            assert forall|k: int| 0 <= k < 8 && at + k != 0 implies b[at + k] == word_byte(
                word,
                k,
            ) by {
                assert((at + k) / 48 == j);
                assert(5 - ((at + k) % 48) / 8 == w);
                assert((at + k) % 8 == k);
            }
            if j == 0 && w == 5 {
                assert(at == 0);
                assert(b[0] == word_byte(word, 0) | flag_bits(infinity));
            } else {
                lemma_word_of_its_bytes(word);
            }
        }
    }
}

/// Or-ing nothing into a byte leaves it.
pub proof fn lemma_no_flags(b: u8)
    by (bit_vector)
    ensures
        b | 0 == b,
{
}

/// The bytes of a point, or `None` where the first coordinate leaves no room
/// for the flags (or there is no coordinate).
pub fn encode_point(coords: &Vec<Coordinate>, infinity: bool) -> (r: Option<Vec<u8>>)
    ensures
        r.is_some() <==> encodable(coords@),
        r.is_some() ==> r.unwrap()@ == point_bytes(coords@, infinity),
{
    if coords.len() == 0 {
        return None;
    }
    let first: Coordinate = coords[0];
    if first[5] >= 0x2000_0000_0000_0000 {
        return None;
    }
    let flags: u8 = if infinity { 0x40 } else { 0 };
    let ghost want = point_bytes(coords@, infinity);
    let mut out: Vec<u8> = Vec::new();
    let mut j: usize = 0;
    while j < coords.len()
        invariant
            j <= coords@.len(),
            out@.len() == 48 * j,
            flags == flag_bits(infinity),
            want == point_bytes(coords@, infinity),
            forall|i: int| 0 <= i < 48 * j ==> out@[i] == want[i],
        decreases coords@.len() - j,
    {
        let c: Coordinate = coords[j];
        let mut w: usize = 0;
        while w < 6
            invariant
                w <= 6,
                j < coords@.len(),
                c == coords@[j as int],
                out@.len() == 48 * j + 8 * w,
                flags == flag_bits(infinity),
                want == point_bytes(coords@, infinity),
                forall|i: int| 0 <= i < 48 * j + 8 * w ==> out@[i] == want[i],
            decreases 6 - w,
        {
            let f: u8 = if j == 0 && w == 0 { flags } else { 0 };
            let ghost before = out@;
            let word: u64 = c[5 - w];
            push_word(&mut out, word, f);
            proof {
                let at = 48 * j + 8 * w;
                lemma_no_flags(word_byte(word, 0));
                assert forall|i: int| 0 <= i < at + 8 implies out@[i] == want[i] by {
                    if i >= at {
                        let k = i - at;
                        assert(i / 48 == j);
                        assert((i % 48) / 8 == w);
                        assert(i % 8 == k);
                        if k >= 1 {
                            assert(out@[before.len() + k] == word_byte(word, k));
                        }
                    } else {
                        assert(out@[i] == before[i]);
                    }
                }
            }
            w = w + 1;
        }
        j = j + 1;
    }
    assert(out@ =~= want);
    Some(out)
}

/// The point of `n` coordinates that the bytes hold, or `None` where the
/// length is not that of `n` coordinates or a flag other than that of
/// infinity is set. Encoding the result gives the bytes back.
pub fn decode_point(b: &Vec<u8>, n: usize) -> (r: Option<(Vec<Coordinate>, bool)>)
    ensures
        r.is_some() <==> well_flagged(b@, n as nat),
        r.is_some() ==> r.unwrap().0@.len() == n,
        r.is_some() ==> decoded(b@, r.unwrap().0@),
        r.is_some() ==> r.unwrap().1 == decoded_infinity(b@),
        r.is_some() ==> encodable(r.unwrap().0@),
        r.is_some() ==> point_bytes(r.unwrap().0@, r.unwrap().1) == b@,
{
    let len: usize = b.len();
    if n == 0 || len % 48 != 0 || len / 48 != n {
        return None;
    }
    if b[0] & 0xa0 != 0 {
        return None;
    }
    let infinity: bool = b[0] & 0x40 != 0;
    let mut coords: Vec<Coordinate> = Vec::new();
    let mut j: usize = 0;
    assert(decoded(b@, coords@)) by {
        reveal(decoded);
    }
    while j < n
        invariant
            j <= n,
            len == 48 * n,
            len == b@.len(),
            coords@.len() == j,
            decoded(b@, coords@),
        decreases n - j,
    {
        let at: usize = 48 * j;
        let raw: u64 = read_word(b, at);
        let top: u64 = if j == 0 { raw & 0x1fff_ffff_ffff_ffff } else { raw };
        let c: Coordinate = [
            read_word(b, at + 40),
            read_word(b, at + 32),
            read_word(b, at + 24),
            read_word(b, at + 16),
            read_word(b, at + 8),
            top,
        ];
        let ghost before = coords@;
        coords.push(c);
        assert(decoded(b@, coords@)) by {
            reveal(decoded);
            assert forall|jj: int, w: int| 0 <= jj < coords@.len() && 0 <= w < 6 implies (
            #[trigger] coords@[jj][w]) == decoded_word(b@, jj, w) by {
                if jj < j {
                    assert(coords@[jj] == before[jj]);
                    assert(before[jj][w] == decoded_word(b@, jj, w));
                }
            }
        }
        j = j + 1;
    }
    proof {
        let s = b@;
        let got = point_bytes(coords@, infinity);
        lemma_flag_byte(s[0], s[1], s[2], s[3], s[4], s[5], s[6], s[7]);
        assert(coords@[0][5] == decoded_word(s, 0, 5)) by {
            reveal(decoded);
        }
        assert(got =~= s) by {
            reveal(decoded);
            assert forall|i: int| 0 <= i < s.len() implies got[i] == s[i] by {
                let jj = i / 48;
                let w = 5 - (i % 48) / 8;
                let k = i % 8;
                let at = 48 * jj + 8 * (5 - w);
                assert(i == at + k);
                assert(coords@[jj][w] == decoded_word(s, jj, w));
                lemma_bytes_of_word(
                    s[at],
                    s[at + 1],
                    s[at + 2],
                    s[at + 3],
                    s[at + 4],
                    s[at + 5],
                    s[at + 6],
                    s[at + 7],
                );
            }
        }
    }
    Some((coords, infinity))
}

/// The coordinates of a point of the first group in the order of its bytes:
/// `x`, `y`.
pub open spec fn g1_coords(p: G1Wire) -> Seq<Coordinate> {
    seq![p.0, p.1]
}

/// The coordinates of a point of the second group in the order of its bytes:
/// `x.c1`, `x.c0`, `y.c1`, `y.c0`.
pub open spec fn g2_coords(p: G2Wire) -> Seq<Coordinate> {
    seq![p.0.1, p.0.0, p.1.1, p.1.0]
}

/// The bytes of the three points of a proof, as the curve library reads them.
#[derive(Debug)]
pub struct ProofBytes {
    pub a: Vec<u8>,
    pub b: Vec<u8>,
    pub c: Vec<u8>,
}

/// Every point of the proof leaves room for the flags.
pub open spec fn proof_encodable(proof: ProofWire) -> bool {
    &&& encodable(g1_coords(proof.0))
    &&& encodable(g2_coords(proof.1))
    &&& encodable(g1_coords(proof.2))
}

/// The bytes are those of the proof.
pub open spec fn holds_proof(bytes: ProofBytes, proof: ProofWire) -> bool {
    &&& bytes.a@ == point_bytes(g1_coords(proof.0), proof.0.2)
    &&& bytes.b@ == point_bytes(g2_coords(proof.1), proof.1.2)
    &&& bytes.c@ == point_bytes(g1_coords(proof.2), proof.2.2)
}

/// The three byte strings have the lengths of two, four and two coordinates
/// and no flag but that of infinity.
pub open spec fn proof_well_flagged(bytes: ProofBytes) -> bool {
    &&& well_flagged(bytes.a@, 2)
    &&& well_flagged(bytes.b@, 4)
    &&& well_flagged(bytes.c@, 2)
}

/// A point is determined by its bytes.
pub proof fn lemma_point_bytes_injective(
    first: Seq<Coordinate>,
    first_infinity: bool,
    second: Seq<Coordinate>,
    second_infinity: bool,
)
    requires
        encodable(first),
        encodable(second),
        point_bytes(first, first_infinity) == point_bytes(second, second_infinity),
    ensures
        first == second,
        first_infinity == second_infinity,
{
    lemma_decode_encode(first, first_infinity);
    lemma_decode_encode(second, second_infinity);
    let b = point_bytes(first, first_infinity);
    assert(first.len() == second.len()) by {
        assert(b.len() == 48 * first.len());
        assert(b.len() == 48 * second.len());
    }
    assert forall|j: int| 0 <= j < first.len() implies first[j] == second[j] by {
        assert forall|w: int| 0 <= w < 6 implies first[j][w] == second[j][w] by {
            reveal(decoded);
            assert(first[j][w] == decoded_word(b, j, w));
            assert(second[j][w] == decoded_word(b, j, w));
        }
        assert(first[j] =~= second[j]);
    }
    assert(first =~= second);
}

/// A proof on the wire is determined by the bytes of its points: reading the
/// bytes of a proof gives that proof and no other.
pub proof fn lemma_proof_round_trip(bytes: ProofBytes, first: ProofWire, second: ProofWire)
    requires
        proof_encodable(first),
        proof_encodable(second),
        holds_proof(bytes, first),
        holds_proof(bytes, second),
    ensures
        first == second,
{
    lemma_point_bytes_injective(g1_coords(first.0), first.0.2, g1_coords(second.0), second.0.2);
    lemma_point_bytes_injective(g2_coords(first.1), first.1.2, g2_coords(second.1), second.1.2);
    lemma_point_bytes_injective(g1_coords(first.2), first.2.2, g1_coords(second.2), second.2.2);
    assert(g1_coords(first.0)[0] == g1_coords(second.0)[0]);
    assert(g1_coords(first.0)[1] == g1_coords(second.0)[1]);
    assert(g2_coords(first.1)[0] == g2_coords(second.1)[0]);
    assert(g2_coords(first.1)[1] == g2_coords(second.1)[1]);
    assert(g2_coords(first.1)[2] == g2_coords(second.1)[2]);
    assert(g2_coords(first.1)[3] == g2_coords(second.1)[3]);
    assert(g1_coords(first.2)[0] == g1_coords(second.2)[0]);
    assert(g1_coords(first.2)[1] == g1_coords(second.2)[1]);
}

/// The bytes of a point of the first group.
fn g1_to_bytes(p: &G1Wire) -> (r: Option<Vec<u8>>)
    ensures
        r.is_some() <==> encodable(g1_coords(*p)),
        r.is_some() ==> r.unwrap()@ == point_bytes(g1_coords(*p), p.2),
{
    let mut coords: Vec<Coordinate> = Vec::new();
    coords.push(p.0);
    coords.push(p.1);
    assert(coords@ =~= g1_coords(*p));
    encode_point(&coords, p.2)
}

/// The bytes of a point of the second group.
fn g2_to_bytes(p: &G2Wire) -> (r: Option<Vec<u8>>)
    ensures
        r.is_some() <==> encodable(g2_coords(*p)),
        r.is_some() ==> r.unwrap()@ == point_bytes(g2_coords(*p), p.2),
{
    let mut coords: Vec<Coordinate> = Vec::new();
    coords.push(p.0.1);
    coords.push(p.0.0);
    coords.push(p.1.1);
    coords.push(p.1.0);
    assert(coords@ =~= g2_coords(*p));
    encode_point(&coords, p.2)
}

/// The point of the first group that the bytes hold.
fn g1_from_bytes(b: &Vec<u8>) -> (r: Option<G1Wire>)
    ensures
        r.is_some() <==> well_flagged(b@, 2),
        r.is_some() ==> encodable(g1_coords(r.unwrap())) && point_bytes(
            g1_coords(r.unwrap()),
            r.unwrap().2,
        ) == b@,
{
    match decode_point(b, 2) {
        Some((coords, infinity)) => {
            let x: Coordinate = coords[0];
            let y: Coordinate = coords[1];
            let p: G1Wire = (x, y, infinity);
            assert(g1_coords(p) == coords@) by {
                assert(coords@.len() == 2);
                assert(g1_coords(p) =~= seq![x, y]);
                assert(coords@ =~= seq![x, y]);
            }
            Some(p)
        },
        None => None,
    }
}

/// The point of the second group that the bytes hold.
fn g2_from_bytes(b: &Vec<u8>) -> (r: Option<G2Wire>)
    ensures
        r.is_some() <==> well_flagged(b@, 4),
        r.is_some() ==> encodable(g2_coords(r.unwrap())) && point_bytes(
            g2_coords(r.unwrap()),
            r.unwrap().2,
        ) == b@,
{
    match decode_point(b, 4) {
        Some((coords, infinity)) => {
            let x1: Coordinate = coords[0];
            let x0: Coordinate = coords[1];
            let y1: Coordinate = coords[2];
            let y0: Coordinate = coords[3];
            let p: G2Wire = ((x0, x1), (y0, y1), infinity);
            assert(g2_coords(p) == coords@) by {
                assert(coords@.len() == 4);
                assert(g2_coords(p) =~= seq![x1, x0, y1, y0]);
                assert(coords@ =~= seq![x1, x0, y1, y0]);
            }
            Some(p)
        },
        None => None,
    }
}

/// The bytes of the three points of a proof, to hand to the curve library.
/// `None` exactly where a point leaves no room for the flags.
pub fn proof_to_bytes(proof: &ProofWire) -> (r: Option<ProofBytes>)
    ensures
        r.is_some() <==> proof_encodable(*proof),
        r.is_some() ==> holds_proof(r.unwrap(), *proof) && proof_well_flagged(r.unwrap()),
{
    let a = match g1_to_bytes(&proof.0) {
        Some(a) => a,
        None => {
            return None;
        },
    };
    let b = match g2_to_bytes(&proof.1) {
        Some(b) => b,
        None => {
            return None;
        },
    };
    let c = match g1_to_bytes(&proof.2) {
        Some(c) => c,
        None => {
            return None;
        },
    };
    proof {
        lemma_decode_encode(g1_coords(proof.0), proof.0.2);
        lemma_decode_encode(g2_coords(proof.1), proof.1.2);
        lemma_decode_encode(g1_coords(proof.2), proof.2.2);
    }
    Some(ProofBytes { a, b, c })
}

/// The proof on the wire whose points have these bytes. `None` exactly where
/// a length is wrong or a flag other than that of infinity is set. The bytes
/// of the result are the bytes given, and the result is the one proof of
/// which that holds.
pub fn proof_from_bytes(bytes: &ProofBytes) -> (r: Option<ProofWire>)
    ensures
        r.is_some() <==> proof_well_flagged(*bytes),
        r.is_some() ==> proof_encodable(r.unwrap()) && holds_proof(*bytes, r.unwrap()),
        forall|proof: ProofWire|
            proof_encodable(proof) && #[trigger] holds_proof(*bytes, proof) ==> r == Some(proof),
{
    proof {
        assert forall|proof: ProofWire|
            proof_encodable(proof) && #[trigger] holds_proof(*bytes, proof) implies proof_well_flagged(
            *bytes,
        ) by {
            lemma_decode_encode(g1_coords(proof.0), proof.0.2);
            lemma_decode_encode(g2_coords(proof.1), proof.1.2);
            lemma_decode_encode(g1_coords(proof.2), proof.2.2);
        }
    }
    let a = match g1_from_bytes(&bytes.a) {
        Some(a) => a,
        None => {
            return None;
        },
    };
    let b = match g2_from_bytes(&bytes.b) {
        Some(b) => b,
        None => {
            return None;
        },
    };
    let c = match g1_from_bytes(&bytes.c) {
        Some(c) => c,
        None => {
            return None;
        },
    };
    let found: ProofWire = (a, b, c);
    proof {
        assert forall|proof: ProofWire|
            proof_encodable(proof) && #[trigger] holds_proof(*bytes, proof) implies found
            == proof by {
            lemma_proof_round_trip(*bytes, found, proof);
        }
    }
    Some(found)
}

} // verus!
