//! Lossless mapping between a vector of 32-bit components and the flat
//! little-endian byte buffer it is stored as. A component is held as the bit
//! pattern of its IEEE-754 single-precision value (`f32::to_bits`), so the
//! mapping is exact.
use vstd::prelude::*;

verus! {

/// Bytes per component.
pub const COMPONENT_BYTES: usize = 4;

/// Why a byte buffer is not a stored vector.
#[derive(Debug, PartialEq, Eq, Structural, Clone, Copy)]
pub enum CodecError {
    /// The byte length is not a multiple of the component width.
    MalformedVectorBytes,
}

/// Byte `k` (0 = least significant) of `w`.
pub open spec fn byte_of(w: u32, k: int) -> u8 {
    ((w >> ((8 * k) as u32)) & 0xff) as u8
}

/// The word whose little-endian bytes are `b0 b1 b2 b3`.
pub open spec fn word_of(b0: u8, b1: u8, b2: u8, b3: u8) -> u32 {
    (b0 as u32) | ((b1 as u32) << 8) | ((b2 as u32) << 16) | ((b3 as u32) << 24)
}

/// The stored form of `v`: four little-endian bytes per component, in order.
pub open spec fn stored_bytes(v: Seq<u32>) -> Seq<u8> {
    Seq::new(4 * v.len(), |j: int| byte_of(v[j / 4], j % 4))
}

/// The components held by `b`, four little-endian bytes each; meaningful
/// when the length of `b` is a multiple of four.
pub open spec fn stored_vector(b: Seq<u8>) -> Seq<u32> {
    Seq::new(b.len() / 4, |i: int| word_of(b[4 * i], b[4 * i + 1], b[4 * i + 2], b[4 * i + 3]))
}

/// A buffer that holds a whole number of components.
pub open spec fn well_formed(b: Seq<u8>) -> bool {
    b.len() % 4 == 0
}

proof fn lemma_word_bytes(w: u32)
    ensures
        word_of(byte_of(w, 0), byte_of(w, 1), byte_of(w, 2), byte_of(w, 3)) == w,
{
    assert(((w >> 0u32) & 0xff) as u8 as u32 | (((w >> 8u32) & 0xff) as u8 as u32) << 8 | (((w
        >> 16u32) & 0xff) as u8 as u32) << 16 | (((w >> 24u32) & 0xff) as u8 as u32) << 24 == w)
        by (bit_vector);
}

/// Reading back what was stored gives the vector exactly.
pub proof fn lemma_round_trip(v: Seq<u32>)
    ensures
        well_formed(stored_bytes(v)),
        stored_vector(stored_bytes(v)) == v,
{
    let b = stored_bytes(v);
    assert(b.len() / 4 == v.len()) by (nonlinear_arith)
        requires
            b.len() == 4 * v.len(),
    ;
    assert forall|i: int| 0 <= i < v.len() implies #[trigger] stored_vector(b)[i] == v[i] by {
        assert(0 <= 4 * i + 3 < b.len()) by (nonlinear_arith)
            requires
                0 <= i < v.len(),
                b.len() == 4 * v.len(),
        ;
        assert((4 * i) / 4 == i && (4 * i) % 4 == 0 && (4 * i + 1) / 4 == i && (4 * i + 1) % 4 == 1
            && (4 * i + 2) / 4 == i && (4 * i + 2) % 4 == 2 && (4 * i + 3) / 4 == i && (4 * i + 3)
            % 4 == 3) by (nonlinear_arith);
        assert(b[4 * i] == byte_of(v[i], 0));
        assert(b[4 * i + 1] == byte_of(v[i], 1));
        assert(b[4 * i + 2] == byte_of(v[i], 2));
        assert(b[4 * i + 3] == byte_of(v[i], 3));
        lemma_word_bytes(v[i]);
    }
    assert(stored_vector(b) =~= v);
}

/// The stored form of `v`.
pub fn vec_to_bytes(v: &Vec<u32>) -> (r: Vec<u8>)
    requires
        v.len() * 4 <= usize::MAX,
    ensures
        r@ == stored_bytes(v@),
{
    let mut r: Vec<u8> = Vec::new();
    let mut i: usize = 0;
    while i < v.len()
        invariant
            i <= v.len(),
            v.len() * 4 <= usize::MAX,
            r@ =~= stored_bytes(v@.take(i as int)),
        decreases v.len() - i,
    {
        let w = v[i];
        let ghost before = r@;
        r.push((w & 0xff) as u8);
        r.push(((w >> 8) & 0xff) as u8);
        r.push(((w >> 16) & 0xff) as u8);
        r.push(((w >> 24) & 0xff) as u8);
        proof {
            let t = v@.take(i + 1);
            assert(4 * (i + 1) == 4 * i + 4);
            assert forall|j: int| 0 <= j < 4 * (i + 1) implies #[trigger] r@[j] == stored_bytes(t)[j] by {
                assert(j / 4 <= i && (j < 4 * i ==> j / 4 < i)) by (nonlinear_arith)
                    requires
                        0 <= j < 4 * (i + 1),
                ;
                if j >= 4 * i {
                    assert(j / 4 == i && j % 4 == j - 4 * i) by (nonlinear_arith)
                        requires
                            4 * i <= j < 4 * i + 4,
                    ;
                    assert(t[j / 4] == w);
                    assert(byte_of(w, 0) == (w & 0xff) as u8) by (bit_vector);
                    assert(byte_of(w, 1) == ((w >> 8) & 0xff) as u8) by (bit_vector);
                    assert(byte_of(w, 2) == ((w >> 16) & 0xff) as u8) by (bit_vector);
                    assert(byte_of(w, 3) == ((w >> 24) & 0xff) as u8) by (bit_vector);
                } else {
                    assert(before[j] == stored_bytes(v@.take(i as int))[j]);
                    assert(t[j / 4] == v@.take(i as int)[j / 4]);
                }
            }
        }
        i = i + 1;
    }
    assert(v@.take(v.len() as int) =~= v@);
    r
}

/// The vector stored in `b`; a buffer whose length is not a multiple of four
/// is refused rather than cut short.
pub fn bytes_to_vec(b: &Vec<u8>) -> (r: Result<Vec<u32>, CodecError>)
    ensures
        match r {
            Ok(v) => well_formed(b@) && v@ == stored_vector(b@),
            Err(e) => !well_formed(b@) && e == CodecError::MalformedVectorBytes,
        },
{
    if b.len() % 4 != 0 {
        return Err(CodecError::MalformedVectorBytes);
    }
    let n = b.len() / 4;
    let mut v: Vec<u32> = Vec::new();
    let mut i: usize = 0;
    while i < n
        invariant
            i <= n,
            n == b.len() / 4,
            b.len() % 4 == 0,
            v@.len() == i,
            forall|k: int| 0 <= k < i ==> #[trigger] v@[k] == stored_vector(b@)[k],
        decreases n - i,
    {
        assert(4 * i + 3 < b.len()) by (nonlinear_arith)
            requires
                i < n,
                n == b.len() / 4,
        ;
        let w = (b[4 * i] as u32) | ((b[4 * i + 1] as u32) << 8) | ((b[4 * i + 2] as u32) << 16)
            | ((b[4 * i + 3] as u32) << 24);
        v.push(w);
        i = i + 1;
    }
    assert(v@ =~= stored_vector(b@));
    Ok(v)
}

} // verus!
