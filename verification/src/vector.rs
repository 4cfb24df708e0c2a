//! Binary encoding of embedding vectors for the vector index: each
//! 32-bit word becomes four little-endian bytes, flat, in order.  The
//! caller carries each embedding value as the bit pattern of its 32-bit
//! float, so the codec is exact and the round trip loses nothing.

use vstd::prelude::*;

verus! {

/// The four little-endian bytes of one 32-bit word.
pub open spec fn le_bytes(x: u32) -> Seq<u8> {
    seq![
        (x & 0xff) as u8,
        ((x >> 8) & 0xff) as u8,
        ((x >> 16) & 0xff) as u8,
        ((x >> 24) & 0xff) as u8,
    ]
}

/// A word vector as its flat little-endian byte buffer.
pub open spec fn spec_encode_vector(v: Seq<u32>) -> Seq<u8>
    decreases v.len(),
{
    if v.len() == 0 {
        Seq::empty()
    } else {
        le_bytes(v[0]) + spec_encode_vector(v.drop_first())
    }
}

/// The word read back from four little-endian bytes.
pub open spec fn word_of_le(b0: u8, b1: u8, b2: u8, b3: u8) -> u32 {
    (b0 as u32) | ((b1 as u32) << 8) | ((b2 as u32) << 16) | ((b3 as u32) << 24)
}

/// The byte buffer read back into words, four bytes at a time; a
/// trailing fragment shorter than four bytes is no word.
pub open spec fn spec_decode_vector(b: Seq<u8>) -> Seq<u32>
    decreases b.len(),
{
    if b.len() < 4 {
        Seq::empty()
    } else {
        seq![word_of_le(b[0], b[1], b[2], b[3])] + spec_decode_vector(b.skip(4))
    }
}

proof fn lemma_encode_push(v: Seq<u32>, x: u32)
    ensures
        spec_encode_vector(v.push(x)) == spec_encode_vector(v) + le_bytes(x),
    decreases v.len(),
{
    if v.len() == 0 {
        assert(v.push(x).drop_first() =~= v);
        assert(spec_encode_vector(v) == Seq::<u8>::empty());
        assert(spec_encode_vector(v.push(x)) =~= le_bytes(x));
        assert(spec_encode_vector(v) + le_bytes(x) =~= le_bytes(x));
    } else {
        assert(v.push(x).drop_first() =~= v.drop_first().push(x));
        lemma_encode_push(v.drop_first(), x);
        assert(v.push(x)[0] == v[0]);
        assert(spec_encode_vector(v.push(x))
            =~= spec_encode_vector(v) + le_bytes(x));
    }
}

/// Encodes a vector of 32-bit words as its flat little-endian byte
/// buffer, four bytes a word.
pub fn encode_vector(v: &Vec<u32>) -> (r: Vec<u8>)
    ensures
        r@ == spec_encode_vector(v@),
        r@.len() == 4 * v@.len(),
{
    let n = v.len();
    let mut out: Vec<u8> = Vec::new();
    let mut i: usize = 0;
    #[verifier::loop_isolation(false)]
    while i < n
        invariant
            i <= n,
            out@ == spec_encode_vector(v@.take(i as int)),
            out@.len() == 4 * i,
        decreases n - i,
    {
        let x = v[i];
        proof {
            assert(x & 0xff <= 0xff) by (bit_vector);
            assert((x >> 8) & 0xff <= 0xff) by (bit_vector);
            assert((x >> 16) & 0xff <= 0xff) by (bit_vector);
            assert((x >> 24) & 0xff <= 0xff) by (bit_vector);
            assert(v@.take(i + 1) =~= v@.take(i as int).push(x));
            lemma_encode_push(v@.take(i as int), x);
        }
        out.push((x & 0xff) as u8);
        out.push(((x >> 8) & 0xff) as u8);
        out.push(((x >> 16) & 0xff) as u8);
        out.push(((x >> 24) & 0xff) as u8);
        proof {
            assert(out@ =~= spec_encode_vector(v@.take(i as int)) + le_bytes(x));
        }
        i = i + 1;
    }
    proof {
        assert(v@.take(n as int) =~= v@);
    }
    out
}

/// Reads a flat little-endian byte buffer back into its words; a buffer
/// whose length is no multiple of four decodes to nothing.
pub fn decode_vector(b: &Vec<u8>) -> (r: Option<Vec<u32>>)
    ensures
        (r is Some) == (b@.len() % 4 == 0),
        r matches Some(v) ==> v@ == spec_decode_vector(b@),
{
    let n = b.len();
    if n % 4 != 0 {
        return None;
    }
    let mut out: Vec<u32> = Vec::new();
    let mut i: usize = 0;
    proof {
        assert(b@.skip(0) =~= b@);
        assert(Seq::<u32>::empty() + spec_decode_vector(b@) =~= spec_decode_vector(b@));
    }
    #[verifier::loop_isolation(false)]
    while i < n
        invariant
            i <= n,
            i % 4 == 0,
            spec_decode_vector(b@) == out@ + spec_decode_vector(b@.skip(i as int)),
        decreases n - i,
    {
        assert(i + 4 <= n);
        let w = (b[i] as u32)
            | ((b[i + 1] as u32) << 8)
            | ((b[i + 2] as u32) << 16)
            | ((b[i + 3] as u32) << 24);
        proof {
            let rest = b@.skip(i as int);
            assert(rest.len() >= 4);
            assert(rest[0] == b@[i as int]);
            assert(rest[1] == b@[i + 1]);
            assert(rest[2] == b@[i + 2]);
            assert(rest[3] == b@[i + 3]);
            assert(rest.skip(4) =~= b@.skip(i + 4));
            assert(spec_decode_vector(rest)
                == seq![word_of_le(rest[0], rest[1], rest[2], rest[3])]
                    + spec_decode_vector(b@.skip(i + 4)));
        }
        let ghost prev = out@;
        out.push(w);
        proof {
            assert(out@ =~= prev.push(w));
            assert(prev + spec_decode_vector(b@.skip(i as int))
                =~= out@ + spec_decode_vector(b@.skip(i + 4)));
        }
        i = i + 4;
    }
    proof {
        assert(b@.skip(n as int).len() == 0);
        assert(out@ + spec_decode_vector(b@.skip(n as int)) =~= out@);
    }
    Some(out)
}

proof fn lemma_word_round_trip(x: u32)
    ensures
        word_of_le(
            (x & 0xff) as u8,
            ((x >> 8) & 0xff) as u8,
            ((x >> 16) & 0xff) as u8,
            ((x >> 24) & 0xff) as u8,
        ) == x,
{
    assert((((x & 0xff) as u8) as u32)
        | (((((x >> 8) & 0xff) as u8) as u32) << 8)
        | (((((x >> 16) & 0xff) as u8) as u32) << 16)
        | (((((x >> 24) & 0xff) as u8) as u32) << 24) == x) by (bit_vector);
}

proof fn lemma_byte_round_trip(b0: u8, b1: u8, b2: u8, b3: u8)
    ensures
        le_bytes(word_of_le(b0, b1, b2, b3)) == seq![b0, b1, b2, b3],
{
    let x = word_of_le(b0, b1, b2, b3);
    assert(((b0 as u32) | ((b1 as u32) << 8) | ((b2 as u32) << 16) | ((b3 as u32) << 24))
        & 0xff == b0 as u32) by (bit_vector);
    assert((((b0 as u32) | ((b1 as u32) << 8) | ((b2 as u32) << 16) | ((b3 as u32) << 24))
        >> 8) & 0xff == b1 as u32) by (bit_vector);
    assert((((b0 as u32) | ((b1 as u32) << 8) | ((b2 as u32) << 16) | ((b3 as u32) << 24))
        >> 16) & 0xff == b2 as u32) by (bit_vector);
    assert((((b0 as u32) | ((b1 as u32) << 8) | ((b2 as u32) << 16) | ((b3 as u32) << 24))
        >> 24) & 0xff == b3 as u32) by (bit_vector);
    assert(le_bytes(x) =~= seq![b0, b1, b2, b3]);
}

/// Encoding a vector and decoding the buffer back yields the original
/// vector exactly — nothing is lost in the byte round trip.
pub proof fn lemma_vector_round_trip(v: Seq<u32>)
    ensures
        spec_encode_vector(v).len() == 4 * v.len(),
        spec_decode_vector(spec_encode_vector(v)) == v,
    decreases v.len(),
{
    if v.len() == 0 {
    } else {
        let e = spec_encode_vector(v);
        lemma_vector_round_trip(v.drop_first());
        lemma_word_round_trip(v[0]);
        assert(e.skip(4) =~= spec_encode_vector(v.drop_first()));
        assert(e[0] == (v[0] & 0xff) as u8);
        assert(spec_decode_vector(e) =~= seq![v[0]] + v.drop_first());
        assert(seq![v[0]] + v.drop_first() =~= v);
    }
}

/// Decoding a well-sized buffer and encoding the words back yields the
/// original buffer exactly.
pub proof fn lemma_buffer_round_trip(b: Seq<u8>)
    requires
        b.len() % 4 == 0,
    ensures
        spec_encode_vector(spec_decode_vector(b)) == b,
    decreases b.len(),
{
    if b.len() >= 4 {
        let d = spec_decode_vector(b);
        lemma_buffer_round_trip(b.skip(4));
        lemma_byte_round_trip(b[0], b[1], b[2], b[3]);
        assert(d.drop_first() =~= spec_decode_vector(b.skip(4)));
        assert(spec_encode_vector(d) =~= le_bytes(d[0]) + spec_encode_vector(d.drop_first()));
        assert(le_bytes(d[0]) + b.skip(4) =~= b);
    }
}

} // verus!
