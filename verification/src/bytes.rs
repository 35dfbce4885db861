//! Verified helpers on byte buffers.

use vstd::prelude::*;

verus! {

/// Append a slice to the end of a buffer.
pub fn push_slice(out: &mut Vec<u8>, data: &[u8])
    ensures
        final(out)@ == old(out)@ + data@,
{
    let mut i: usize = 0;
    while i < data.len()
        invariant
            i <= data.len(),
            out@ == old(out)@ + data@.subrange(0, i as int),
        decreases data.len() - i,
    {
        out.push(data[i]);
        i = i + 1;
        proof {
            assert(out@ =~= old(out)@ + data@.subrange(0, i as int));
        }
    }
    proof {
        assert(out@ =~= old(out)@ + data@);
    }
}

/// The byte-wise exclusive or of two sequences of equal length.
pub open spec fn xor_seq(a: Seq<u8>, b: Seq<u8>) -> Seq<u8> {
    Seq::new(a.len(), |i: int| a[i] ^ b[i])
}

/// Exclusive-or two buffers of equal length, element by element.
pub fn xor_bytes(a: &[u8], b: &[u8]) -> (r: Vec<u8>)
    requires
        a@.len() == b@.len(),
    ensures
        r@ == xor_seq(a@, b@),
{
    let mut out: Vec<u8> = Vec::new();
    let mut i: usize = 0;
    while i < a.len()
        invariant
            i <= a@.len(),
            a@.len() == b@.len(),
            out@ == xor_seq(a@, b@).subrange(0, i as int),
        decreases a@.len() - i,
    {
        out.push(a[i] ^ b[i]);
        i = i + 1;
        proof {
            assert(out@ =~= xor_seq(a@, b@).subrange(0, i as int));
        }
    }
    proof {
        assert(out@ =~= xor_seq(a@, b@));
    }
    out
}

/// The two little-endian bytes of a 16-bit integer.
pub open spec fn u16_le(x: u16) -> Seq<u8> {
    seq![(x & 0xff) as u8, ((x >> 8) & 0xff) as u8]
}

/// The four little-endian bytes of a 32-bit integer.
pub open spec fn u32_le(x: u32) -> Seq<u8> {
    seq![
        (x & 0xff) as u8,
        ((x >> 8) & 0xff) as u8,
        ((x >> 16) & 0xff) as u8,
        ((x >> 24) & 0xff) as u8,
    ]
}

/// The eight little-endian bytes of a 64-bit integer.
pub open spec fn u64_le(x: u64) -> Seq<u8> {
    seq![
        (x & 0xff) as u8,
        ((x >> 8) & 0xff) as u8,
        ((x >> 16) & 0xff) as u8,
        ((x >> 24) & 0xff) as u8,
        ((x >> 32) & 0xff) as u8,
        ((x >> 40) & 0xff) as u8,
        ((x >> 48) & 0xff) as u8,
        ((x >> 56) & 0xff) as u8,
    ]
}

/// Append a 16-bit integer, little-endian.
pub fn push_u16_le(out: &mut Vec<u8>, x: u16)
    ensures
        final(out)@ == old(out)@ + u16_le(x),
{
    out.push((x & 0xff) as u8);
    out.push(((x >> 8) & 0xff) as u8);
    proof {
        assert(out@ =~= old(out)@ + u16_le(x));
    }
}

/// Append a 32-bit integer, little-endian.
pub fn push_u32_le(out: &mut Vec<u8>, x: u32)
    ensures
        final(out)@ == old(out)@ + u32_le(x),
{
    out.push((x & 0xff) as u8);
    out.push(((x >> 8) & 0xff) as u8);
    out.push(((x >> 16) & 0xff) as u8);
    out.push(((x >> 24) & 0xff) as u8);
    proof {
        assert(out@ =~= old(out)@ + u32_le(x));
    }
}

/// Append a 64-bit integer, little-endian.
pub fn push_u64_le(out: &mut Vec<u8>, x: u64)
    ensures
        final(out)@ == old(out)@ + u64_le(x),
{
    out.push((x & 0xff) as u8);
    out.push(((x >> 8) & 0xff) as u8);
    out.push(((x >> 16) & 0xff) as u8);
    out.push(((x >> 24) & 0xff) as u8);
    out.push(((x >> 32) & 0xff) as u8);
    out.push(((x >> 40) & 0xff) as u8);
    out.push(((x >> 48) & 0xff) as u8);
    out.push(((x >> 56) & 0xff) as u8);
    proof {
        assert(out@ =~= old(out)@ + u64_le(x));
    }
}

/// Read back a 16-bit little-endian integer: the unique value whose
/// encoding stands at `pos`.
pub fn read_u16_le(b: &Vec<u8>, pos: usize) -> (r: u16)
    requires
        pos + 2 <= b@.len(),
    ensures
        forall|x: u16| b@.subrange(pos as int, pos + 2) == u16_le(x) ==> r == x,
        u16_le(r) == b@.subrange(pos as int, pos + 2),
{
    let _n: usize = b.len();
    let r = (b[pos] as u16) | ((b[pos + 1] as u16) << 8);
    proof {
        assert forall|x: u16| b@.subrange(pos as int, pos + 2) == u16_le(x) implies r == x by {
            assert(b@[pos as int] == (x & 0xff) as u8);
            assert(b@[pos + 1] == ((x >> 8) & 0xff) as u8);
            let lo = (x & 0xff) as u8;
            let hi = ((x >> 8) & 0xff) as u8;
            assert((lo as u16) | ((hi as u16) << 8) == x) by (bit_vector)
                requires
                    lo == (x & 0xff) as u8,
                    hi == ((x >> 8) & 0xff) as u8,
            ;
        }
        let b0 = b@[pos as int];
        let b1 = b@[pos + 1];
        assert((r & 0xff) as u8 == b0 && ((r >> 8) & 0xff) as u8 == b1) by (bit_vector)
            requires
                r == (b0 as u16) | ((b1 as u16) << 8),
        ;
        assert(u16_le(r) =~= b@.subrange(pos as int, pos + 2));
    }
    r
}

/// Read back a 32-bit little-endian integer: the unique value whose
/// encoding stands at `pos`.
pub fn read_u32_le(b: &Vec<u8>, pos: usize) -> (r: u32)
    requires
        pos + 4 <= b@.len(),
    ensures
        forall|x: u32| b@.subrange(pos as int, pos + 4) == u32_le(x) ==> r == x,
        u32_le(r) == b@.subrange(pos as int, pos + 4),
{
    let _n: usize = b.len();
    let r = (b[pos] as u32) | ((b[pos + 1] as u32) << 8) | ((b[pos + 2] as u32) << 16) | ((b[pos
        + 3] as u32) << 24);
    proof {
        assert forall|x: u32| b@.subrange(pos as int, pos + 4) == u32_le(x) implies r == x by {
            assert(b@[pos as int] == (x & 0xff) as u8);
            assert(b@[pos + 1] == ((x >> 8) & 0xff) as u8);
            assert(b@[pos + 2] == ((x >> 16) & 0xff) as u8);
            assert(b@[pos + 3] == ((x >> 24) & 0xff) as u8);
            let b0 = (x & 0xff) as u8;
            let b1 = ((x >> 8) & 0xff) as u8;
            let b2 = ((x >> 16) & 0xff) as u8;
            let b3 = ((x >> 24) & 0xff) as u8;
            assert((b0 as u32) | ((b1 as u32) << 8) | ((b2 as u32) << 16) | ((b3 as u32) << 24)
                == x) by (bit_vector)
                requires
                    b0 == (x & 0xff) as u8,
                    b1 == ((x >> 8) & 0xff) as u8,
                    b2 == ((x >> 16) & 0xff) as u8,
                    b3 == ((x >> 24) & 0xff) as u8,
            ;
        }
        let b0 = b@[pos as int];
        let b1 = b@[pos + 1];
        let b2 = b@[pos + 2];
        let b3 = b@[pos + 3];
        assert((r & 0xff) as u8 == b0 && ((r >> 8) & 0xff) as u8 == b1 && ((r >> 16) & 0xff) as u8
            == b2 && ((r >> 24) & 0xff) as u8 == b3) by (bit_vector)
            requires
                r == (b0 as u32) | ((b1 as u32) << 8) | ((b2 as u32) << 16) | ((b3 as u32) << 24),
        ;
        assert(u32_le(r) =~= b@.subrange(pos as int, pos + 4));
    }
    r
}

/// Read back a 64-bit little-endian integer: the unique value whose
/// encoding stands at `pos`.
pub fn read_u64_le(b: &Vec<u8>, pos: usize) -> (r: u64)
    requires
        pos + 8 <= b@.len(),
    ensures
        forall|x: u64| b@.subrange(pos as int, pos + 8) == u64_le(x) ==> r == x,
        u64_le(r) == b@.subrange(pos as int, pos + 8),
{
    let _n: usize = b.len();
    let r = (b[pos] as u64) | ((b[pos + 1] as u64) << 8) | ((b[pos + 2] as u64) << 16) | ((b[pos
        + 3] as u64) << 24) | ((b[pos + 4] as u64) << 32) | ((b[pos + 5] as u64) << 40) | ((b[pos
        + 6] as u64) << 48) | ((b[pos + 7] as u64) << 56);
    proof {
        assert forall|x: u64| b@.subrange(pos as int, pos + 8) == u64_le(x) implies r == x by {
            assert(b@[pos as int] == (x & 0xff) as u8);
            assert(b@[pos + 1] == ((x >> 8) & 0xff) as u8);
            assert(b@[pos + 2] == ((x >> 16) & 0xff) as u8);
            assert(b@[pos + 3] == ((x >> 24) & 0xff) as u8);
            assert(b@[pos + 4] == ((x >> 32) & 0xff) as u8);
            assert(b@[pos + 5] == ((x >> 40) & 0xff) as u8);
            assert(b@[pos + 6] == ((x >> 48) & 0xff) as u8);
            assert(b@[pos + 7] == ((x >> 56) & 0xff) as u8);
            let b0 = (x & 0xff) as u8;
            let b1 = ((x >> 8) & 0xff) as u8;
            let b2 = ((x >> 16) & 0xff) as u8;
            let b3 = ((x >> 24) & 0xff) as u8;
            let b4 = ((x >> 32) & 0xff) as u8;
            let b5 = ((x >> 40) & 0xff) as u8;
            let b6 = ((x >> 48) & 0xff) as u8;
            let b7 = ((x >> 56) & 0xff) as u8;
            assert((b0 as u64) | ((b1 as u64) << 8) | ((b2 as u64) << 16) | ((b3 as u64) << 24) | (
            (b4 as u64) << 32) | ((b5 as u64) << 40) | ((b6 as u64) << 48) | ((b7 as u64) << 56)
                == x) by (bit_vector)
                requires
                    b0 == (x & 0xff) as u8,
                    b1 == ((x >> 8) & 0xff) as u8,
                    b2 == ((x >> 16) & 0xff) as u8,
                    b3 == ((x >> 24) & 0xff) as u8,
                    b4 == ((x >> 32) & 0xff) as u8,
                    b5 == ((x >> 40) & 0xff) as u8,
                    b6 == ((x >> 48) & 0xff) as u8,
                    b7 == ((x >> 56) & 0xff) as u8,
            ;
        }
        let b0 = b@[pos as int];
        let b1 = b@[pos + 1];
        let b2 = b@[pos + 2];
        let b3 = b@[pos + 3];
        let b4 = b@[pos + 4];
        let b5 = b@[pos + 5];
        let b6 = b@[pos + 6];
        let b7 = b@[pos + 7];
        assert((r & 0xff) as u8 == b0 && ((r >> 8) & 0xff) as u8 == b1 && ((r >> 16) & 0xff) as u8
            == b2 && ((r >> 24) & 0xff) as u8 == b3 && ((r >> 32) & 0xff) as u8 == b4 && ((r >> 40)
            & 0xff) as u8 == b5 && ((r >> 48) & 0xff) as u8 == b6 && ((r >> 56) & 0xff) as u8
            == b7) by (bit_vector)
            requires
                r == (b0 as u64) | ((b1 as u64) << 8) | ((b2 as u64) << 16) | ((b3 as u64) << 24)
                    | ((b4 as u64) << 32) | ((b5 as u64) << 40) | ((b6 as u64) << 48) | ((
                b7 as u64) << 56),
        ;
        assert(u64_le(r) =~= b@.subrange(pos as int, pos + 8));
    }
    r
}

/// Exclusive or is its own inverse, byte by byte and so sequence by
/// sequence.
pub proof fn lemma_xor_involution(a: Seq<u8>, b: Seq<u8>)
    requires
        a.len() == b.len(),
    ensures
        xor_seq(xor_seq(a, b), b) == a,
{
    assert forall|i: int| 0 <= i < a.len() implies xor_seq(xor_seq(a, b), b)[i] == a[i] by {
        let x = a[i];
        let y = b[i];
        assert((x ^ y) ^ y == x) by (bit_vector);
    }
    assert(xor_seq(xor_seq(a, b), b) =~= a);
}

} // verus!
