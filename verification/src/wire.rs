use vstd::prelude::*;

use vstd::utf8::{decode_utf8, valid_utf8};

verus! {

/// The eight little-endian bytes of an unsigned 64-bit number.
pub open spec fn spec_u64_le(n: u64) -> Seq<u8> {
    seq![
        (n & 0xff) as u8,
        ((n >> 8) & 0xff) as u8,
        ((n >> 16) & 0xff) as u8,
        ((n >> 24) & 0xff) as u8,
        ((n >> 32) & 0xff) as u8,
        ((n >> 40) & 0xff) as u8,
        ((n >> 48) & 0xff) as u8,
        ((n >> 56) & 0xff) as u8,
    ]
}

/// The number eight little-endian bytes stand for.
pub open spec fn spec_u64_of(b0: u8, b1: u8, b2: u8, b3: u8, b4: u8, b5: u8, b6: u8, b7: u8) -> u64 {
    (b0 as u64) | (b1 as u64) << 8 | (b2 as u64) << 16 | (b3 as u64) << 24 | (b4 as u64) << 32 | (
    b5 as u64) << 40 | (b6 as u64) << 48 | (b7 as u64) << 56
}

/// Eight little-endian bytes read back as the number they were made from.
pub proof fn lemma_u64_le_roundtrip(n: u64)
    ensures
        spec_u64_of(
            spec_u64_le(n)[0],
            spec_u64_le(n)[1],
            spec_u64_le(n)[2],
            spec_u64_le(n)[3],
            spec_u64_le(n)[4],
            spec_u64_le(n)[5],
            spec_u64_le(n)[6],
            spec_u64_le(n)[7],
        ) == n,
{
    assert((((n & 0xff) as u8) as u64) | ((((n >> 8) & 0xff) as u8) as u64) << 8 | ((((n >> 16)
        & 0xff) as u8) as u64) << 16 | ((((n >> 24) & 0xff) as u8) as u64) << 24 | ((((n >> 32)
        & 0xff) as u8) as u64) << 32 | ((((n >> 40) & 0xff) as u8) as u64) << 40 | ((((n >> 48)
        & 0xff) as u8) as u64) << 48 | ((((n >> 56) & 0xff) as u8) as u64) << 56 == n)
        by (bit_vector);
}

/// Append the little-endian bytes of a number to a buffer.
pub fn push_u64_le(out: &mut Vec<u8>, n: u64)
    ensures
        final(out)@ == old(out)@ + spec_u64_le(n),
{
    let ghost s0 = out@;
    out.push((n & 0xff) as u8);
    out.push(((n >> 8) & 0xff) as u8);
    out.push(((n >> 16) & 0xff) as u8);
    out.push(((n >> 24) & 0xff) as u8);
    out.push(((n >> 32) & 0xff) as u8);
    out.push(((n >> 40) & 0xff) as u8);
    out.push(((n >> 48) & 0xff) as u8);
    out.push(((n >> 56) & 0xff) as u8);
    proof {
        assert(out@ =~= s0 + spec_u64_le(n));
    }
}

/// Append a byte slice to a buffer.
pub fn push_bytes(out: &mut Vec<u8>, bytes: &[u8])
    ensures
        final(out)@ == old(out)@ + bytes@,
{
    let ghost s0 = out@;
    let mut i: usize = 0;
    proof {
        assert(out@ =~= s0 + bytes@.subrange(0, 0));
    }
    while i < bytes.len()
        invariant
            i <= bytes@.len(),
            out@ == s0 + bytes@.subrange(0, i as int),
        decreases bytes@.len() - i,
    {
        out.push(bytes[i]);
        proof {
            assert(bytes@.subrange(0, i + 1) =~= bytes@.subrange(0, i as int).push(
                bytes@[i as int],
            ));
            assert((s0 + bytes@.subrange(0, i as int)).push(bytes@[i as int]) =~= s0 + bytes@
                .subrange(0, i + 1));
        }
        i = i + 1;
    }
    proof {
        assert(bytes@.subrange(0, bytes@.len() as int) =~= bytes@);
    }
}

/// Read the number whose eight little-endian bytes sit at `pos`; `None`
/// when fewer than eight bytes are buffered there.
pub open spec fn spec_read_u64(s: Seq<u8>, pos: int) -> Option<(u64, int)> {
    if 0 <= pos && pos + 8 <= s.len() {
        Some(
            (
                spec_u64_of(
                    s[pos],
                    s[pos + 1],
                    s[pos + 2],
                    s[pos + 3],
                    s[pos + 4],
                    s[pos + 5],
                    s[pos + 6],
                    s[pos + 7],
                ),
                pos + 8,
            ),
        )
    } else {
        Option::None
    }
}

/// Read eight little-endian bytes at `pos`.
pub fn read_u64_le(buf: &[u8], pos: usize) -> (r: Option<(u64, usize)>)
    ensures
        match spec_read_u64(buf@, pos as int) {
            Some((n, end)) => r matches Some(p) && p.0 == n && p.1 == end,
            Option::None => r is None,
        },
{
    if buf.len() < 8 || pos > buf.len() - 8 {
        return Option::None;
    }
    let n = (buf[pos] as u64) | (buf[pos + 1] as u64) << 8 | (buf[pos + 2] as u64) << 16 | (buf[pos
        + 3] as u64) << 24 | (buf[pos + 4] as u64) << 32 | (buf[pos + 5] as u64) << 40 | (buf[pos
        + 6] as u64) << 48 | (buf[pos + 7] as u64) << 56;
    Some((n, pos + 8))
}

/// Relies on `String::from_utf8`: it accepts exactly the byte runs that are
/// valid UTF-8 and decodes them to the characters they encode, as
/// `vstd::utf8` states that reading.
#[verifier::external_body]
pub fn bytes_to_string(bytes: Vec<u8>) -> (r: Option<String>)
    ensures
        match r {
            Some(s) => valid_utf8(bytes@) && s@ == decode_utf8(bytes@),
            Option::None => !valid_utf8(bytes@),
        },
{
    String::from_utf8(bytes).ok()
}

/// Copy the byte window `[from, to)` of a slice into a fresh vector.
pub fn copy_range(buf: &[u8], from: usize, to: usize) -> (r: Vec<u8>)
    requires
        from <= to <= buf@.len(),
    ensures
        r@ == buf@.subrange(from as int, to as int),
{
    let mut out: Vec<u8> = Vec::new();
    let mut j: usize = from;
    proof {
        assert(out@ =~= buf@.subrange(from as int, from as int));
    }
    while j < to
        invariant
            from <= j <= to <= buf@.len(),
            out@ == buf@.subrange(from as int, j as int),
        decreases to - j,
    {
        out.push(buf[j]);
        proof {
            assert(buf@.subrange(from as int, j + 1) =~= buf@.subrange(from as int, j as int).push(
                buf@[j as int],
            ));
        }
        j = j + 1;
    }
    out
}

/// The characters that reading a byte run as UTF-8 with replacement yields;
/// they depend on the bytes alone.
pub uninterp spec fn utf8_lossy_of(bytes: Seq<u8>) -> Seq<char>;

/// Relies on `String::from_utf8_lossy`: the characters it yields are a
/// function of the bytes alone, and no bytes yield no characters.
#[verifier::external_body]
pub fn bytes_to_string_lossy(bytes: &[u8]) -> (r: String)
    ensures
        r@ == utf8_lossy_of(bytes@),
        bytes@.len() == 0 ==> r@.len() == 0,
{
    String::from_utf8_lossy(bytes).to_string()
}

} // verus!
