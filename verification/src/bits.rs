use vstd::prelude::*;

verus! {

/// A single binary digit.
#[derive(PartialEq, Eq, Clone, Copy, Debug, Structural)]
pub enum Bit {
    ONE,
    ZERO,
}

/// Failures raised by the bit-level helpers.
#[derive(PartialEq, Eq, Clone, Copy, Debug, Structural)]
pub enum BitsError {
    /// The slice does not hold enough bits for the requested window.
    SliceTooShort,
}

/// The numeric weight of one bit.
pub open spec fn bit_val(b: Bit) -> nat {
    match b {
        Bit::ONE => 1,
        Bit::ZERO => 0,
    }
}

/// Powers of two.
pub open spec fn pow2(n: nat) -> nat
    decreases n,
{
    if n == 0 {
        1
    } else {
        2 * pow2((n - 1) as nat)
    }
}

/// The number a bit sequence stands for, most significant bit first.
pub open spec fn bits_value(s: Seq<Bit>) -> nat
    decreases s.len(),
{
    if s.len() == 0 {
        0
    } else {
        bits_value(s.drop_last()) * 2 + bit_val(s.last())
    }
}

/// The byte the final (at most eight) bits of a sequence stand for.
pub open spec fn byte_of_bits(s: Seq<Bit>) -> nat {
    if s.len() <= 8 {
        bits_value(s)
    } else {
        bits_value(s.subrange(s.len() - 8, s.len() as int))
    }
}

/// Prepending a bit adds its weight above all bits already present.
pub proof fn lemma_bits_value_prepend(b: Bit, s: Seq<Bit>)
    ensures
        bits_value(seq![b] + s) == bit_val(b) * pow2(s.len()) + bits_value(s),
    decreases s.len(),
{
    if s.len() == 0 {
        assert(seq![b] + s =~= seq![b]);
        assert((seq![b]).drop_last() =~= Seq::<Bit>::empty());
        assert(bits_value(Seq::<Bit>::empty()) == 0);
        assert((seq![b]).last() == b);
        assert(bits_value(seq![b]) == bits_value((seq![b]).drop_last()) * 2 + bit_val(b));
    } else {
        let n = s.len();
        lemma_bits_value_prepend(b, s.drop_last());
        assert((seq![b] + s).drop_last() =~= seq![b] + s.drop_last());
        assert((seq![b] + s).last() == s.last());
        let v = bit_val(b);
        let p = pow2((n - 1) as nat);
        let x = bits_value(s.drop_last());
        let y = bit_val(s.last());
        assert(bits_value(seq![b] + s) == bits_value((seq![b] + s).drop_last()) * 2 + y);
        assert(bits_value((seq![b] + s).drop_last()) == v * p + x);
        assert((v * p + x) * 2 + y == v * (2 * p) + (x * 2 + y)) by (nonlinear_arith);
        assert(pow2(n) == 2 * p);
        assert(bits_value(s) == x * 2 + y);
    }
}

/// A bit-sequence value always lies below the power of two of its length.
pub proof fn lemma_bits_value_bound(s: Seq<Bit>)
    ensures
        bits_value(s) < pow2(s.len()),
    decreases s.len(),
{
    if s.len() > 0 {
        lemma_bits_value_bound(s.drop_last());
    }
}

/// The first eight powers of two, unfolded for callers that need numbers.
pub proof fn lemma_pow2_values()
    ensures
        pow2(0) == 1,
        pow2(1) == 2,
        pow2(2) == 4,
        pow2(3) == 8,
        pow2(4) == 16,
        pow2(5) == 32,
        pow2(6) == 64,
        pow2(7) == 128,
        pow2(8) == 256,
{
    assert(pow2(0) == 1);
    assert(pow2(1) == 2);
    assert(pow2(2) == 4);
    assert(pow2(3) == 8);
    assert(pow2(4) == 16);
    assert(pow2(5) == 32);
    assert(pow2(6) == 64);
    assert(pow2(7) == 128);
    assert(pow2(8) == 256);
}

/// The value of the bit window `[from, to)` of a slice, as one byte.
fn bits_range_value(value: &[Bit], from: usize, to: usize) -> (r: u8)
    requires
        from <= to <= value@.len(),
        to - from <= 8,
    ensures
        r as nat == bits_value(value@.subrange(from as int, to as int)),
{
    let mut byte: u8 = 0;
    let mut i: usize = from;
    proof {
        assert(value@.subrange(from as int, from as int) =~= Seq::<Bit>::empty());
    }
    while i < to
        invariant
            from <= i <= to <= value@.len(),
            to - from <= 8,
            byte as nat == bits_value(value@.subrange(from as int, i as int)),
        decreases to - i,
    {
        proof {
            lemma_bits_value_bound(value@.subrange(from as int, i as int));
            lemma_pow2_values();
            lemma_pow2_increases((i - from) as nat, 7);
            assert(value@.subrange(from as int, i + 1).drop_last() =~= value@.subrange(
                from as int,
                i as int,
            ));
            assert(value@.subrange(from as int, i + 1).last() == value@[i as int]);
        }
        let bit: u8 = match value[i] {
            Bit::ONE => 1,
            Bit::ZERO => 0,
        };
        byte = byte * 2 + bit;
        i = i + 1;
    }
    byte
}

/// Powers of two grow with the exponent.
pub proof fn lemma_pow2_increases(a: nat, b: nat)
    requires
        a <= b,
    ensures
        pow2(a) <= pow2(b),
    decreases b,
{
    if a < b {
        lemma_pow2_increases(a, (b - 1) as nat);
        assert(pow2(b) == 2 * pow2((b - 1) as nat));
    }
}

/// A vector of bits, most significant first.
#[derive(Debug)]
pub struct BitVec(pub Vec<Bit>);

impl BitVec {
    /// The byte the final bits of this vector stand for; shorter vectors are
    /// read as if padded with leading zero bits.
    pub fn to_byte(&self) -> (r: Result<u8, BitsError>)
        ensures
            r == Ok::<u8, BitsError>((byte_of_bits(self.0@) as u8)),
    {
        let len = self.0.len();
        if len <= 8 {
            proof {
                lemma_bits_value_bound(self.0@);
                lemma_pow2_values();
                lemma_pow2_increases(self.0@.len(), 8);
                assert(self.0@.subrange(0, len as int) =~= self.0@);
            }
            Ok(bits_range_value(self.0.as_slice(), 0, len))
        } else {
            proof {
                lemma_bits_value_bound(self.0@.subrange(len - 8, len as int));
                lemma_pow2_values();
            }
            Ok(bits_range_value(self.0.as_slice(), len - 8, len))
        }
    }

    /// Same reading as [`BitVec::to_byte`], under the name callers use for
    /// unsigned bytes.
    pub fn to_u8(&self) -> (r: Result<u8, BitsError>)
        ensures
            r == Ok::<u8, BitsError>((byte_of_bits(self.0@) as u8)),
    {
        self.to_byte()
    }
}

/// Decompose the low `bit_size` bits of a value, most significant first.
pub fn to_bit_vec(value: u32, bit_size: usize) -> (r: Vec<Bit>)
    ensures
        r@.len() == bit_size,
        bits_value(r@) == (value as nat) % pow2(bit_size as nat),
{
    let mut bits: Vec<Bit> = Vec::new();
    let mut copy: u32 = value;
    let mut j: usize = 0;
    proof {
        assert(pow2(0) == 1);
        assert((value as nat) / 1 == value as nat);
        assert((value as nat) % 1 == 0);
        assert(bits@ =~= Seq::<Bit>::empty());
    }
    while j < bit_size
        invariant
            j <= bit_size,
            bits@.len() == j,
            copy as nat == (value as nat) / pow2(j as nat),
            bits_value(bits@) == (value as nat) % pow2(j as nat),
        decreases bit_size - j,
    {
        let ghost old_bits = bits@;
        let ghost n = value as nat;
        let ghost p = pow2(j as nat);
        let ghost c0 = copy as nat;
        let bit: Bit = if copy == 0 {
            Bit::ZERO
        } else if copy % 2 == 1 {
            copy = copy / 2;
            Bit::ONE
        } else {
            copy = copy / 2;
            Bit::ZERO
        };
        bits.insert(0, bit);
        proof {
            assert(bits@ =~= seq![bit] + old_bits);
            lemma_bits_value_prepend(bit, old_bits);
            lemma_pow2_positive(j as nat);
            lemma_div_mod_step(n, p);
            assert(pow2((j + 1) as nat) == 2 * p);
            assert(c0 == n / p);
            assert(bit_val(bit) == c0 % 2);
            assert(copy as nat == c0 / 2);
            assert(copy as nat == n / (2 * p));
            assert(bits_value(bits@) == bit_val(bit) * pow2(old_bits.len()) + bits_value(old_bits));
            assert(bits_value(bits@) == (c0 % 2) * p + n % p);
            assert(bits_value(bits@) == n % (2 * p));
        }
        j = j + 1;
    }
    bits
}

/// Powers of two are positive.
pub proof fn lemma_pow2_positive(n: nat)
    ensures
        pow2(n) >= 1,
    decreases n,
{
    if n > 0 {
        lemma_pow2_positive((n - 1) as nat);
    }
}

/// Splitting a division by `2 * p` into a division by `p` and one by two.
proof fn lemma_div_mod_step(n: nat, p: nat)
    requires
        p >= 1,
    ensures
        (n / p) / 2 == n / (2 * p),
        n % (2 * p) == ((n / p) % 2) * p + n % p,
{
    vstd::arithmetic::div_mod::lemma_div_denominator(n as int, p as int, 2);
    vstd::arithmetic::div_mod::lemma_breakdown(n as int, p as int, 2);
    assert(p as int * 2 == 2 * p as int);
    assert((p as int) * (((n as int) / (p as int)) % 2) == (((n as int) / (p as int)) % 2) * (
    p as int)) by (nonlinear_arith);
}

/// The byte the bit window `[from, from + 8)` of a slice stands for; the
/// window is clipped to the first eight slots, as the first-generation
/// header packing reads it.
pub fn to_byte(value: &[Bit], from: usize) -> (r: Result<u8, BitsError>)
    ensures
        value@.len() < from + 8 ==> r == Err::<u8, BitsError>(BitsError::SliceTooShort),
        value@.len() >= from + 8 && from < 8 ==> r == Ok::<u8, BitsError>(
            (bits_value(value@.subrange(from as int, 8)) as u8),
        ),
        value@.len() >= from + 8 && from >= 8 ==> r == Ok::<u8, BitsError>(0u8),
{
    if value.len() < 8 || value.len() - 8 < from {
        return Err(BitsError::SliceTooShort);
    }
    if from >= 8 {
        return Ok(0);
    }
    proof {
        lemma_bits_value_bound(value@.subrange(from as int, 8));
        lemma_pow2_values();
        lemma_pow2_increases((8 - from) as nat, 8);
    }
    Ok(bits_range_value(value, from, 8))
}

/// A reserved single filler bit of the first-generation frame layout.
#[derive(Debug)]
pub struct Padding(pub Bit);

impl Padding {
    /// Width of the filler in bits.
    pub fn bits() -> usize {
        1
    }

    /// The filler as a bit sequence.
    pub fn value(&self) -> (r: Vec<Bit>)
        ensures
            r@ == seq![self.0],
    {
        let mut v: Vec<Bit> = Vec::new();
        v.push(self.0);
        proof {
            assert(v@ =~= seq![self.0]);
        }
        v
    }
}

} // verus!
