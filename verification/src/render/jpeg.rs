//! Baseline JPEG (JFIF) container and entropy coder (ITU-T T.81, baseline
//! sequential DCT, 8-bit, three components, 4:4:4, Annex K tables).
//!
//! The colour transform and the forward DCT are floating-point and happen in
//! the caller; this module receives the quantized coefficient blocks, already
//! in zigzag order, and produces the complete JFIF byte stream: markers,
//! quantization and Huffman table segments, and the Huffman-coded scan with
//! 0xFF byte stuffing.

use vstd::prelude::*;
use vstd::arithmetic::power2::*;
use vstd::arithmetic::div_mod::*;
use vstd::arithmetic::mul::*;
use vstd::bits::*;
use vstd::std_specs::bits::*;

verus! {

// ---------------------------------------------------------------------------
// Bit strings
// ---------------------------------------------------------------------------

/// The `n` low bits of `value`, most significant first.
pub open spec fn msb_bits(value: nat, n: nat) -> Seq<bool>
    decreases n,
{
    if n == 0 {
        Seq::empty()
    } else {
        msb_bits(value / 2, (n - 1) as nat).push(value % 2 == 1)
    }
}

/// The number whose binary digits, most significant first, are `b`.
pub open spec fn bits_value(b: Seq<bool>) -> nat
    decreases b.len(),
{
    if b.len() == 0 {
        0
    } else {
        2 * bits_value(b.drop_last()) + (if b.last() { 1nat } else { 0nat })
    }
}

/// Pack a bit string into bytes, eight bits per byte, most significant bit
/// first; a trailing partial byte is dropped.
pub open spec fn pack_bytes(bits: Seq<bool>) -> Seq<u8>
    decreases bits.len(),
{
    if bits.len() < 8 {
        Seq::empty()
    } else {
        seq![bits_value(bits.take(8)) as u8] + pack_bytes(bits.skip(8))
    }
}

/// The bytes that stand for one byte in the entropy-coded segment: a 0xFF is
/// followed by a stuffed 0x00 (T.81 F.1.2.3).
pub open spec fn stuffed_byte(b: u8) -> Seq<u8> {
    if b == 0xFF {
        seq![0xFFu8, 0x00u8]
    } else {
        seq![b]
    }
}

/// Byte stuffing of a whole byte sequence.
pub open spec fn stuff(bytes: Seq<u8>) -> Seq<u8>
    decreases bytes.len(),
{
    if bytes.len() == 0 {
        Seq::empty()
    } else {
        stuff(bytes.drop_last()) + stuffed_byte(bytes.last())
    }
}

/// Number of one-bits that complete `len` bits to a whole number of bytes.
pub open spec fn pad_len(len: nat) -> nat {
    ((8 - len % 8) % 8) as nat
}

/// A run of `n` one-bits.
pub open spec fn ones(n: nat) -> Seq<bool> {
    Seq::new(n, |i: int| true)
}

/// The entropy-coded bytes of a bit string: padded with one-bits to a byte
/// boundary, packed, then byte-stuffed.
pub open spec fn entropy_bytes(bits: Seq<bool>) -> Seq<u8> {
    stuff(pack_bytes(bits + ones(pad_len(bits.len()))))
}

pub proof fn lemma_msb_bits_len(value: nat, n: nat)
    ensures
        msb_bits(value, n).len() == n,
    decreases n,
{
    if n > 0 {
        lemma_msb_bits_len(value / 2, (n - 1) as nat);
    }
}

/// Splitting the `a + b` low bits of `x` into its high `a` and low `b` bits.
pub proof fn lemma_msb_bits_split(x: nat, a: nat, b: nat)
    ensures
        msb_bits(x, a + b) == msb_bits(x / pow2(b), a) + msb_bits(x, b),
    decreases b,
{
    lemma_pow2_pos(b);
    if b == 0 {
        lemma2_to64();
        assert(msb_bits(x, a + b) =~= msb_bits(x / pow2(b), a) + msb_bits(x, b));
    } else {
        lemma_msb_bits_split(x / 2, a, (b - 1) as nat);
        lemma_pow2_unfold(b);
        lemma_pow2_pos((b - 1) as nat);
        lemma_div_denominator(x as int, 2, pow2((b - 1) as nat) as int);
        assert(x / 2 / pow2((b - 1) as nat) == x / pow2(b));
        assert((a + b - 1) as nat == a + (b - 1) as nat);
        assert(msb_bits(x, a + b) =~= msb_bits(x / pow2(b), a) + msb_bits(x, b));
    }
}

/// Only the `n` low bits of `x` matter.
pub proof fn lemma_msb_bits_mod(x: nat, n: nat)
    ensures
        msb_bits(x % pow2(n), n) == msb_bits(x, n),
    decreases n,
{
    lemma_pow2_pos(n);
    if n > 0 {
        lemma_pow2_unfold(n);
        lemma_pow2_pos((n - 1) as nat);
        lemma_mod_double(x as int, pow2((n - 1) as nat) as int);
        lemma_msb_bits_mod(x / 2, (n - 1) as nat);
    }
}

proof fn lemma_mod_double(x: int, p: int)
    requires
        x >= 0,
        p > 0,
    ensures
        (x % (2 * p)) / 2 == (x / 2) % p,
        (x % (2 * p)) % 2 == x % 2,
{
    lemma_mod_breakdown(x, 2, p);
    let a = (x / 2) % p;
    let r = x % 2;
    assert(x % (2 * p) == 2 * a + r);
    lemma_fundamental_div_mod(2 * a + r, 2);
    lemma_mod_multiples_vanish(a, r, 2);
    lemma_small_mod(r as nat, 2);
}

/// The value of the `n` low bits of `x` read back.
pub proof fn lemma_bits_value_msb(x: nat, n: nat)
    ensures
        bits_value(msb_bits(x, n)) == x % pow2(n),
    decreases n,
{
    lemma_pow2_pos(n);
    if n == 0 {
        lemma2_to64();
    } else {
        lemma_bits_value_msb(x / 2, (n - 1) as nat);
        lemma_msb_bits_len(x / 2, (n - 1) as nat);
        let b = msb_bits(x, n);
        assert(b.drop_last() == msb_bits(x / 2, (n - 1) as nat));
        lemma_pow2_unfold(n);
        lemma_pow2_pos((n - 1) as nat);
        let p = pow2((n - 1) as nat) as int;
        lemma_mod_breakdown(x as int, 2, p);
    }
}

/// Packing distributes over a concatenation whose first part is byte aligned.
pub proof fn lemma_pack_append(a: Seq<bool>, b: Seq<bool>)
    requires
        a.len() % 8 == 0,
    ensures
        pack_bytes(a + b) == pack_bytes(a) + pack_bytes(b),
    decreases a.len(),
{
    if a.len() == 0 {
        assert(a + b =~= b);
        assert(pack_bytes(a) =~= Seq::<u8>::empty());
        assert(pack_bytes(a) + pack_bytes(b) =~= pack_bytes(b));
    } else {
        let ab = a + b;
        assert(ab.take(8) =~= a.take(8));
        assert(ab.skip(8) =~= a.skip(8) + b);
        lemma_pack_append(a.skip(8), b);
        assert(pack_bytes(a + b) =~= pack_bytes(a) + pack_bytes(b));
    }
}

/// Eight bits pack into the one byte they spell.
pub proof fn lemma_pack_byte(b: Seq<bool>)
    requires
        b.len() == 8,
    ensures
        pack_bytes(b) == seq![bits_value(b) as u8],
{
    assert(b.take(8) =~= b);
    assert(b.skip(8).len() == 0);
    assert(pack_bytes(b.skip(8)) =~= Seq::<u8>::empty());
    assert(pack_bytes(b) =~= seq![bits_value(b) as u8]);
}

/// Stuffing distributes over appending one byte.
pub proof fn lemma_stuff_push(a: Seq<u8>, b: u8)
    ensures
        stuff(a.push(b)) == stuff(a) + stuffed_byte(b),
{
    assert(a.push(b).drop_last() =~= a);
}

/// All `n` low bits of `2^n - 1` are ones.
pub proof fn lemma_msb_bits_all_ones(n: nat)
    ensures
        msb_bits((pow2(n) - 1) as nat, n) == ones(n),
    decreases n,
{
    lemma_pow2_pos(n);
    if n == 0 {
        assert(msb_bits((pow2(n) - 1) as nat, n) =~= ones(n));
    } else {
        lemma_pow2_unfold(n);
        lemma_pow2_pos((n - 1) as nat);
        let x = (pow2(n) - 1) as nat;
        assert(x / 2 == (pow2((n - 1) as nat) - 1) as nat);
        assert(x % 2 == 1);
        lemma_msb_bits_all_ones((n - 1) as nat);
        assert(msb_bits(x, n) =~= ones(n));
    }
}

// ---------------------------------------------------------------------------
// Bit writer
// ---------------------------------------------------------------------------

/// MSB-first bit writer with JPEG 0xFF byte stuffing.
pub struct BitWriter {
    out: Vec<u8>,
    acc: u32,
    nbits: u8,
    /// The bits already flushed to `out` (a whole number of bytes).
    emitted: Ghost<Seq<bool>>,
}

/// The pending bit string after writing `n` bits of `bits` over a pending
/// accumulator `acc` holding `nbits` bits: the low `nbits + n` bits of
/// `(acc << n) | bits`.
pub open spec fn pending_after_put(acc: u32, nbits: nat, bits: u16, n: u8) -> Seq<bool> {
    msb_bits((((acc << n) | (bits as u32)) as nat), nbits + n as nat)
}

impl View for BitWriter {
    type V = Seq<bool>;

    /// Every bit written so far, in order.
    closed spec fn view(&self) -> Seq<bool> {
        self.emitted@ + msb_bits(self.acc as nat, self.nbits as nat)
    }
}

impl BitWriter {
    /// The writer's internal consistency: fewer than eight pending bits, and
    /// the output buffer holds exactly the stuffed bytes of the flushed bits.
    pub closed spec fn wf(&self) -> bool {
        &&& self.nbits < 8
        &&& (self.acc as nat) < pow2(self.nbits as nat)
        &&& self.emitted@.len() % 8 == 0
        &&& self.out@ == stuff(pack_bytes(self.emitted@))
    }

    /// The flushed bits (a whole number of bytes).
    pub closed spec fn flushed(&self) -> Seq<bool> {
        self.emitted@
    }

    /// The pending accumulator value.
    pub closed spec fn pending_acc(&self) -> u32 {
        self.acc
    }

    /// The number of pending bits.
    pub closed spec fn pending_len(&self) -> nat {
        self.nbits as nat
    }

    pub proof fn lemma_view_split(&self)
        requires
            self.wf(),
        ensures
            self@ == self.flushed() + msb_bits(self.pending_acc() as nat, self.pending_len()),
            self.pending_len() < 8,
            self.flushed().len() % 8 == 0,
            self@.len() == self.flushed().len() + self.pending_len(),
    {
        lemma_msb_bits_len(self.acc as nat, self.nbits as nat);
    }

    /// An empty writer.
    pub fn new() -> (w: Self)
        ensures
            w.wf(),
            w@ == Seq::<bool>::empty(),
    {
        let w = BitWriter { out: Vec::new(), acc: 0, nbits: 0, emitted: Ghost(Seq::empty()) };
        proof {
            lemma2_to64();
            assert(pack_bytes(Seq::<bool>::empty()) =~= Seq::<u8>::empty());
            assert(w@ =~= Seq::<bool>::empty());
        }
        w
    }

    /// The stuffed bytes flushed so far: every complete byte of the bits
    /// written.
    pub fn bytes(&self) -> (r: &Vec<u8>)
        requires
            self.wf(),
        ensures
            r@ == stuff(pack_bytes(self@)),
    {
        proof {
            lemma_pack_append(self.emitted@, msb_bits(self.acc as nat, self.nbits as nat));
            lemma_msb_bits_len(self.acc as nat, self.nbits as nat);
            assert(pack_bytes(msb_bits(self.acc as nat, self.nbits as nat)) =~= Seq::<u8>::empty());
            assert(pack_bytes(self@) =~= pack_bytes(self.emitted@));
        }
        &self.out
    }

    /// Append the `n` low bits of `bits` (most significant first), flushing
    /// every completed byte with 0xFF stuffing.
    pub fn put(&mut self, bits: u16, n: u8)
        requires
            old(self).wf(),
            n <= 16,
        ensures
            final(self).wf(),
            final(self)@ == old(self).flushed() + pending_after_put(
                old(self).pending_acc(),
                old(self).pending_len(),
                bits,
                n,
            ),
            (bits as nat) < pow2(n as nat) ==> final(self)@ == old(self)@ + msb_bits(
                bits as nat,
                n as nat,
            ),
    {
        let ghost old_acc = self.acc;
        let ghost old_nbits = self.nbits;
        let ghost old_view = self@;
        proof {
            lemma_pow2_strictly_increases(self.nbits as nat, 8);
            lemma2_to64();
        }
        let acc0: u32 = self.acc;
        assert(acc0 < 128);
        assert((acc0 << n) <= 0x7fffff) by (bit_vector)
            requires
                acc0 < 128u32,
                n <= 16u8,
        ;
        let v: u32 = (acc0 << n) | (bits as u32);
        let total: u8 = self.nbits + n;
        let ghost target = self.emitted@ + msb_bits(v as nat, total as nat);
        let mut nbits: u8 = total;
        while nbits >= 8
            invariant
                nbits <= 23,
                self.emitted@ + msb_bits(v as nat, nbits as nat) == target,
                self.emitted@.len() % 8 == 0,
                self.out@ == stuff(pack_bytes(self.emitted@)),
            decreases nbits,
        {
            let shift: u8 = nbits - 8;
            let q: u32 = v >> shift;
            assert(q & 0xFF <= 0xFF) by (bit_vector);
            let byte: u8 = (q & 0xFF) as u8;
            proof {
                lemma_msb_bits_split(v as nat, 8, shift as nat);
                let first = msb_bits(v as nat / pow2(shift as nat), 8);
                let rest = msb_bits(v as nat, shift as nat);
                assert(msb_bits(v as nat, nbits as nat) == first + rest) by {
                    assert((8 + shift) as nat == nbits as nat);
                }
                lemma_u32_shr_is_div(v, shift as u32);
                assert(q & 0xFF == q % 256) by (bit_vector);
                lemma_bits_value_msb(v as nat / pow2(shift as nat), 8);
                assert(pow2(8) == 256) by {
                    lemma2_to64();
                }
                assert(byte as nat == bits_value(first));
                lemma_msb_bits_len(v as nat / pow2(shift as nat), 8);
                lemma_pack_append(self.emitted@, first);
                lemma_pack_byte(first);
                lemma_stuff_push(pack_bytes(self.emitted@), byte);
                assert(pack_bytes(self.emitted@ + first) =~= pack_bytes(self.emitted@).push(byte));
                assert(self.emitted@ + first + rest =~= self.emitted@ + (first + rest));
            }
            self.out.push(byte);
            if byte == 0xFF {
                self.out.push(0x00);
            }
            proof {
                let first = msb_bits(v as nat / pow2(shift as nat), 8);
                self.emitted@ = self.emitted@ + first;
            }
            assert(self.out@ == stuff(pack_bytes(self.emitted@)));
            nbits = shift;
        }
        proof {
            lemma_u32_shl_is_mul(1, nbits as u32);
            lemma_u32_pow2_no_overflow(nbits as nat);
            lemma_u32_low_bits_mask_is_mod(v, nbits as nat);
            lemma2_to64();
        }
        assert((1u32 << nbits) == pow2(nbits as nat));
        let mask: u32 = (1u32 << nbits) - 1;
        assert(mask == low_bits_mask(nbits as nat) as u32);
        self.acc = v & mask;
        self.nbits = nbits;
        proof {
            lemma_pow2_pos(nbits as nat);
            lemma_msb_bits_mod(v as nat, nbits as nat);
            assert(self.acc as nat == (v as nat) % pow2(nbits as nat));
            assert(self@ == target);
            if (bits as nat) < pow2(n as nat) {
                lemma_u32_pow2_no_overflow(n as nat);
                let b32: u32 = bits as u32;
                let one: u32 = 1;
                lemma_u32_shl_is_mul(one, n as u32);
                assert(b32 < (one << n));
                assert((old_acc << n) | b32 == (old_acc << n) + b32) by (bit_vector)
                    requires
                        b32 < (one << n),
                        one == 1u32,
                        n <= 16u8,
                        old_acc < 128u32,
                ;
                lemma_pow2_strictly_increases(n as nat, 17);
                assert(old_acc as nat * pow2(n as nat) <= 0xffffffff) by (nonlinear_arith)
                    requires
                        old_acc < 128,
                        pow2(n as nat) < pow2(17),
                        pow2(17) == 0x20000,
                ;
                lemma_u32_shl_is_mul(old_acc, n as u32);
                let x = old_acc as nat * pow2(n as nat) + bits as nat;
                assert(v as nat == x);
                lemma_msb_bits_split(x, old_nbits as nat, n as nat);
                lemma_pow2_pos(n as nat);
                lemma_div_multiples_vanish_fancy(old_acc as int, bits as int, pow2(n as nat) as int);
                lemma_mul_is_commutative(old_acc as int, pow2(n as nat) as int);
                lemma_mod_multiples_vanish(old_acc as int, bits as int, pow2(n as nat) as int);
                lemma_small_mod(bits as nat, pow2(n as nat));
                assert(x / pow2(n as nat) == old_acc as nat);
                assert(x % pow2(n as nat) == bits as nat);
                lemma_msb_bits_mod(x, n as nat);
                lemma_msb_bits_mod(bits as nat, n as nat);
                assert(msb_bits(x, n as nat) == msb_bits(bits as nat, n as nat));
                assert((old_nbits + n) as nat == old_nbits as nat + n as nat);
                assert(target == old(self).flushed() + (msb_bits(old_acc as nat, old_nbits as nat) + msb_bits(bits as nat, n as nat)));
                assert(self@ =~= old_view + msb_bits(bits as nat, n as nat));
            }
        }
    }

    /// Pad the final partial byte with one-bits and return the entropy-coded
    /// bytes.
    pub fn finish(self) -> (r: Vec<u8>)
        requires
            self.wf(),
        ensures
            r@ == entropy_bytes(self@),
    {
        let mut w = self;
        proof {
            w.lemma_view_split();
        }
        if w.nbits > 0 {
            let pad: u8 = 8 - w.nbits;
            proof {
                lemma_u32_pow2_no_overflow(pad as nat);
                lemma2_to64();
                lemma_u16_shl_is_mul(1, pad as u16);
            }
            let ones_val: u16 = (1u16 << pad) - 1;
            assert(ones_val as nat == pow2(pad as nat) - 1);
            let ghost before = w@;
            w.put(ones_val, pad);
            proof {
                lemma_msb_bits_all_ones(pad as nat);
                assert(pad_len(before.len()) == pad as nat);
            }
        } else {
            proof {
                assert(ones(pad_len(w@.len())) =~= Seq::<bool>::empty());
                assert(w@ + ones(pad_len(w@.len())) =~= w@);
            }
        }
        proof {
            w.lemma_view_split();
        }
        let ghost final_view = w@;
        assert(w.nbits == 0);
        assert(msb_bits(w.acc as nat, 0) =~= Seq::<bool>::empty());
        assert(w.emitted@ =~= w@);
        w.out
    }
}

// ---------------------------------------------------------------------------
// Magnitude categories (T.81 F.1.2.1.1)
// ---------------------------------------------------------------------------

/// Number of binary digits of `m` (0 for 0).
pub open spec fn bit_length(m: nat) -> nat
    decreases m,
{
    if m == 0 {
        0
    } else {
        1 + bit_length(m / 2)
    }
}

/// Absolute value of an integer.
pub open spec fn abs_int(v: int) -> nat {
    if v < 0 {
        (-v) as nat
    } else {
        v as nat
    }
}

/// The magnitude category of `v`: the number of bits of `|v|`.
pub open spec fn category(v: int) -> nat {
    bit_length(abs_int(v))
}

/// The appended value bits of `v` in its category: `v` itself when
/// non-negative, `v - 1` (the one's complement of `|v|`) when negative, taken
/// over the category's bits (at most 16 of them).
pub open spec fn category_bits(v: int) -> nat {
    let size = category(v);
    let w = if v < 0 {
        v - 1
    } else {
        v
    };
    let k: nat = if size < 16 {
        size
    } else {
        16
    };
    (w % (pow2(k) as int)) as nat
}

/// Decoding of an appended value (T.81 F.2.2.1 `EXTEND`): a value whose
/// leading bit is clear stands for a negative number.
pub open spec fn extend(bits: nat, size: nat) -> int {
    if size == 0 {
        0
    } else if bits < pow2((size - 1) as nat) {
        bits - (pow2(size) - 1)
    } else {
        bits as int
    }
}

pub proof fn lemma_bit_length_bounds(m: nat, s: nat)
    requires
        s > 0,
        pow2((s - 1) as nat) <= m < pow2(s),
    ensures
        bit_length(m) == s,
    decreases s,
{
    lemma_pow2_unfold(s);
    lemma_pow2_pos((s - 1) as nat);
    if s == 1 {
        lemma2_to64();
        assert(m == 1);
        assert(bit_length(0) == 0);
    } else {
        lemma_pow2_unfold((s - 1) as nat);
        lemma_pow2_pos((s - 2) as nat);
        assert(pow2((s - 2) as nat) <= m / 2 < pow2((s - 1) as nat)) by {
            lemma_fundamental_div_mod(m as int, 2);
        }
        lemma_bit_length_bounds(m / 2, (s - 1) as nat);
    }
}

pub proof fn lemma_bit_length_upper(m: nat, s: nat)
    requires
        m < pow2(s),
    ensures
        bit_length(m) <= s,
    decreases s,
{
    lemma_pow2_pos(s);
    if m > 0 {
        if s == 0 {
            lemma2_to64();
        } else {
            lemma_pow2_unfold(s);
            lemma_bit_length_upper(m / 2, (s - 1) as nat);
        }
    }
}

pub proof fn lemma_bit_length_lower(m: nat)
    requires
        m > 0,
    ensures
        bit_length(m) > 0,
        pow2((bit_length(m) - 1) as nat) <= m < pow2(bit_length(m)),
    decreases m,
{
    if m == 1 {
        lemma2_to64();
        assert(bit_length(0) == 0);
        assert(bit_length(1) == 1 + bit_length(0));
    } else {
        lemma_bit_length_lower(m / 2);
        let s = bit_length(m / 2);
        assert(bit_length(m) == 1 + s);
        lemma_pow2_unfold(s + 1);
        lemma_pow2_unfold(s);
        lemma_fundamental_div_mod(m as int, 2);
    }
}

/// Bit category and appended value bits of a DC difference / AC coefficient.
pub fn category_and_bits(v: i32) -> (r: (u8, u16))
    requires
        v > i32::MIN,
    ensures
        r.0 as nat == category(v as int),
        r.1 as nat == category_bits(v as int),
        r.0 <= 31,
{
    let m: u32 = if v < 0 { (-(v as i64)) as u32 } else { v as u32 };
    assert(m as nat == abs_int(v as int));
    let lz: u32 = m.leading_zeros();
    proof {
        axiom_u32_leading_zeros(m);
    }
    let size: u8 = (32 - lz) as u8;
    proof {
        if m == 0 {
            assert(size == 0);
        } else {
            let s: u32 = (32 - lz) as u32;
            assert(s >= 1);
            let sh: u32 = (s - 1) as u32;
            assert((m >> sh) & 1u32 != 0u32);
            lemma_u32_shr_is_div(m, sh);
            assert(m as nat / pow2(sh as nat) != 0) by {
                if m as nat / pow2(sh as nat) == 0 {
                    assert((m >> sh) == 0);
                    assert((0u32 & 1u32) == 0u32) by (bit_vector);
                }
            }
            lemma_pow2_pos(sh as nat);
            assert(m as nat >= pow2(sh as nat)) by {
                if (m as nat) < pow2(sh as nat) {
                    lemma_basic_div(m as int, pow2(sh as nat) as int);
                }
            }
            // m < 2^s: either s == 32 or the bits from s up are clear.
            if s < 32 {
                assert(m >> s == 0);
                lemma_u32_shr_is_div(m, s);
                lemma_pow2_pos(s as nat);
                assert(m as nat / pow2(s as nat) == 0);
                assert((m as nat) < pow2(s as nat)) by {
                    lemma_fundamental_div_mod(m as int, pow2(s as nat) as int);
                }
            } else {
                lemma2_to64();
                lemma2_to64_rest();
            }
            lemma_bit_length_bounds(m as nat, s as nat);
        }
    }
    assert(size <= 32);
    // v == i32::MIN is excluded, so |v| < 2^31 and the size is at most 31.
    proof {
        lemma2_to64();
        lemma2_to64_rest();
        lemma_bit_length_upper(m as nat, 31);
    }
    assert(size <= 31);
    let w: i32 = if v < 0 { v - 1 } else { v };
    let one: u32 = 1;
    proof {
        lemma_u32_shl_is_mul(one, size as u32);
        lemma_u32_pow2_no_overflow(size as nat);
    }
    let mask32: u32 = (one << size) - 1;
    let mask: u16 = mask32 as u16;
    // The two's-complement low 16 bits of `w`, i.e. `w mod 2^16`.
    let w16: u16 = if w >= 0 {
        (w % 65536) as u16
    } else {
        let a: i64 = (-(w as i64)) % 65536;
        if a == 0 { 0 } else { (65536 - a) as u16 }
    };
    let bits: u16 = w16 & mask;
    proof {
        let k: nat = if size < 16 { size as nat } else { 16 };
        assert(w16 as int == (w as int) % 65536) by {
            if w < 0 {
                let a = (-(w as int)) % 65536;
                lemma_fundamental_div_mod(-(w as int), 65536);
                let q = (-(w as int)) / 65536;
                if a == 0 {
                    lemma_fundamental_div_mod_converse(w as int, 65536, -q, 0);
                } else {
                    lemma_fundamental_div_mod_converse(w as int, 65536, -q - 1, 65536 - a);
                }
            }
        }
        if size < 16 {
            lemma_u16_pow2_no_overflow(size as nat);
            assert(mask32 as nat == pow2(size as nat) - 1);
            assert(mask as nat == pow2(size as nat) - 1) by {
                lemma_pow2_strictly_increases(size as nat, 16);
                assert(mask32 < 65536);
                assert(mask32 < 65536 ==> (mask32 as u16) as u32 == mask32) by (bit_vector);
            }
            assert(mask == low_bits_mask(size as nat) as u16);
            lemma_u16_low_bits_mask_is_mod(w16, size as nat);
            assert(bits as nat == (w16 as nat) % pow2(size as nat));
            // 2^k divides 65536
            lemma_pow2_adds(size as nat, (16 - size) as nat);
            assert(pow2(16) == 65536);
            lemma_mod_mod(w as int, pow2(size as nat) as int, pow2((16 - size) as nat) as int);
            lemma_pow2_pos((16 - size) as nat);
            assert(pow2(size as nat) * pow2((16 - size) as nat) == 65536);
        } else {
            assert(size >= 16);
            lemma_pow2_adds(16, (size - 16) as nat);
            lemma_pow2_pos((size - 16) as nat);
            assert(mask32 as nat == pow2(size as nat) - 1);
            assert(mask32 as nat % 65536 == 65535) by {
                lemma_fundamental_div_mod_converse(
                    mask32 as int, 65536, pow2((size - 16) as nat) as int - 1, 65535);
            }
            assert((mask32 as u16) as int == (mask32 as int) % 65536) by (bit_vector);
            assert(mask == 0xFFFF);
            assert(w16 & 0xFFFF == w16) by (bit_vector);
            assert(bits == w16);
        }
    }
    (size, bits)
}

/// Decoding an appended value gives back the coefficient: the category and
/// value bits identify `v` for every `|v| < 2^16`.
pub proof fn lemma_category_roundtrip(v: int)
    requires
        -65536 < v < 65536,
    ensures
        category(v) <= 16,
        extend(category_bits(v), category(v)) == v,
        category_bits(v) < pow2(category(v)),
{
    let m = abs_int(v);
    lemma2_to64();
    lemma_bit_length_upper(m, 16);
    let s = category(v);
    if v != 0 {
        lemma_bit_length_lower(m);
        lemma_pow2_pos(s);
        lemma_pow2_pos((s - 1) as nat);
        lemma_pow2_unfold(s);
        if v > 0 {
            lemma_small_mod(v as nat, pow2(s));
        } else {
            // v - 1 + 2^s lies in [0, 2^(s-1)).
            let w = v - 1;
            lemma_fundamental_div_mod_converse(w, pow2(s) as int, -1, w + pow2(s) as int);
        }
    }
}

// ---------------------------------------------------------------------------
// Tables
// ---------------------------------------------------------------------------

/// Fixed encode quality (IJG 1–100 scale; 50 = Annex K tables unscaled).
pub const JPEG_QUALITY: u8 = 90;

/// Zigzag scan order: `ZIGZAG[i]` is the row-major coefficient index emitted
/// at scan position `i` (T.81 Figure A.6).
pub const ZIGZAG: [usize; 64] = [
    0, 1, 8, 16, 9, 2, 3, 10, 17, 24, 32, 25, 18, 11, 4, 5, 12, 19, 26, 33, 40, 48, 41, 34, 27, 20,
    13, 6, 7, 14, 21, 28, 35, 42, 49, 56, 57, 50, 43, 36, 29, 22, 15, 23, 30, 37, 44, 51, 58, 59,
    52, 45, 38, 31, 39, 46, 53, 60, 61, 54, 47, 55, 62, 63,
];

/// Every zigzag entry is a coefficient position.
pub proof fn lemma_zigzag_in_range()
    ensures
        forall|i: int| 0 <= i < 64 ==> #[trigger] ZIGZAG@[i] < 64,
{
}

/// The zigzag order is a permutation of the 64 coefficient positions.
pub proof fn lemma_zigzag_permutation()
    ensures
        forall|i: int| 0 <= i < 64 ==> #[trigger] ZIGZAG@[i] < 64,
        forall|i: int, j: int| 0 <= i < 64 && 0 <= j < 64 && i != j ==> ZIGZAG@[i] != ZIGZAG@[j],
        ZIGZAG@[0] == 0 && ZIGZAG@[1] == 1 && ZIGZAG@[2] == 8 && ZIGZAG@[63] == 63,
{
}

/// Annex K Table K.1 — luminance quantization (row-major).
pub const QUANT_LUMA: [u16; 64] = [
    16, 11, 10, 16, 24, 40, 51, 61, 12, 12, 14, 19, 26, 58, 60, 55, 14, 13, 16, 24, 40, 57, 69, 56,
    14, 17, 22, 29, 51, 87, 80, 62, 18, 22, 37, 56, 68, 109, 103, 77, 24, 35, 55, 64, 81, 104, 113,
    92, 49, 64, 78, 87, 103, 121, 120, 101, 72, 92, 95, 98, 112, 100, 103, 99,
];

/// Annex K Table K.2 — chrominance quantization (row-major).
pub const QUANT_CHROMA: [u16; 64] = [
    17, 18, 24, 47, 99, 99, 99, 99, 18, 21, 26, 66, 99, 99, 99, 99, 24, 26, 56, 99, 99, 99, 99, 99,
    47, 66, 99, 99, 99, 99, 99, 99, 99, 99, 99, 99, 99, 99, 99, 99, 99, 99, 99, 99, 99, 99, 99, 99,
    99, 99, 99, 99, 99, 99, 99, 99, 99, 99, 99, 99, 99, 99, 99, 99,
];

/// The quality clamped to the IJG range 1..=100.
pub open spec fn clamped_quality(quality: u8) -> nat {
    if quality < 1 {
        1
    } else if quality > 100 {
        100
    } else {
        quality as nat
    }
}

/// IJG percentage scale for a quality: `5000 / q` below 50, `200 - 2q` from 50.
pub open spec fn quality_scale(quality: u8) -> nat {
    let q = clamped_quality(quality);
    if q < 50 {
        5000nat / q
    } else {
        (200 - 2 * q) as nat
    }
}

/// One scaled quantizer: `(base * scale + 50) / 100`, clamped to 1..=255.
pub open spec fn scaled_quant_entry(base: nat, quality: u8) -> u8 {
    let v = (base * quality_scale(quality) + 50) / 100;
    if v < 1 {
        1
    } else if v > 255 {
        255
    } else {
        v as u8
    }
}

/// Scale an Annex K quantization table by `quality` (IJG mapping: 50 = the
/// table unscaled, 100 = all 1s) into the table actually used, clamped to the
/// baseline 1..=255 range, in zigzag order (as DQT stores it).
pub fn scaled_quant_zigzag(base: &[u16; 64], quality: u8) -> (out: [u8; 64])
    ensures
        forall|i: int|
            0 <= i < 64 ==> #[trigger] out@[i] == scaled_quant_entry(
                base@[ZIGZAG@[i] as int] as nat,
                quality,
            ),
{
    let q: u32 = if quality < 1 {
        1
    } else if quality > 100 {
        100
    } else {
        quality as u32
    };
    let scale: u32 = if q < 50 { 5000 / q } else { 200 - 2 * q };
    assert(scale <= 5000);
    let mut out = [0u8; 64];
    let zz = ZIGZAG;
    proof {
        lemma_zigzag_in_range();
    }
    for i in 0..64usize
        invariant
            zz@ == ZIGZAG@,
            forall|j: int| 0 <= j < 64 ==> #[trigger] ZIGZAG@[j] < 64,
            scale == quality_scale(quality),
            scale <= 5000,
            forall|j: int|
                0 <= j < i ==> #[trigger] out@[j] == scaled_quant_entry(
                    base@[ZIGZAG@[j] as int] as nat,
                    quality,
                ),
    {
        let b: u32 = base[zz[i]] as u32;
        assert(b * scale <= 65535 * 5000) by (nonlinear_arith)
            requires
                b <= 65535,
                scale <= 5000,
        ;
        let v: u32 = (b * scale + 50) / 100;
        let clamped: u32 = if v < 1 {
            1
        } else if v > 255 {
            255
        } else {
            v
        };
        out[i] = clamped as u8;
    }
    out
}

/// At quality 50 every quantizer of a baseline table (1..=255) is kept.
pub proof fn lemma_quality_50_keeps_table(base: nat)
    requires
        1 <= base <= 255,
    ensures
        scaled_quant_entry(base, 50) == base,
{
    assert((base * 100 + 50) / 100 == base) by (nonlinear_arith)
        requires
            base >= 0,
    ;
}

/// At quality 100 every quantizer is 1.
pub proof fn lemma_quality_100_is_all_ones(base: nat)
    ensures
        scaled_quant_entry(base, 100) == 1,
{
    assert(quality_scale(100) == 0);
    assert(base * 0 == 0);
    assert((0nat + 50) / 100 == 0);
}

/// Lower quality never gives a finer quantizer.
pub proof fn lemma_quality_monotone(base: nat, q1: u8, q2: u8)
    requires
        q1 <= q2,
    ensures
        scaled_quant_entry(base, q2) <= scaled_quant_entry(base, q1),
{
    let a = clamped_quality(q1);
    let b = clamped_quality(q2);
    assert(a <= b);
    assert(quality_scale(q2) <= quality_scale(q1)) by {
        if a < 50 && b < 50 {
            lemma_div_is_ordered_by_denominator(5000, a as int, b as int);
        } else if a < 50 {
            assert(5000nat / a >= 100) by {
                lemma_div_is_ordered_by_denominator(5000, a as int, 50);
            }
        }
    }
    let s1 = quality_scale(q1);
    let s2 = quality_scale(q2);
    assert(base * s2 <= base * s1) by (nonlinear_arith)
        requires
            s2 <= s1,
    ;
    lemma_div_is_ordered((base * s2 + 50) as int, (base * s1 + 50) as int, 100);
}

// ---------------------------------------------------------------------------
// Canonical Huffman codes (T.81 Annex C)
// ---------------------------------------------------------------------------

/// Annex K DC luminance table: BITS (codes per length 1..=16) + HUFFVAL.
pub const DC_LUMA_BITS: [u8; 16] = [0, 1, 5, 1, 1, 1, 1, 1, 1, 0, 0, 0, 0, 0, 0, 0];
pub const DC_LUMA_VALS: [u8; 12] = [0, 1, 2, 3, 4, 5, 6, 7, 8, 9, 10, 11];
/// Annex K DC chrominance table.
pub const DC_CHROMA_BITS: [u8; 16] = [0, 3, 1, 1, 1, 1, 1, 1, 1, 1, 1, 0, 0, 0, 0, 0];
pub const DC_CHROMA_VALS: [u8; 12] = [0, 1, 2, 3, 4, 5, 6, 7, 8, 9, 10, 11];
/// Annex K AC luminance table.
pub const AC_LUMA_BITS: [u8; 16] = [0, 2, 1, 3, 3, 2, 4, 3, 5, 5, 4, 4, 0, 0, 1, 125];
pub const AC_LUMA_VALS: [u8; 162] = [
    0x01, 0x02, 0x03, 0x00, 0x04, 0x11, 0x05, 0x12, 0x21, 0x31, 0x41, 0x06, 0x13, 0x51, 0x61,
    0x07, 0x22, 0x71, 0x14, 0x32, 0x81, 0x91, 0xa1, 0x08, 0x23, 0x42, 0xb1, 0xc1, 0x15, 0x52,
    0xd1, 0xf0, 0x24, 0x33, 0x62, 0x72, 0x82, 0x09, 0x0a, 0x16, 0x17, 0x18, 0x19, 0x1a, 0x25,
    0x26, 0x27, 0x28, 0x29, 0x2a, 0x34, 0x35, 0x36, 0x37, 0x38, 0x39, 0x3a, 0x43, 0x44, 0x45,
    0x46, 0x47, 0x48, 0x49, 0x4a, 0x53, 0x54, 0x55, 0x56, 0x57, 0x58, 0x59, 0x5a, 0x63, 0x64,
    0x65, 0x66, 0x67, 0x68, 0x69, 0x6a, 0x73, 0x74, 0x75, 0x76, 0x77, 0x78, 0x79, 0x7a, 0x83,
    0x84, 0x85, 0x86, 0x87, 0x88, 0x89, 0x8a, 0x92, 0x93, 0x94, 0x95, 0x96, 0x97, 0x98, 0x99,
    0x9a, 0xa2, 0xa3, 0xa4, 0xa5, 0xa6, 0xa7, 0xa8, 0xa9, 0xaa, 0xb2, 0xb3, 0xb4, 0xb5, 0xb6,
    0xb7, 0xb8, 0xb9, 0xba, 0xc2, 0xc3, 0xc4, 0xc5, 0xc6, 0xc7, 0xc8, 0xc9, 0xca, 0xd2, 0xd3,
    0xd4, 0xd5, 0xd6, 0xd7, 0xd8, 0xd9, 0xda, 0xe1, 0xe2, 0xe3, 0xe4, 0xe5, 0xe6, 0xe7, 0xe8,
    0xe9, 0xea, 0xf1, 0xf2, 0xf3, 0xf4, 0xf5, 0xf6, 0xf7, 0xf8, 0xf9, 0xfa,
];
/// Annex K AC chrominance table.
pub const AC_CHROMA_BITS: [u8; 16] = [0, 2, 1, 2, 4, 4, 3, 4, 7, 5, 4, 4, 0, 1, 2, 119];
pub const AC_CHROMA_VALS: [u8; 162] = [
    0x00, 0x01, 0x02, 0x03, 0x11, 0x04, 0x05, 0x21, 0x31, 0x06, 0x12, 0x41, 0x51, 0x07, 0x61,
    0x71, 0x13, 0x22, 0x32, 0x81, 0x08, 0x14, 0x42, 0x91, 0xa1, 0xb1, 0xc1, 0x09, 0x23, 0x33,
    0x52, 0xf0, 0x15, 0x62, 0x72, 0xd1, 0x0a, 0x16, 0x24, 0x34, 0xe1, 0x25, 0xf1, 0x17, 0x18,
    0x19, 0x1a, 0x26, 0x27, 0x28, 0x29, 0x2a, 0x35, 0x36, 0x37, 0x38, 0x39, 0x3a, 0x43, 0x44,
    0x45, 0x46, 0x47, 0x48, 0x49, 0x4a, 0x53, 0x54, 0x55, 0x56, 0x57, 0x58, 0x59, 0x5a, 0x63,
    0x64, 0x65, 0x66, 0x67, 0x68, 0x69, 0x6a, 0x73, 0x74, 0x75, 0x76, 0x77, 0x78, 0x79, 0x7a,
    0x82, 0x83, 0x84, 0x85, 0x86, 0x87, 0x88, 0x89, 0x8a, 0x92, 0x93, 0x94, 0x95, 0x96, 0x97,
    0x98, 0x99, 0x9a, 0xa2, 0xa3, 0xa4, 0xa5, 0xa6, 0xa7, 0xa8, 0xa9, 0xaa, 0xb2, 0xb3, 0xb4,
    0xb5, 0xb6, 0xb7, 0xb8, 0xb9, 0xba, 0xc2, 0xc3, 0xc4, 0xc5, 0xc6, 0xc7, 0xc8, 0xc9, 0xca,
    0xd2, 0xd3, 0xd4, 0xd5, 0xd6, 0xd7, 0xd8, 0xd9, 0xda, 0xe2, 0xe3, 0xe4, 0xe5, 0xe6, 0xe7,
    0xe8, 0xe9, 0xea, 0xf2, 0xf3, 0xf4, 0xf5, 0xf6, 0xf7, 0xf8, 0xf9, 0xfa,
];

/// Number of codes of length at most `l` (the first `l` BITS entries).
pub open spec fn count_before(bits: Seq<u8>, l: nat) -> nat
    decreases l,
{
    if l == 0 {
        0
    } else {
        count_before(bits, (l - 1) as nat) + bits[l - 1] as nat
    }
}

/// The first code of length `l + 1`: each length continues from the last
/// code of the previous length plus one, shifted left (16-bit register).
pub open spec fn first_code(bits: Seq<u8>, l: nat) -> nat
    decreases l,
{
    if l == 0 {
        0
    } else {
        ((first_code(bits, (l - 1) as nat) + bits[l - 1] as nat) * 2) % 65536
    }
}

/// The code register never overflows while codes are assigned.
pub open spec fn huffman_spec_fits(bits: Seq<u8>) -> bool {
    forall|l: nat| l < 16 ==> #[trigger] first_code(bits, l) + bits[l as int] <= 65535
}

/// Kraft's condition for a JPEG canonical code: the codes of each length fit
/// in that many bits, with the all-ones code of every length left unused
/// (T.81 Annex C).
pub open spec fn huffman_kraft(bits: Seq<u8>) -> bool {
    forall|l: nat| l < 16 ==> #[trigger] first_code(bits, l) + bits[l as int] < pow2(l + 1)
}

/// The length of the code of the `k`-th symbol, searching lengths from `l + 1`.
pub open spec fn code_length_from(bits: Seq<u8>, k: nat, l: nat) -> nat
    decreases 16 - l,
{
    if l >= 16 {
        16
    } else if k < count_before(bits, l + 1) {
        l + 1
    } else {
        code_length_from(bits, k, l + 1)
    }
}

/// `(code, length)` of the `k`-th symbol of a BITS specification.
pub open spec fn symbol_code(bits: Seq<u8>, k: nat) -> (nat, nat) {
    let len = code_length_from(bits, k, 0);
    let l = (len - 1) as nat;
    ((first_code(bits, l) + (k - count_before(bits, l))) as nat, len)
}

/// The code table after assigning the first `k` symbols of `vals`
/// (`table[symbol] = (code, length)`; unassigned symbols are `(0, 0)`; a
/// repeated symbol keeps its last code).
pub open spec fn huffman_table(bits: Seq<u8>, vals: Seq<u8>, k: nat) -> Seq<(u16, u8)>
    decreases k,
{
    if k == 0 {
        Seq::new(256, |i: int| (0u16, 0u8))
    } else {
        let c = symbol_code(bits, (k - 1) as nat);
        huffman_table(bits, vals, (k - 1) as nat).update(
            vals[k - 1] as int,
            (c.0 as u16, c.1 as u8),
        )
    }
}

/// The complete code table of a BITS + HUFFVAL specification.
pub open spec fn huffman_codes(bits: Seq<u8>, vals: Seq<u8>) -> Seq<(u16, u8)> {
    huffman_table(bits, vals, count_before(bits, 16))
}

pub proof fn lemma_count_before_monotone(bits: Seq<u8>, a: nat, b: nat)
    requires
        a <= b,
    ensures
        count_before(bits, a) <= count_before(bits, b),
    decreases b,
{
    if a < b {
        lemma_count_before_monotone(bits, a, (b - 1) as nat);
    }
}

/// A symbol between the counts of lengths `<= l` and `<= l + 1` gets length
/// `l + 1`.
pub proof fn lemma_code_length(bits: Seq<u8>, k: nat, l: nat, from: nat)
    requires
        l < 16,
        from <= l,
        count_before(bits, l) <= k < count_before(bits, l + 1),
    ensures
        code_length_from(bits, k, from) == l + 1,
    decreases l - from,
{
    if from < l {
        lemma_count_before_monotone(bits, from + 1, l);
        lemma_code_length(bits, k, l, from + 1);
    }
}

/// Canonical Huffman codes for a BITS + HUFFVAL spec: `codes[symbol]` =
/// `(code, length)` (T.81 Annex C code generation).
pub fn build_huffman_codes(bits: &[u8; 16], vals: &[u8]) -> (codes: [(u16, u8); 256])
    requires
        count_before(bits@, 16) <= vals@.len(),
        huffman_spec_fits(bits@),
    ensures
        codes@ == huffman_codes(bits@, vals@),
{
    let mut codes = [(0u16, 0u8); 256];
    let mut code: u16 = 0;
    let mut k: usize = 0;
    let ghost bs = bits@;
    assert(codes@ =~= huffman_table(bs, vals@, 0));
    for len_minus_1 in 0..16usize
        invariant
            bs == bits@,
            count_before(bs, 16) <= vals@.len(),
            huffman_spec_fits(bs),
            k == count_before(bs, len_minus_1 as nat),
            code == first_code(bs, len_minus_1 as nat),
            codes@ == huffman_table(bs, vals@, k as nat),
    {
        let count: u8 = bits[len_minus_1];
        let ghost l = len_minus_1 as nat;
        proof {
            lemma_count_before_monotone(bs, l + 1, 16);
            assert(first_code(bs, l) + bs[l as int] <= 65535);
        }
        for j in 0..count
            invariant
                bs == bits@,
                count == bs[l as int],
                l == len_minus_1,
                l < 16,
                count_before(bs, l + 1) <= vals@.len(),
                first_code(bs, l) + bs[l as int] <= 65535,
                k == count_before(bs, l) + j,
                code == first_code(bs, l) + j,
                codes@ == huffman_table(bs, vals@, k as nat),
        {
            proof {
                lemma_code_length(bs, k as nat, l, 0);
            }
            let sym: usize = vals[k] as usize;
            codes[sym] = (code, len_minus_1 as u8 + 1);
            proof {
                assert(symbol_code(bs, k as nat) == (code as nat, l + 1));
                assert(codes@ =~= huffman_table(bs, vals@, (k + 1) as nat));
            }
            code = code + 1;
            k = k + 1;
        }
        assert(code as nat == first_code(bs, l) + bs[l as int]);
        assert(code * 2 <= 0x1fffe);
        let shifted: u32 = (code as u32) * 2;
        code = (shifted % 65536) as u16;
    }
    codes
}

/// The length index `l` (code length `l + 1`) of the `k`-th symbol, searched
/// from `from`.
pub proof fn lemma_symbol_length(bits: Seq<u8>, k: nat, from: nat) -> (l: nat)
    requires
        from <= 16,
        k < count_before(bits, 16),
        count_before(bits, from) <= k,
    ensures
        l < 16,
        count_before(bits, l) <= k < count_before(bits, l + 1),
    decreases 16 - from,
{
    if from == 16 {
        0  // unreachable: count_before(bits, 16) <= k < count_before(bits, 16)
    } else if k < count_before(bits, from + 1) {
        from
    } else {
        lemma_symbol_length(bits, k, from + 1)
    }
}

/// Under Kraft's condition every assigned code fits in its length, and
/// lengths are at most 16.
pub proof fn lemma_kraft_codes_fit(bits: Seq<u8>, vals: Seq<u8>, k: nat)
    requires
        huffman_kraft(bits),
        k <= count_before(bits, 16),
    ensures
        huffman_table(bits, vals, k).len() == 256,
        forall|sym: int|
            0 <= sym < 256 ==> (#[trigger] huffman_table(bits, vals, k)[sym]).0 < pow2(
                huffman_table(bits, vals, k)[sym].1 as nat,
            ) && huffman_table(bits, vals, k)[sym].1 <= 16,
    decreases k,
{
    if k == 0 {
        assert forall|sym: int| 0 <= sym < 256 implies (#[trigger] huffman_table(bits, vals, k)[sym]).0
            < pow2(huffman_table(bits, vals, k)[sym].1 as nat) && huffman_table(bits, vals, k)[sym].1
            <= 16 by {
            lemma2_to64();
        }
    } else {
        lemma_kraft_codes_fit(bits, vals, (k - 1) as nat);
        let kk = (k - 1) as nat;
        let l = lemma_symbol_length(bits, kk, 0);
        lemma_code_length(bits, kk, l, 0);
        lemma_pow2_pos(l + 1);
        assert(first_code(bits, l) + bits[l as int] <= pow2(l + 1));
        lemma_pow2_strictly_increases(l + 1, 17);
        lemma2_to64();
        let c = symbol_code(bits, kk);
        assert(c.0 < pow2(l + 1));
        assert(c.0 < 65536);
        assert((c.0 as u16) as nat == c.0);
        assert(((l + 1) as u8) as nat == l + 1);
    }
}

/// The four Annex K Huffman specifications are well formed: their BITS
/// counts match their HUFFVAL lists, the code register never overflows, and
/// Kraft's condition holds, so every code fits in its length.
pub proof fn lemma_standard_huffman_tables()
    ensures
        count_before(DC_LUMA_BITS@, 16) == DC_LUMA_VALS@.len(),
        count_before(DC_CHROMA_BITS@, 16) == DC_CHROMA_VALS@.len(),
        count_before(AC_LUMA_BITS@, 16) == AC_LUMA_VALS@.len(),
        count_before(AC_CHROMA_BITS@, 16) == AC_CHROMA_VALS@.len(),
        huffman_spec_fits(DC_LUMA_BITS@) && huffman_kraft(DC_LUMA_BITS@),
        huffman_spec_fits(DC_CHROMA_BITS@) && huffman_kraft(DC_CHROMA_BITS@),
        huffman_spec_fits(AC_LUMA_BITS@) && huffman_kraft(AC_LUMA_BITS@),
        huffman_spec_fits(AC_CHROMA_BITS@) && huffman_kraft(AC_CHROMA_BITS@),
{
    lemma_dc_luma_table();
    lemma_dc_chroma_table();
    lemma_ac_luma_table();
    lemma_ac_chroma_table();
}

proof fn lemma_dc_luma_table()
    ensures
        count_before(DC_LUMA_BITS@, 16) == DC_LUMA_VALS@.len(),
        huffman_spec_fits(DC_LUMA_BITS@),
        huffman_kraft(DC_LUMA_BITS@),
{
    let bits = DC_LUMA_BITS@;
    assert(bits[0] == 0);
    assert(bits[1] == 1);
    assert(bits[2] == 5);
    assert(bits[3] == 1);
    assert(bits[4] == 1);
    assert(bits[5] == 1);
    assert(bits[6] == 1);
    assert(bits[7] == 1);
    assert(bits[8] == 1);
    assert(bits[9] == 0);
    assert(bits[10] == 0);
    assert(bits[11] == 0);
    assert(bits[12] == 0);
    assert(bits[13] == 0);
    assert(bits[14] == 0);
    assert(bits[15] == 0);
    assert(first_code(bits, 0) == 0);
    assert(count_before(bits, 0) == 0);
    assert(first_code(bits, 1) == 0);
    assert(count_before(bits, 1) == 0);
    assert(first_code(bits, 2) == 2);
    assert(count_before(bits, 2) == 1);
    assert(first_code(bits, 3) == 14);
    assert(count_before(bits, 3) == 6);
    assert(first_code(bits, 4) == 30);
    assert(count_before(bits, 4) == 7);
    assert(first_code(bits, 5) == 62);
    assert(count_before(bits, 5) == 8);
    assert(first_code(bits, 6) == 126);
    assert(count_before(bits, 6) == 9);
    assert(first_code(bits, 7) == 254);
    assert(count_before(bits, 7) == 10);
    assert(first_code(bits, 8) == 510);
    assert(count_before(bits, 8) == 11);
    assert(first_code(bits, 9) == 1022);
    assert(count_before(bits, 9) == 12);
    assert(first_code(bits, 10) == 2044);
    assert(count_before(bits, 10) == 12);
    assert(first_code(bits, 11) == 4088);
    assert(count_before(bits, 11) == 12);
    assert(first_code(bits, 12) == 8176);
    assert(count_before(bits, 12) == 12);
    assert(first_code(bits, 13) == 16352);
    assert(count_before(bits, 13) == 12);
    assert(first_code(bits, 14) == 32704);
    assert(count_before(bits, 14) == 12);
    assert(first_code(bits, 15) == 65408);
    assert(count_before(bits, 15) == 12);
    assert(first_code(bits, 16) == 65280);
    assert(count_before(bits, 16) == 12);
    lemma_table_fits(bits);
}

proof fn lemma_dc_chroma_table()
    ensures
        count_before(DC_CHROMA_BITS@, 16) == DC_CHROMA_VALS@.len(),
        huffman_spec_fits(DC_CHROMA_BITS@),
        huffman_kraft(DC_CHROMA_BITS@),
{
    let bits = DC_CHROMA_BITS@;
    assert(bits[0] == 0);
    assert(bits[1] == 3);
    assert(bits[2] == 1);
    assert(bits[3] == 1);
    assert(bits[4] == 1);
    assert(bits[5] == 1);
    assert(bits[6] == 1);
    assert(bits[7] == 1);
    assert(bits[8] == 1);
    assert(bits[9] == 1);
    assert(bits[10] == 1);
    assert(bits[11] == 0);
    assert(bits[12] == 0);
    assert(bits[13] == 0);
    assert(bits[14] == 0);
    assert(bits[15] == 0);
    assert(first_code(bits, 0) == 0);
    assert(count_before(bits, 0) == 0);
    assert(first_code(bits, 1) == 0);
    assert(count_before(bits, 1) == 0);
    assert(first_code(bits, 2) == 6);
    assert(count_before(bits, 2) == 3);
    assert(first_code(bits, 3) == 14);
    assert(count_before(bits, 3) == 4);
    assert(first_code(bits, 4) == 30);
    assert(count_before(bits, 4) == 5);
    assert(first_code(bits, 5) == 62);
    assert(count_before(bits, 5) == 6);
    assert(first_code(bits, 6) == 126);
    assert(count_before(bits, 6) == 7);
    assert(first_code(bits, 7) == 254);
    assert(count_before(bits, 7) == 8);
    assert(first_code(bits, 8) == 510);
    assert(count_before(bits, 8) == 9);
    assert(first_code(bits, 9) == 1022);
    assert(count_before(bits, 9) == 10);
    assert(first_code(bits, 10) == 2046);
    assert(count_before(bits, 10) == 11);
    assert(first_code(bits, 11) == 4094);
    assert(count_before(bits, 11) == 12);
    assert(first_code(bits, 12) == 8188);
    assert(count_before(bits, 12) == 12);
    assert(first_code(bits, 13) == 16376);
    assert(count_before(bits, 13) == 12);
    assert(first_code(bits, 14) == 32752);
    assert(count_before(bits, 14) == 12);
    assert(first_code(bits, 15) == 65504);
    assert(count_before(bits, 15) == 12);
    assert(first_code(bits, 16) == 65472);
    assert(count_before(bits, 16) == 12);
    lemma_table_fits(bits);
}

proof fn lemma_ac_luma_table()
    ensures
        count_before(AC_LUMA_BITS@, 16) == AC_LUMA_VALS@.len(),
        huffman_spec_fits(AC_LUMA_BITS@),
        huffman_kraft(AC_LUMA_BITS@),
{
    let bits = AC_LUMA_BITS@;
    assert(bits[0] == 0);
    assert(bits[1] == 2);
    assert(bits[2] == 1);
    assert(bits[3] == 3);
    assert(bits[4] == 3);
    assert(bits[5] == 2);
    assert(bits[6] == 4);
    assert(bits[7] == 3);
    assert(bits[8] == 5);
    assert(bits[9] == 5);
    assert(bits[10] == 4);
    assert(bits[11] == 4);
    assert(bits[12] == 0);
    assert(bits[13] == 0);
    assert(bits[14] == 1);
    assert(bits[15] == 125);
    assert(first_code(bits, 0) == 0);
    assert(count_before(bits, 0) == 0);
    assert(first_code(bits, 1) == 0);
    assert(count_before(bits, 1) == 0);
    assert(first_code(bits, 2) == 4);
    assert(count_before(bits, 2) == 2);
    assert(first_code(bits, 3) == 10);
    assert(count_before(bits, 3) == 3);
    assert(first_code(bits, 4) == 26);
    assert(count_before(bits, 4) == 6);
    assert(first_code(bits, 5) == 58);
    assert(count_before(bits, 5) == 9);
    assert(first_code(bits, 6) == 120);
    assert(count_before(bits, 6) == 11);
    assert(first_code(bits, 7) == 248);
    assert(count_before(bits, 7) == 15);
    assert(first_code(bits, 8) == 502);
    assert(count_before(bits, 8) == 18);
    assert(first_code(bits, 9) == 1014);
    assert(count_before(bits, 9) == 23);
    assert(first_code(bits, 10) == 2038);
    assert(count_before(bits, 10) == 28);
    assert(first_code(bits, 11) == 4084);
    assert(count_before(bits, 11) == 32);
    assert(first_code(bits, 12) == 8176);
    assert(count_before(bits, 12) == 36);
    assert(first_code(bits, 13) == 16352);
    assert(count_before(bits, 13) == 36);
    assert(first_code(bits, 14) == 32704);
    assert(count_before(bits, 14) == 36);
    assert(first_code(bits, 15) == 65410);
    assert(count_before(bits, 15) == 37);
    assert(first_code(bits, 16) == 65534);
    assert(count_before(bits, 16) == 162);
    lemma_table_fits(bits);
}

proof fn lemma_ac_chroma_table()
    ensures
        count_before(AC_CHROMA_BITS@, 16) == AC_CHROMA_VALS@.len(),
        huffman_spec_fits(AC_CHROMA_BITS@),
        huffman_kraft(AC_CHROMA_BITS@),
{
    let bits = AC_CHROMA_BITS@;
    assert(bits[0] == 0);
    assert(bits[1] == 2);
    assert(bits[2] == 1);
    assert(bits[3] == 2);
    assert(bits[4] == 4);
    assert(bits[5] == 4);
    assert(bits[6] == 3);
    assert(bits[7] == 4);
    assert(bits[8] == 7);
    assert(bits[9] == 5);
    assert(bits[10] == 4);
    assert(bits[11] == 4);
    assert(bits[12] == 0);
    assert(bits[13] == 1);
    assert(bits[14] == 2);
    assert(bits[15] == 119);
    assert(first_code(bits, 0) == 0);
    assert(count_before(bits, 0) == 0);
    assert(first_code(bits, 1) == 0);
    assert(count_before(bits, 1) == 0);
    assert(first_code(bits, 2) == 4);
    assert(count_before(bits, 2) == 2);
    assert(first_code(bits, 3) == 10);
    assert(count_before(bits, 3) == 3);
    assert(first_code(bits, 4) == 24);
    assert(count_before(bits, 4) == 5);
    assert(first_code(bits, 5) == 56);
    assert(count_before(bits, 5) == 9);
    assert(first_code(bits, 6) == 120);
    assert(count_before(bits, 6) == 13);
    assert(first_code(bits, 7) == 246);
    assert(count_before(bits, 7) == 16);
    assert(first_code(bits, 8) == 500);
    assert(count_before(bits, 8) == 20);
    assert(first_code(bits, 9) == 1014);
    assert(count_before(bits, 9) == 27);
    assert(first_code(bits, 10) == 2038);
    assert(count_before(bits, 10) == 32);
    assert(first_code(bits, 11) == 4084);
    assert(count_before(bits, 11) == 36);
    assert(first_code(bits, 12) == 8176);
    assert(count_before(bits, 12) == 40);
    assert(first_code(bits, 13) == 16352);
    assert(count_before(bits, 13) == 40);
    assert(first_code(bits, 14) == 32706);
    assert(count_before(bits, 14) == 41);
    assert(first_code(bits, 15) == 65416);
    assert(count_before(bits, 15) == 43);
    assert(first_code(bits, 16) == 65534);
    assert(count_before(bits, 16) == 162);
    lemma_table_fits(bits);
}

proof fn lemma_table_fits(bits: Seq<u8>)
    requires
        bits.len() == 16,
        first_code(bits, 0) + bits[0] < 2,
        first_code(bits, 1) + bits[1] < 4,
        first_code(bits, 2) + bits[2] < 8,
        first_code(bits, 3) + bits[3] < 16,
        first_code(bits, 4) + bits[4] < 32,
        first_code(bits, 5) + bits[5] < 64,
        first_code(bits, 6) + bits[6] < 128,
        first_code(bits, 7) + bits[7] < 256,
        first_code(bits, 8) + bits[8] < 512,
        first_code(bits, 9) + bits[9] < 1024,
        first_code(bits, 10) + bits[10] < 2048,
        first_code(bits, 11) + bits[11] < 4096,
        first_code(bits, 12) + bits[12] < 8192,
        first_code(bits, 13) + bits[13] < 16384,
        first_code(bits, 14) + bits[14] < 32768,
        first_code(bits, 15) + bits[15] < 65536,
    ensures
        huffman_spec_fits(bits),
        huffman_kraft(bits),
{
    lemma2_to64();
    assert forall|l: nat| l < 16 implies #[trigger] first_code(bits, l) + bits[l as int] < pow2(
        l + 1,
    ) && first_code(bits, l) + bits[l as int] <= 65535 by {
        assert(l == 0 || l == 1 || l == 2 || l == 3 || l == 4 || l == 5 || l == 6 || l == 7
            || l == 8 || l == 9 || l == 10 || l == 11 || l == 12 || l == 13 || l == 14 || l == 15);
    }
}

// ---------------------------------------------------------------------------
// Entropy coding of the scan (T.81 F.1.2)
// ---------------------------------------------------------------------------

/// A coefficient a baseline block may carry here: its category is at most
/// 15, so every AC symbol fits in one byte.
pub open spec fn coefficient_in_range(c: int) -> bool {
    -32767 <= c <= 32767
}

/// Every entry of a code table fits in its length, and no length exceeds 16.
pub open spec fn table_codes_fit(t: Seq<(u16, u8)>) -> bool {
    &&& t.len() == 256
    &&& forall|sym: int|
        0 <= sym < 256 ==> (#[trigger] t[sym]).0 < pow2(t[sym].1 as nat) && t[sym].1 <= 16
}

/// The Huffman code of `sym` in `table`, as bits.
pub open spec fn code_bits(table: Seq<(u16, u8)>, sym: int) -> Seq<bool> {
    msb_bits(table[sym].0 as nat, table[sym].1 as nat)
}

/// The value bits appended after a category code.
pub open spec fn value_bits(v: int) -> Seq<bool> {
    msb_bits(category_bits(v), category(v))
}

/// `n` zero-run-length codes (ZRL, sixteen zeros each).
pub open spec fn zrl_bits(ac: Seq<(u16, u8)>, n: nat) -> Seq<bool>
    decreases n,
{
    if n == 0 {
        Seq::empty()
    } else {
        code_bits(ac, 0xF0) + zrl_bits(ac, (n - 1) as nat)
    }
}

/// AC coding of zigzag positions `i..64` with `run` zeros pending: each
/// non-zero coefficient is preceded by ZRLs for every full sixteen zeros and
/// coded as symbol `(run mod 16) << 4 | category`, followed by its value
/// bits; a trailing run of zeros ends with EOB (symbol 0x00).
pub open spec fn ac_bits(zz: Seq<i32>, i: nat, run: nat, ac: Seq<(u16, u8)>) -> Seq<bool>
    decreases 64 - i,
{
    if i >= 64 {
        if run > 0 {
            code_bits(ac, 0x00)
        } else {
            Seq::empty()
        }
    } else if zz[i as int] == 0 {
        ac_bits(zz, i + 1, run + 1, ac)
    } else {
        zrl_bits(ac, run / 16) + code_bits(ac, ((run % 16) * 16 + category(zz[i as int] as int)) as int)
            + value_bits(zz[i as int] as int) + ac_bits(zz, i + 1, 0, ac)
    }
}

/// The coded bits of one block: the DC difference against the predictor,
/// then the AC run-length codes.
pub open spec fn block_bits(zz: Seq<i32>, pred: int, dc: Seq<(u16, u8)>, ac: Seq<(u16, u8)>) -> Seq<
    bool,
> {
    let diff = zz[0] - pred;
    code_bits(dc, category(diff) as int) + value_bits(diff) + ac_bits(zz, 1, 0, ac)
}

proof fn lemma_zrl_step(ac: Seq<(u16, u8)>, run: nat)
    requires
        run >= 16,
    ensures
        zrl_bits(ac, run / 16) == code_bits(ac, 0xF0) + zrl_bits(ac, ((run - 16) as nat) / 16),
        ((run - 16) as nat) % 16 == run % 16,
{
    assert(run / 16 == ((run - 16) as nat) / 16 + 1) by {
        lemma_fundamental_div_mod(run as int, 16);
        lemma_fundamental_div_mod((run - 16) as int, 16);
    }
}

/// Code one block into the writer.
fn encode_block(
    bw: &mut BitWriter,
    zz: &[i32; 64],
    pred: i32,
    dc_tab: &[(u16, u8); 256],
    ac_tab: &[(u16, u8); 256],
)
    requires
        old(bw).wf(),
        forall|i: int| 0 <= i < 64 ==> coefficient_in_range(#[trigger] zz@[i] as int),
        coefficient_in_range(pred as int),
        table_codes_fit(dc_tab@),
        table_codes_fit(ac_tab@),
    ensures
        final(bw).wf(),
        final(bw)@ == old(bw)@ + block_bits(zz@, pred as int, dc_tab@, ac_tab@),
{
    let ghost start = bw@;
    let diff: i32 = zz[0] - pred;
    proof {
        lemma_category_roundtrip(diff as int);
    }
    let (size, bits) = category_and_bits(diff);
    let (code, len) = dc_tab[size as usize];
    bw.put(code, len);
    if size > 0 {
        bw.put(bits, size);
    } else {
        assert(value_bits(diff as int) =~= Seq::<bool>::empty());
    }
    let ghost after_dc = bw@;
    assert(after_dc == start + (code_bits(dc_tab@, category(diff as int) as int) + value_bits(
        diff as int,
    )));
    let mut run: u8 = 0;
    let mut i: usize = 1;
    while i < 64
        invariant
            1 <= i <= 64,
            run as nat + 1 <= i,
            bw.wf(),
            forall|j: int| 0 <= j < 64 ==> coefficient_in_range(#[trigger] zz@[j] as int),
            table_codes_fit(ac_tab@),
            bw@ + ac_bits(zz@, i as nat, run as nat, ac_tab@) == after_dc + ac_bits(
                zz@,
                1,
                0,
                ac_tab@,
            ),
        decreases 64 - i,
    {
        let c = zz[i];
        if c == 0 {
            run = run + 1;
        } else {
            let ghost run0 = run as nat;
            let ghost before_zrl = bw@;
            while run >= 16
                invariant
                    bw.wf(),
                    table_codes_fit(ac_tab@),
                    run as nat % 16 == run0 % 16,
                    run <= run0,
                    bw@ + zrl_bits(ac_tab@, run as nat / 16) == before_zrl + zrl_bits(
                        ac_tab@,
                        run0 / 16,
                    ),
                decreases run,
            {
                let (code, len) = ac_tab[0xF0];
                let ghost before = bw@;
                bw.put(code, len);
                proof {
                    lemma_zrl_step(ac_tab@, run as nat);
                    assert(before + zrl_bits(ac_tab@, run as nat / 16) =~= bw@ + zrl_bits(
                        ac_tab@,
                        ((run - 16) as nat) / 16,
                    ));
                }
                run = run - 16;
            }
            assert(run as nat / 16 == 0);
            assert(zrl_bits(ac_tab@, 0) =~= Seq::<bool>::empty());
            assert(bw@ =~= before_zrl + zrl_bits(ac_tab@, run0 / 16));
            proof {
                lemma_category_roundtrip(c as int);
                lemma2_to64();
                lemma_bit_length_upper(abs_int(c as int), 15);
            }
            let (size, bits) = category_and_bits(c);
            assert(size <= 15);
            assert(run < 16);
            assert((run << 4u8) | size == run * 16 + size) by (bit_vector)
                requires
                    run < 16u8,
                    size <= 15u8,
            ;
            let sym: u8 = (run << 4) | size;
            let (code, len) = ac_tab[sym as usize];
            bw.put(code, len);
            bw.put(bits, size);
            proof {
                assert(run as nat == run0 % 16);
                let zi = zz@[i as int];
                assert(ac_bits(zz@, i as nat, run0, ac_tab@) == zrl_bits(ac_tab@, run0 / 16)
                    + code_bits(ac_tab@, ((run0 % 16) * 16 + category(zi as int)) as int)
                    + value_bits(zi as int) + ac_bits(zz@, (i + 1) as nat, 0, ac_tab@));
                assert(bw@ + ac_bits(zz@, (i + 1) as nat, 0, ac_tab@) =~= before_zrl + ac_bits(
                    zz@,
                    i as nat,
                    run0,
                    ac_tab@,
                ));
            }
            run = 0;
        }
        i = i + 1;
    }
    if run > 0 {
        let (code, len) = ac_tab[0x00];
        bw.put(code, len);
    } else {
        assert(ac_bits(zz@, 64, 0, ac_tab@) =~= Seq::<bool>::empty());
    }
    assert(bw@ =~= start + block_bits(zz@, pred as int, dc_tab@, ac_tab@));
}

// ---------------------------------------------------------------------------
// Stream layout
// ---------------------------------------------------------------------------

/// A 16-bit big-endian field.
pub open spec fn be16(v: nat) -> Seq<u8> {
    seq![((v / 256) % 256) as u8, (v % 256) as u8]
}

/// A marker segment: 0xFF, the marker, the 16-bit big-endian length covering
/// the length field and the payload, then the payload.
pub open spec fn segment(marker: u8, payload: Seq<u8>) -> Seq<u8> {
    seq![0xFFu8, marker] + be16(payload.len() % 65536 + 2) + payload
}

/// Append a marker segment.
pub fn push_segment(out: &mut Vec<u8>, marker: u8, payload: &[u8])
    requires
        payload@.len() % 65536 + 2 <= 65535,
    ensures
        final(out)@ == old(out)@ + segment(marker, payload@),
{
    let n: u16 = (payload.len() % 65536) as u16 + 2;
    out.push(0xFF);
    out.push(marker);
    out.push((n / 256) as u8);
    out.push((n % 256) as u8);
    let ghost before = out@;
    let mut i: usize = 0;
    while i < payload.len()
        invariant
            i <= payload@.len(),
            out@ == before + payload@.take(i as int),
        decreases payload@.len() - i,
    {
        out.push(payload[i]);
        assert(payload@.take((i + 1) as int) =~= payload@.take(i as int).push(payload@[i as int]));
        i = i + 1;
    }
    assert(payload@.take(payload@.len() as int) =~= payload@);
    assert(out@ =~= old(out)@ + segment(marker, payload@));
}

/// The JFIF APP0 payload: identifier, version 1.01, density in dots per inch
/// (clamped to 1..=65535), no thumbnail.
pub open spec fn app0_payload(dpi: u32) -> Seq<u8> {
    let d: nat = if dpi < 1 {
        1
    } else if dpi > 65535 {
        65535
    } else {
        dpi as nat
    };
    seq![0x4Au8, 0x46u8, 0x49u8, 0x46u8, 0x00u8, 1u8, 1u8, 1u8] + be16(d) + be16(d) + seq![0u8, 0u8]
}

/// The zigzag-ordered quantization table at the encode quality.
pub open spec fn quant_table(base: Seq<u16>) -> Seq<u8> {
    Seq::new(64, |i: int| scaled_quant_entry(base[ZIGZAG@[i] as int] as nat, JPEG_QUALITY))
}

/// SOF0 payload: 8-bit precision, height, width, three components with 1×1
/// sampling (Y on quantizer 0, Cb and Cr on quantizer 1).
pub open spec fn sof0_payload(width: u32, height: u32) -> Seq<u8> {
    seq![8u8] + be16(height as nat % 65536) + be16(width as nat % 65536) + seq![
        3u8,
        1u8,
        0x11u8,
        0u8,
        2u8,
        0x11u8,
        1u8,
        3u8,
        0x11u8,
        1u8,
    ]
}

/// SOS payload: three components, DC/AC table selectors, full spectrum.
pub open spec fn sos_payload() -> Seq<u8> {
    seq![3u8, 1u8, 0x00u8, 2u8, 0x11u8, 3u8, 0x11u8, 0u8, 63u8, 0u8]
}

/// Every segment before the scan.
pub open spec fn jpeg_header(width: u32, height: u32, dpi: u32) -> Seq<u8> {
    seq![0xFFu8, 0xD8u8]
        + segment(0xE0, app0_payload(dpi))
        + segment(0xDB, seq![0u8] + quant_table(QUANT_LUMA@))
        + segment(0xDB, seq![1u8] + quant_table(QUANT_CHROMA@))
        + segment(0xC0, sof0_payload(width, height))
        + segment(0xC4, seq![0x00u8] + DC_LUMA_BITS@ + DC_LUMA_VALS@)
        + segment(0xC4, seq![0x10u8] + AC_LUMA_BITS@ + AC_LUMA_VALS@)
        + segment(0xC4, seq![0x01u8] + DC_CHROMA_BITS@ + DC_CHROMA_VALS@)
        + segment(0xC4, seq![0x11u8] + AC_CHROMA_BITS@ + AC_CHROMA_VALS@)
        + segment(0xDA, sos_payload())
}

/// Number of 8×8 blocks across a dimension.
pub open spec fn blocks_along(n: u32) -> nat {
    ((n as nat) + 7) / 8
}

/// The DC predictor of block `idx` in an interleaved Y, Cb, Cr sequence:
/// the DC coefficient of the previous block of the same component, or 0.
pub open spec fn dc_predictor(blocks: Seq<[i32; 64]>, idx: int) -> int {
    if idx < 3 {
        0
    } else {
        blocks[idx - 3]@[0] as int
    }
}

/// DC table for a component (luminance for component 0).
pub open spec fn dc_table(comp: int) -> Seq<(u16, u8)> {
    if comp == 0 {
        huffman_codes(DC_LUMA_BITS@, DC_LUMA_VALS@)
    } else {
        huffman_codes(DC_CHROMA_BITS@, DC_CHROMA_VALS@)
    }
}

/// AC table for a component (luminance for component 0).
pub open spec fn ac_table(comp: int) -> Seq<(u16, u8)> {
    if comp == 0 {
        huffman_codes(AC_LUMA_BITS@, AC_LUMA_VALS@)
    } else {
        huffman_codes(AC_CHROMA_BITS@, AC_CHROMA_VALS@)
    }
}

/// The coded bits of the first `n` blocks of the scan.
pub open spec fn scan_bits(blocks: Seq<[i32; 64]>, n: nat) -> Seq<bool>
    decreases n,
{
    if n == 0 {
        Seq::empty()
    } else {
        let idx = n - 1;
        let comp = idx % 3;
        scan_bits(blocks, (n - 1) as nat) + block_bits(
            blocks[idx]@,
            dc_predictor(blocks, idx),
            dc_table(comp),
            ac_table(comp),
        )
    }
}

/// The complete baseline JFIF stream for a scan of coefficient blocks.
pub open spec fn jpeg_stream(blocks: Seq<[i32; 64]>, width: u32, height: u32, dpi: u32) -> Seq<
    u8,
> {
    jpeg_header(width, height, dpi) + entropy_bytes(scan_bits(blocks, blocks.len()))
        + seq![0xFFu8, 0xD9u8]
}

/// All coefficients of all blocks lie in the baseline range.
pub open spec fn blocks_in_range(blocks: Seq<[i32; 64]>) -> bool {
    forall|b: int, i: int|
        0 <= b < blocks.len() && 0 <= i < 64 ==> coefficient_in_range(
            #[trigger] blocks[b]@[i] as int,
        )
}

fn push_table_segment(out: &mut Vec<u8>, marker: u8, id: u8, table: &[u8])
    requires
        table@.len() < 1000,
    ensures
        final(out)@ == old(out)@ + segment(marker, seq![id] + table@),
{
    let mut payload: Vec<u8> = Vec::new();
    payload.push(id);
    let mut i: usize = 0;
    while i < table.len()
        invariant
            i <= table@.len(),
            payload@ == seq![id] + table@.take(i as int),
        decreases table@.len() - i,
    {
        payload.push(table[i]);
        assert(table@.take((i + 1) as int) =~= table@.take(i as int).push(table@[i as int]));
        i = i + 1;
    }
    assert(table@.take(table@.len() as int) =~= table@);
    push_segment(out, marker, payload.as_slice());
}

fn push_huffman_segment(out: &mut Vec<u8>, class_id: u8, bits: &[u8; 16], vals: &[u8])
    requires
        vals@.len() < 1000,
    ensures
        final(out)@ == old(out)@ + segment(0xC4, seq![class_id] + bits@ + vals@),
{
    let mut payload: Vec<u8> = Vec::new();
    payload.push(class_id);
    let mut i: usize = 0;
    while i < 16
        invariant
            i <= 16,
            payload@ == seq![class_id] + bits@.take(i as int),
        decreases 16 - i,
    {
        payload.push(bits[i]);
        assert(bits@.take((i + 1) as int) =~= bits@.take(i as int).push(bits@[i as int]));
        i = i + 1;
    }
    assert(bits@.take(16) =~= bits@);
    let mut j: usize = 0;
    while j < vals.len()
        invariant
            j <= vals@.len(),
            payload@ == seq![class_id] + bits@ + vals@.take(j as int),
        decreases vals@.len() - j,
    {
        payload.push(vals[j]);
        assert(vals@.take((j + 1) as int) =~= vals@.take(j as int).push(vals@[j as int]));
        j = j + 1;
    }
    assert(vals@.take(vals@.len() as int) =~= vals@);
    push_segment(out, 0xC4, payload.as_slice());
}

/// The luma and chroma quantization tables the stream declares, in zigzag
/// order: the coefficients of a block must be quantized with these.
pub fn stream_quant_tables() -> (r: ([u8; 64], [u8; 64]))
    ensures
        r.0@ == quant_table(QUANT_LUMA@),
        r.1@ == quant_table(QUANT_CHROMA@),
{
    let q_luma = scaled_quant_zigzag(&QUANT_LUMA, JPEG_QUALITY);
    let q_chroma = scaled_quant_zigzag(&QUANT_CHROMA, JPEG_QUALITY);
    assert(q_luma@ =~= quant_table(QUANT_LUMA@));
    assert(q_chroma@ =~= quant_table(QUANT_CHROMA@));
    (q_luma, q_chroma)
}

/// The header segments, SOI through SOS.
fn jpeg_header_bytes(width: u32, height: u32, dpi: u32) -> (out: Vec<u8>)
    ensures
        out@ == jpeg_header(width, height, dpi),
{
    let q_luma = scaled_quant_zigzag(&QUANT_LUMA, JPEG_QUALITY);
    let q_chroma = scaled_quant_zigzag(&QUANT_CHROMA, JPEG_QUALITY);
    assert(q_luma@ =~= quant_table(QUANT_LUMA@));
    assert(q_chroma@ =~= quant_table(QUANT_CHROMA@));
    // Headers.
    let mut out: Vec<u8> = Vec::new();
    out.push(0xFF);
    out.push(0xD8);
    let density: u16 = if dpi < 1 {
        1
    } else if dpi > 65535 {
        65535
    } else {
        dpi as u16
    };
    let mut app0: Vec<u8> = Vec::new();
    app0.push(0x4A);
    app0.push(0x46);
    app0.push(0x49);
    app0.push(0x46);
    app0.push(0x00);
    app0.push(1);
    app0.push(1);
    app0.push(1);
    app0.push((density / 256) as u8);
    app0.push((density % 256) as u8);
    app0.push((density / 256) as u8);
    app0.push((density % 256) as u8);
    app0.push(0);
    app0.push(0);
    assert(app0@ =~= app0_payload(dpi));
    push_segment(&mut out, 0xE0, app0.as_slice());
    push_table_segment(&mut out, 0xDB, 0, &q_luma);
    push_table_segment(&mut out, 0xDB, 1, &q_chroma);
    let h16: u16 = (height % 65536) as u16;
    let w16: u16 = (width % 65536) as u16;
    let mut sof: Vec<u8> = Vec::new();
    sof.push(8);
    sof.push((h16 / 256) as u8);
    sof.push((h16 % 256) as u8);
    sof.push((w16 / 256) as u8);
    sof.push((w16 % 256) as u8);
    sof.push(3);
    sof.push(1);
    sof.push(0x11);
    sof.push(0);
    sof.push(2);
    sof.push(0x11);
    sof.push(1);
    sof.push(3);
    sof.push(0x11);
    sof.push(1);
    assert(sof@ =~= sof0_payload(width, height));
    push_segment(&mut out, 0xC0, sof.as_slice());
    push_huffman_segment(&mut out, 0x00, &DC_LUMA_BITS, &DC_LUMA_VALS);
    push_huffman_segment(&mut out, 0x10, &AC_LUMA_BITS, &AC_LUMA_VALS);
    push_huffman_segment(&mut out, 0x01, &DC_CHROMA_BITS, &DC_CHROMA_VALS);
    push_huffman_segment(&mut out, 0x11, &AC_CHROMA_BITS, &AC_CHROMA_VALS);
    let sos: [u8; 10] = [3, 1, 0x00, 2, 0x11, 3, 0x11, 0, 63, 0];
    assert(sos@ =~= sos_payload());
    push_segment(&mut out, 0xDA, sos.as_slice());
    assert(out@ =~= jpeg_header(width, height, dpi));
    out
}

/// Encode a scan of quantized, zigzag-ordered coefficient blocks as a
/// baseline JFIF JPEG at [`JPEG_QUALITY`], recording `dpi` in the JFIF
/// density fields.
///
/// `blocks` holds the blocks in scan order: minimum coded units left to
/// right, top to bottom, each unit one Y, one Cb and one Cr block (4:4:4).
pub fn encode_jpeg(blocks: &[[i32; 64]], width: u32, height: u32, dpi: u32) -> (r: Vec<u8>)
    requires
        blocks@.len() == 3 * blocks_along(width) * blocks_along(height),
        blocks_in_range(blocks@),
    ensures
        r@ == jpeg_stream(blocks@, width, height, dpi),
{
    proof {
        lemma_standard_huffman_tables();
    }
    let dc_l = build_huffman_codes(&DC_LUMA_BITS, &DC_LUMA_VALS);
    let ac_l = build_huffman_codes(&AC_LUMA_BITS, &AC_LUMA_VALS);
    let dc_c = build_huffman_codes(&DC_CHROMA_BITS, &DC_CHROMA_VALS);
    let ac_c = build_huffman_codes(&AC_CHROMA_BITS, &AC_CHROMA_VALS);
    proof {
        lemma_kraft_codes_fit(DC_LUMA_BITS@, DC_LUMA_VALS@, count_before(DC_LUMA_BITS@, 16));
        lemma_kraft_codes_fit(AC_LUMA_BITS@, AC_LUMA_VALS@, count_before(AC_LUMA_BITS@, 16));
        lemma_kraft_codes_fit(DC_CHROMA_BITS@, DC_CHROMA_VALS@, count_before(DC_CHROMA_BITS@, 16));
        lemma_kraft_codes_fit(AC_CHROMA_BITS@, AC_CHROMA_VALS@, count_before(AC_CHROMA_BITS@, 16));
    }

    let mut out = jpeg_header_bytes(width, height, dpi);


    // Entropy-coded scan.
    let mut bw = BitWriter::new();
    let mut prev_dc: [i32; 3] = [0, 0, 0];
    let mut idx: usize = 0;
    while idx < blocks.len()
        invariant
            idx <= blocks@.len(),
            bw.wf(),
            bw@ == scan_bits(blocks@, idx as nat),
            blocks_in_range(blocks@),
            dc_l@ == dc_table(0),
            ac_l@ == ac_table(0),
            dc_c@ == dc_table(1),
            ac_c@ == ac_table(1),
            table_codes_fit(dc_l@),
            table_codes_fit(ac_l@),
            table_codes_fit(dc_c@),
            table_codes_fit(ac_c@),
            forall|k: int|
                idx <= k < idx + 3 ==> #[trigger] prev_dc@[k % 3] as int == dc_predictor(
                    blocks@,
                    k,
                ),
            forall|c: int| 0 <= c < 3 ==> coefficient_in_range(#[trigger] prev_dc@[c] as int),
        decreases blocks@.len() - idx,
    {
        let comp: usize = idx % 3;
        let pred: i32 = prev_dc[comp];
        assert(pred as int == dc_predictor(blocks@, idx as int));
        let block: &[i32; 64] = &blocks[idx];
        assert(forall|i: int| 0 <= i < 64 ==> coefficient_in_range(#[trigger] block@[i] as int)) by {
            assert forall|i: int| 0 <= i < 64 implies coefficient_in_range(
                #[trigger] block@[i] as int,
            ) by {
                assert(coefficient_in_range(blocks@[idx as int]@[i] as int));
            }
        }
        if comp == 0 {
            encode_block(&mut bw, block, pred, &dc_l, &ac_l);
        } else {
            encode_block(&mut bw, block, pred, &dc_c, &ac_c);
        }
        prev_dc[comp] = block[0];
        proof {
            assert(coefficient_in_range(blocks@[idx as int]@[0] as int));
            assert forall|k: int| idx + 1 <= k < idx + 4 implies #[trigger] prev_dc@[k % 3] as int
                == dc_predictor(blocks@, k) by {
                if k == idx + 3 {
                    assert(k % 3 == idx % 3);
                } else {
                    assert(k % 3 != idx % 3);
                }
            }
        }
        idx = idx + 1;
    }
    let mut scan = bw.finish();
    out.append(&mut scan);
    out.push(0xFF);
    out.push(0xD9);
    assert(out@ =~= jpeg_stream(blocks@, width, height, dpi));
    out
}

/// Byte stuffing leaves no bare 0xFF: every 0xFF of a stuffed sequence is
/// followed by a 0x00, so no marker can appear inside the scan.
pub proof fn lemma_stuff_no_bare_ff(bytes: Seq<u8>)
    ensures
        forall|i: int|
            0 <= i < stuff(bytes).len() && #[trigger] stuff(bytes)[i] == 0xFF ==> i + 1 < stuff(
                bytes,
            ).len() && stuff(bytes)[i + 1] == 0x00,
    decreases bytes.len(),
{
    if bytes.len() > 0 {
        let pre = bytes.drop_last();
        lemma_stuff_no_bare_ff(pre);
        let a = stuff(pre);
        let t = stuffed_byte(bytes.last());
        assert(stuff(bytes) == a + t);
        assert forall|i: int|
            0 <= i < stuff(bytes).len() && #[trigger] stuff(bytes)[i] == 0xFF implies i + 1
            < stuff(bytes).len() && stuff(bytes)[i + 1] == 0x00 by {
            if i < a.len() {
                assert(stuff(bytes)[i] == a[i]);
                if i + 1 < a.len() {
                    assert(stuff(bytes)[i + 1] == a[i + 1]);
                }
            }
        }
    }
}

/// Removing the stuffed zero after each 0xFF recovers the bytes.
pub open spec fn unstuff(s: Seq<u8>) -> Seq<u8>
    decreases s.len(),
{
    if s.len() == 0 {
        Seq::empty()
    } else if s[0] == 0xFF && s.len() >= 2 {
        seq![0xFFu8] + unstuff(s.skip(2))
    } else {
        seq![s[0]] + unstuff(s.skip(1))
    }
}

/// The scan codes the blocks in order, each as its DC difference followed
/// by its AC run-length codes. The DC difference of block `k` of the
/// interleaved Y, Cb, Cr sequence is its DC coefficient minus that of the
/// previous block of the same component (`k - 3`), or minus 0 for the first
/// block of each component; luminance blocks (`k % 3 == 0`) use the
/// luminance tables, chrominance blocks the chrominance tables. The stream
/// is the header, this scan packed and stuffed, and EOI.
pub proof fn lemma_scan_codes_per_component_dc_differences(
    blocks: Seq<[i32; 64]>,
    k: int,
    width: u32,
    height: u32,
    dpi: u32,
)
    requires
        0 <= k < blocks.len(),
    ensures
        ({
            let diff = blocks[k]@[0] as int - if k < 3 {
                0
            } else {
                blocks[k - 3]@[0] as int
            };
            let (dc, ac) = if k % 3 == 0 {
                (
                    huffman_codes(DC_LUMA_BITS@, DC_LUMA_VALS@),
                    huffman_codes(AC_LUMA_BITS@, AC_LUMA_VALS@),
                )
            } else {
                (
                    huffman_codes(DC_CHROMA_BITS@, DC_CHROMA_VALS@),
                    huffman_codes(AC_CHROMA_BITS@, AC_CHROMA_VALS@),
                )
            };
            scan_bits(blocks, (k + 1) as nat) == scan_bits(blocks, k as nat) + (code_bits(
                dc,
                category(diff) as int,
            ) + value_bits(diff) + ac_bits(blocks[k]@, 1, 0, ac))
        }),
        scan_bits(blocks, 0) == Seq::<bool>::empty(),
        jpeg_stream(blocks, width, height, dpi) == jpeg_header(width, height, dpi) + entropy_bytes(
            scan_bits(blocks, blocks.len()),
        ) + seq![0xFFu8, 0xD9u8],
{
    assert(((k + 1) as nat - 1) as int == k);
}

/// An encoded stream starts with SOI and ends with EOI, and between its
/// header and the EOI every 0xFF of the scan is followed by a stuffed 0x00,
/// so no marker can appear inside the entropy-coded data.
pub proof fn lemma_stream_scan_free_of_markers(
    blocks: Seq<[i32; 64]>,
    width: u32,
    height: u32,
    dpi: u32,
)
    ensures
        ({
            let st = jpeg_stream(blocks, width, height, dpi);
            let h = jpeg_header(width, height, dpi).len();
            &&& st.len() >= h + 2
            &&& st[0] == 0xFF && st[1] == 0xD8
            &&& st[st.len() - 2] == 0xFF && st[st.len() - 1] == 0xD9
            &&& forall|i: int|
                h <= i < st.len() - 2 && #[trigger] st[i] == 0xFF ==> st[i + 1] == 0x00
        }),
{
    let hd = jpeg_header(width, height, dpi);
    let sc = entropy_bytes(scan_bits(blocks, blocks.len()));
    let st = jpeg_stream(blocks, width, height, dpi);
    assert(st == hd + sc + seq![0xFFu8, 0xD9u8]);
    lemma_stuff_no_bare_ff(pack_bytes(
        scan_bits(blocks, blocks.len()) + ones(pad_len(scan_bits(blocks, blocks.len()).len())),
    ));
    assert forall|i: int| hd.len() <= i < st.len() - 2 && #[trigger] st[i] == 0xFF implies st[i
        + 1] == 0x00 by {
        assert(st[i] == sc[i - hd.len()]);
        assert(st[i + 1] == sc[i + 1 - hd.len()]);
    }
}

/// Stuffing is undone by unstuffing: the scan bytes are recoverable.
pub proof fn lemma_unstuff_stuff(bytes: Seq<u8>)
    ensures
        unstuff(stuff(bytes)) == bytes,
    decreases bytes.len(),
{
    if bytes.len() > 0 {
        lemma_stuff_front(bytes);
        let rest = bytes.skip(1);
        lemma_unstuff_stuff(rest);
        let t = stuffed_byte(bytes[0]);
        let s = t + stuff(rest);
        if bytes[0] == 0xFF {
            assert(s.skip(2) =~= stuff(rest));
        } else {
            assert(s.skip(1) =~= stuff(rest));
        }
        assert(unstuff(s) =~= bytes);
    }
}

/// Stuffing seen from the front.
pub proof fn lemma_stuff_front(bytes: Seq<u8>)
    requires
        bytes.len() > 0,
    ensures
        stuff(bytes) == stuffed_byte(bytes[0]) + stuff(bytes.skip(1)),
    decreases bytes.len(),
{
    if bytes.len() == 1 {
        assert(bytes.skip(1) =~= Seq::<u8>::empty());
        assert(bytes.drop_last() =~= Seq::<u8>::empty());
        assert(stuff(bytes) =~= stuffed_byte(bytes[0]) + stuff(bytes.skip(1)));
    } else {
        let pre = bytes.drop_last();
        lemma_stuff_front(pre);
        assert(pre.skip(1) =~= bytes.skip(1).drop_last());
        assert(bytes.skip(1).last() == bytes.last());
        assert(stuff(bytes) =~= stuffed_byte(bytes[0]) + stuff(bytes.skip(1)));
    }
}

/// Under Kraft's condition the code register does not wrap: each length
/// starts right after the previous length's codes, doubled.
pub proof fn lemma_first_code_grows(bits: Seq<u8>, a: nat, b: nat)
    requires
        huffman_kraft(bits),
        a < b <= 15,
    ensures
        first_code(bits, b) >= (first_code(bits, a) + bits[a as int]) * pow2((b - a) as nat),
    decreases b,
{
    let m = (b - 1) as nat;
    assert(first_code(bits, m) + bits[m as int] < pow2(m + 1));
    lemma_pow2_strictly_increases(m + 1, 16);
    lemma2_to64();
    assert(first_code(bits, b) == (first_code(bits, m) + bits[m as int]) * 2);
    if a < m {
        lemma_first_code_grows(bits, a, m);
        lemma_pow2_unfold((b - a) as nat);
        assert(((b - a) - 1) as nat == (m - a) as nat);
        let x = (first_code(bits, a) + bits[a as int]) as int;
        let p = pow2((m - a) as nat) as int;
        assert(first_code(bits, m) >= x * p);
        assert(first_code(bits, b) >= 2 * (x * p)) by {
            assert(first_code(bits, m) + bits[m as int] >= x * p);
        }
        assert(2 * (x * p) == x * (2 * p)) by (nonlinear_arith);
    } else {
        assert(a == m);
        assert(pow2(1) == 2);
        assert((b - a) as nat == 1);
    }
}

/// Canonical codes are prefix-free: for two symbol positions `k1 < k2`, the
/// first code is no longer than the second, and the second code cut to the
/// first's length is strictly greater than the first code, so neither is a
/// prefix of the other.
pub proof fn lemma_canonical_codes_prefix_free(bits: Seq<u8>, k1: nat, k2: nat)
    requires
        bits.len() == 16,
        huffman_kraft(bits),
        k1 < k2 < count_before(bits, 16),
    ensures
        symbol_code(bits, k1).1 <= symbol_code(bits, k2).1,
        symbol_code(bits, k2).0 / pow2((symbol_code(bits, k2).1 - symbol_code(bits, k1).1) as nat)
            > symbol_code(bits, k1).0,
{
    let l1 = lemma_symbol_length(bits, k1, 0);
    let l2 = lemma_symbol_length(bits, k2, 0);
    lemma_code_length(bits, k1, l1, 0);
    lemma_code_length(bits, k2, l2, 0);
    if l2 < l1 {
        lemma_count_before_monotone(bits, l2 + 1, l1);
    }
    assert(l1 <= l2);
    let c1 = symbol_code(bits, k1).0;
    let c2 = symbol_code(bits, k2).0;
    assert(c1 == first_code(bits, l1) + (k1 - count_before(bits, l1)));
    assert(c2 == first_code(bits, l2) + (k2 - count_before(bits, l2)));
    assert(c1 < first_code(bits, l1) + bits[l1 as int]);
    if l1 == l2 {
        lemma2_to64();
        assert(((l2 + 1) - (l1 + 1)) as nat == 0);
        assert(c2 as int / 1 == c2 as int);
    } else {
        lemma_first_code_grows(bits, l1, l2);
        let d = (l2 - l1) as nat;
        assert(((l2 + 1) - (l1 + 1)) as nat == d);
        lemma_pow2_pos(d);
        let p = pow2(d) as int;
        let x = (first_code(bits, l1) + bits[l1 as int]) as int;
        assert(c2 >= x * p);
        lemma_div_is_ordered(x * p, c2 as int, p);
        lemma_div_by_multiple(x, p);
    }
}

} // verus!
