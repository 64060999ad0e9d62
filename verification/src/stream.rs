use vstd::arithmetic::div_mod::{
    lemma_div_denominator, lemma_fundamental_div_mod, lemma_fundamental_div_mod_converse,
    lemma_hoist_over_denominator, lemma_mod_multiples_vanish,
};
use vstd::arithmetic::power2::{
    lemma2_to64, lemma_pow2_adds, lemma_pow2_pos, lemma_pow2_strictly_increases, pow2,
};
use vstd::bits::{lemma_u32_low_bits_mask_is_mod, lemma_u32_shl_is_mul, lemma_u32_shr_is_div};
use vstd::prelude::*;

use crate::bits::{bit_convert, lemma_sign_extend_in_range, sign_extend};
use crate::error::CsiError;

verus! {

/// The number that a byte sequence spells when its first byte is the least significant:
/// the sum of `s[i] * 256^i`.
pub open spec fn le_int(s: Seq<u8>) -> nat
    decreases s.len(),
{
    if s.len() == 0 {
        0
    } else {
        s[0] as nat + 256 * le_int(s.drop_first())
    }
}

/// The `width` bits that start at bit `start` of the little-endian bit stream `s`,
/// as an unsigned number. Bit 0 is the least significant bit of `s[0]`.
pub open spec fn field(s: Seq<u8>, start: nat, width: nat) -> nat {
    ((le_int(s) / pow2(start)) % pow2(width)) as nat
}

/// Appending a byte adds it at the weight of its position.
pub proof fn lemma_le_int_push(s: Seq<u8>, b: u8)
    ensures
        le_int(s.push(b)) == le_int(s) + b * pow2(8 * s.len()),
    decreases s.len(),
{
    lemma2_to64();
    let sb = s.push(b);
    if s.len() == 0 {
        assert(le_int(s) == 0);
        assert(b * pow2(0) == b);
    } else {
        let t = s.drop_first();
        assert(sb.drop_first() =~= t.push(b));
        lemma_le_int_push(t, b);
        lemma_pow2_adds(8, 8 * t.len());
        assert(8 * s.len() == 8 + 8 * t.len());
        let w = pow2(8 * t.len()) as int;
        assert(pow2(8 * s.len()) == 256 * w);
        assert(le_int(s) == s[0] as nat + 256 * le_int(t));
        assert(256 * (le_int(t) + b * w) == 256 * le_int(t) + b * (256 * w))
            by (nonlinear_arith);
    }
}

/// A sequence of `n` bytes spells a number below `2^(8n)`.
pub proof fn lemma_le_int_bound(s: Seq<u8>)
    ensures
        le_int(s) < pow2(8 * s.len()),
    decreases s.len(),
{
    lemma2_to64();
    if s.len() > 0 {
        let t = s.drop_first();
        lemma_le_int_bound(t);
        lemma_pow2_adds(8, 8 * t.len());
    }
}

/// The bytes after the first `n` weigh a multiple of `2^(8n)`.
pub proof fn lemma_le_int_prefix(s: Seq<u8>, n: nat) -> (k: nat)
    requires
        n <= s.len(),
    ensures
        le_int(s) == le_int(s.take(n as int)) + pow2(8 * n) * k,
    decreases s.len() - n,
{
    if n == s.len() {
        assert(s.take(n as int) =~= s);
        0
    } else {
        let k1 = lemma_le_int_prefix(s, n + 1);
        let p = s.take(n as int);
        assert(s.take(n as int + 1) =~= p.push(s[n as int]));
        lemma_le_int_push(p, s[n as int]);
        lemma_pow2_adds(8 * n, 8);
        lemma2_to64();
        let w = pow2(8 * n) as int;
        let b = s[n as int] as int;
        let k = (b + 256 * k1) as nat;
        assert(b * w + (w * 256) * k1 == w * (b + 256 * k1)) by (nonlinear_arith);
        k
    }
}

/// A field depends only on the bytes that hold its bits.
pub proof fn lemma_field_of_prefix(s: Seq<u8>, n: nat, start: nat, width: nat)
    requires
        n <= s.len(),
        start + width <= 8 * n,
    ensures
        field(s, start, width) == field(s.take(n as int), start, width),
{
    let a = le_int(s.take(n as int)) as int;
    let k = lemma_le_int_prefix(s, n) as int;
    let rest = (8 * n - start - width) as nat;
    let ps = pow2(start) as int;
    let pw = pow2(width) as int;
    let pr = pow2(rest) as int;
    lemma_pow2_pos(start);
    lemma_pow2_pos(width);
    lemma_pow2_adds(start, width + rest);
    lemma_pow2_adds(width, rest);
    assert(le_int(s) == a + (pw * pr * k) * ps) by (nonlinear_arith)
        requires
            le_int(s) == a + (ps * (pw * pr)) * k,
    ;
    lemma_hoist_over_denominator(a, pw * pr * k, ps as nat);
    assert(a / ps + pw * pr * k == pw * (pr * k) + a / ps) by (nonlinear_arith);
    lemma_mod_multiples_vanish(pr * k, a / ps, pw);
}

/// Two streams that share their first `n` bytes share every field within those bytes.
pub proof fn lemma_field_of_equal_prefixes(
    s1: Seq<u8>,
    s2: Seq<u8>,
    n: nat,
    start: nat,
    width: nat,
)
    requires
        n <= s1.len(),
        n <= s2.len(),
        s1.take(n as int) == s2.take(n as int),
        start + width <= 8 * n,
    ensures
        field(s1, start, width) == field(s2, start, width),
{
    lemma_field_of_prefix(s1, n, start, width);
    lemma_field_of_prefix(s2, n, start, width);
}

/// A field of `width` bits is below `2^width`.
pub proof fn lemma_field_bound(s: Seq<u8>, start: nat, width: nat)
    ensures
        field(s, start, width) < pow2(width),
{
    lemma_pow2_pos(start);
    lemma_pow2_pos(width);
    lemma_fundamental_div_mod(le_int(s) as int / (pow2(start) as int), pow2(width) as int);
    assert(0 <= (le_int(s) as int / (pow2(start) as int)) % (pow2(width) as int) < pow2(width))
        by (nonlinear_arith)
        requires
            pow2(width) > 0,
    ;
}

/// A field that lies within two neighbouring bytes is a slice of the 16-bit word
/// that those two bytes spell.
pub proof fn lemma_field_in_two_bytes(s: Seq<u8>, start: nat, width: nat)
    requires
        start / 8 + 2 <= s.len(),
        start % 8 + width <= 16,
    ensures
        field(s, start, width) == ((s[(start / 8) as int] + 256 * s[(start / 8) as int + 1]) / (
        pow2(start % 8) as int)) % (pow2(width) as int),
{
    let p = start / 8;
    let off = start % 8;
    let t = s.take(p as int + 2);
    let head = s.take(p as int);
    let with_low = head.push(s[p as int]);
    let a = le_int(head) as int;
    let w = s[p as int] + 256 * s[p as int + 1];
    let c = pow2(8 * p) as int;
    let d = pow2(off) as int;
    lemma_field_of_prefix(s, p + 2, start, width);
    assert(s.take(p as int + 1) =~= with_low);
    assert(t =~= with_low.push(s[p as int + 1]));
    lemma_le_int_push(head, s[p as int]);
    lemma_le_int_push(with_low, s[p as int + 1]);
    lemma_le_int_bound(head);
    lemma_pow2_adds(8 * p, 8);
    lemma_pow2_adds(8 * p, off);
    lemma_pow2_pos(8 * p);
    lemma_pow2_pos(off);
    lemma2_to64();
    assert(le_int(t) == w * c + a) by (nonlinear_arith)
        requires
            le_int(t) == a + s[p as int] * c + s[p as int + 1] * (c * 256),
            w == s[p as int] + 256 * s[p as int + 1],
    ;
    lemma_fundamental_div_mod_converse(le_int(t) as int, c, w, a);
    lemma_div_denominator(le_int(t) as int, c, d);
}

/// The 16-bit word that two bytes spell, the first being the low byte.
spec fn word_of(lo: u8, hi: u8) -> int {
    lo + 256 * hi
}

proof fn lemma_shift_byte(hi: u8)
    by (bit_vector)
    ensures
        ((hi as u32) << 8u32) == 256 * (hi as u32),
{
}

/// Reads two bytes of `data` as a little-endian word.
fn load_word(data: &[u8], at: usize) -> (w: u32)
    requires
        at + 2 <= data@.len(),
    ensures
        w == word_of(data@[at as int], data@[at + 1]),
        w < 0x10000,
{
    let lo: u32 = data[at] as u32;
    let hi: u32 = data[at + 1] as u32;
    proof {
        lemma_shift_byte(data[at + 1]);
    }
    lo + (hi << 8u32)
}

/// A reader of bit fields from a little-endian stream of 16-bit words.
///
/// Words are loaded into an accumulator, whose low bits are the next bits of the
/// stream; fields are read and dropped from its low end.
pub struct BitReader<'a> {
    data: &'a [u8],
    idx: usize,
    acc: u32,
    bits_left: u8,
}

impl<'a> BitReader<'a> {
    /// The bytes that are read.
    pub closed spec fn stream(self) -> Seq<u8> {
        self.data@
    }

    /// How many bytes of the stream have been loaded.
    pub closed spec fn loaded(self) -> nat {
        self.idx as nat
    }

    /// How many loaded bits have not been consumed yet.
    pub closed spec fn held(self) -> nat {
        self.bits_left as nat
    }

    /// How many bits of the stream have been consumed.
    pub open spec fn position(self) -> int {
        8 * self.loaded() - self.held()
    }

    /// The accumulator holds exactly the loaded bits that were not consumed.
    pub closed spec fn wf(self) -> bool {
        &&& self.idx <= self.data@.len()
        &&& self.bits_left < 32
        &&& self.bits_left <= 8 * self.idx
        &&& self.acc as int == le_int(self.data@.take(self.idx as int)) as int / (pow2(
            (8 * self.idx - self.bits_left) as nat,
        ) as int)
    }

    /// A well-formed reader has consumed no more than it has loaded, and has loaded
    /// no more than there is.
    pub proof fn lemma_wf_bounds(self)
        requires
            self.wf(),
        ensures
            self.loaded() <= self.stream().len(),
            self.held() < 32,
            0 <= self.position(),
    {
    }

    proof fn lemma_acc_bound(self)
        requires
            self.wf(),
        ensures
            self.acc < pow2(self.bits_left as nat),
    {
        let p = self.data@.take(self.idx as int);
        let pos = (8 * self.idx - self.bits_left) as nat;
        let a = le_int(p) as int;
        let d = pow2(pos) as int;
        let m = pow2(self.bits_left as nat) as int;
        lemma_le_int_bound(p);
        lemma_pow2_pos(pos);
        lemma_pow2_adds(pos, self.bits_left as nat);
        lemma_fundamental_div_mod(a, d);
        assert(a / d < m) by (nonlinear_arith)
            requires
                a < d * m,
                a == d * (a / d) + a % d,
                0 <= a % d,
                d > 0,
        ;
    }

    /// Starts reading `data` by loading its first word.
    pub fn new(data: &'a [u8]) -> (r: Result<Self, CsiError>)
        ensures
            match r {
                Ok(b) => {
                    &&& data@.len() >= 2
                    &&& b.wf()
                    &&& b.stream() == data@
                    &&& b.loaded() == 2
                    &&& b.held() == 16
                },
                Err(e) => e == CsiError::TruncatedFrame && data@.len() < 2,
            },
    {
        if data.len() < 2 {
            return Err(CsiError::TruncatedFrame);
        }
        let w = load_word(data, 0);
        proof {
            let p = data@.take(2);
            let e = Seq::<u8>::empty();
            assert(p =~= e.push(data@[0]).push(data@[1]));
            lemma_le_int_push(e, data@[0]);
            lemma_le_int_push(e.push(data@[0]), data@[1]);
            lemma2_to64();
            assert(data@[0] * pow2(0) == data@[0]);
            assert(data@[1] * pow2(8) == 256 * data@[1]);
            assert(le_int(p) as int / (pow2(0) as int) == w);
        }
        Ok(BitReader { data, idx: 2, acc: w, bits_left: 16 })
    }

    /// The number of bytes loaded so far.
    pub fn bytes_read(&self) -> (n: usize)
        ensures
            n == self.loaded(),
    {
        self.idx
    }

    /// The number of bits that can be read without loading.
    pub fn bits_left(&self) -> (n: u8)
        ensures
            n == self.held(),
    {
        self.bits_left
    }

    /// Loads the next word above the bits that are held.
    ///
    /// Fails, and changes nothing, where 16 bits or more are still held
    /// (`MisalignedStream`) or the stream has no two bytes left (`TruncatedFrame`).
    pub fn refill(&mut self) -> (r: Result<(), CsiError>)
        requires
            old(self).wf(),
        ensures
            final(self).wf(),
            final(self).stream() == old(self).stream(),
            match r {
                Ok(_) => {
                    &&& old(self).held() < 16
                    &&& old(self).loaded() + 2 <= old(self).stream().len()
                    &&& final(self).loaded() == old(self).loaded() + 2
                    &&& final(self).held() == old(self).held() + 16
                },
                Err(e) => {
                    &&& *final(self) == *old(self)
                    &&& e == CsiError::MisalignedStream <==> old(self).held() >= 16
                    &&& e == CsiError::TruncatedFrame <==> old(self).held() < 16
                        && old(self).loaded() + 2 > old(self).stream().len()
                    &&& e != CsiError::InvalidDimensions
                },
            },
    {
        if self.bits_left >= 16 {
            return Err(CsiError::MisalignedStream);
        }
        if self.data.len() - self.idx < 2 {
            return Err(CsiError::TruncatedFrame);
        }
        let w = load_word(self.data, self.idx);
        let sh: u32 = self.bits_left as u32;
        proof {
            let s = self.data@;
            let i = self.idx as int;
            let p = s.take(i);
            let pos = (8 * self.idx - self.bits_left) as nat;
            let bl = self.bits_left as nat;
            let d = pow2(pos) as int;
            let m = pow2(bl) as int;
            self.lemma_acc_bound();
            lemma2_to64();
            lemma_pow2_pos(pos);
            lemma_pow2_pos(bl);
            lemma_pow2_strictly_increases(bl, 16);
            assert(w * m <= 0xffff * 0x10000) by (nonlinear_arith)
                requires
                    0 <= w <= 0xffff,
                    0 < m <= 0x10000,
            ;
            lemma_u32_shl_is_mul(w, sh);
            assert(self.acc + w * m < 0x1_0000_0000) by (nonlinear_arith)
                requires
                    self.acc < m,
                    0 <= w <= 0xffff,
                    0 < m <= 0x10000,
            ;
            // the two new bytes, at their weight
            let q = p.push(s[i]);
            assert(s.take(i + 2) =~= q.push(s[i + 1]));
            lemma_le_int_push(p, s[i]);
            lemma_le_int_push(q, s[i + 1]);
            lemma_pow2_adds(8 * (i as nat), 8);
            lemma_pow2_adds(pos, bl);
            let w8 = pow2(8 * (i as nat)) as int;
            let a = le_int(p) as int;
            let b0 = s[i] as int;
            let b1 = s[i + 1] as int;
            assert(a + b0 * w8 + b1 * (w8 * 256) == a + (w * m) * d) by (nonlinear_arith)
                requires
                    w == b0 + 256 * b1,
                    w8 == d * m,
            ;
            lemma_hoist_over_denominator(a, w * m, d as nat);
        }
        self.acc = self.acc + (w << sh);
        self.idx = self.idx + 2;
        self.bits_left = self.bits_left + 16;
        Ok(())
    }

    /// The next `n` bits of the stream, which stay in place.
    ///
    /// Fails with `MisalignedStream` where fewer than `n` bits are held.
    pub fn peek(&self, n: u8) -> (r: Result<u32, CsiError>)
        requires
            self.wf(),
        ensures
            match r {
                Ok(v) => n <= self.held() && v == field(
                    self.stream(),
                    self.position() as nat,
                    n as nat,
                ),
                Err(e) => e == CsiError::MisalignedStream && n > self.held(),
            },
    {
        if n > self.bits_left {
            return Err(CsiError::MisalignedStream);
        }
        let sh: u32 = n as u32;
        proof {
            let pos = (8 * self.idx - self.bits_left) as nat;
            lemma2_to64();
            lemma_pow2_pos(n as nat);
            lemma_pow2_strictly_increases(n as nat, 32);
            lemma_u32_shl_is_mul(1, sh);
            lemma_u32_low_bits_mask_is_mod(self.acc, n as nat);
            lemma_field_of_prefix(self.data@, self.idx as nat, pos, n as nat);
        }
        let mask: u32 = (1u32 << sh) - 1;
        Ok(self.acc & mask)
    }

    /// Drops the next `n` bits.
    ///
    /// Fails with `MisalignedStream`, and changes nothing, where fewer than `n` bits
    /// are held.
    pub fn consume(&mut self, n: u8) -> (r: Result<(), CsiError>)
        requires
            old(self).wf(),
        ensures
            final(self).wf(),
            final(self).stream() == old(self).stream(),
            final(self).loaded() == old(self).loaded(),
            match r {
                Ok(_) => n <= old(self).held() && final(self).held() == old(self).held() - n,
                Err(e) => {
                    &&& *final(self) == *old(self)
                    &&& e == CsiError::MisalignedStream
                    &&& n > old(self).held()
                },
            },
    {
        if n > self.bits_left {
            return Err(CsiError::MisalignedStream);
        }
        let sh: u32 = n as u32;
        proof {
            let pos = (8 * self.idx - self.bits_left) as nat;
            let a = le_int(self.data@.take(self.idx as int)) as int;
            lemma_pow2_pos(pos);
            lemma_pow2_pos(n as nat);
            lemma_pow2_adds(pos, n as nat);
            lemma_u32_shr_is_div(self.acc, sh);
            lemma_div_denominator(a, pow2(pos) as int, pow2(n as nat) as int);
        }
        self.acc = self.acc >> sh;
        self.bits_left = self.bits_left - n;
        Ok(())
    }

    /// Reads the next `width` bits as a two's-complement number of that width and
    /// drops them, after loading one more word where fewer than `width` bits are held.
    ///
    /// A width of 0 or above 16 is refused with `MisalignedStream`; where a word is
    /// needed and the stream has no two bytes left, the error is `TruncatedFrame`.
    /// A failed read changes nothing.
    pub fn read_signed(&mut self, width: u8) -> (r: Result<isize, CsiError>)
        requires
            old(self).wf(),
        ensures
            final(self).wf(),
            final(self).stream() == old(self).stream(),
            match r {
                Ok(v) => {
                    &&& 1 <= width <= 16
                    &&& v == sign_extend(
                        field(old(self).stream(), old(self).position() as nat, width as nat) as int,
                        width as int,
                    )
                    &&& final(self).position() == old(self).position() + width
                    &&& final(self).loaded() == if old(self).held() < width {
                        old(self).loaded() + 2
                    } else {
                        old(self).loaded()
                    }
                },
                Err(e) => {
                    &&& *final(self) == *old(self)
                    &&& e == CsiError::MisalignedStream <==> width == 0 || width > 16
                    &&& e == CsiError::TruncatedFrame <==> 1 <= width <= 16 && old(self).held()
                        < width && old(self).loaded() + 2 > old(self).stream().len()
                    &&& e != CsiError::InvalidDimensions
                },
            },
    {
        if width == 0 || width > 16 {
            return Err(CsiError::MisalignedStream);
        }
        if self.bits_left < width {
            match self.refill() {
                Ok(_) => {},
                Err(e) => {
                    return Err(e);
                },
            }
        }
        let raw: u32 = match self.peek(width) {
            Ok(v) => v,
            Err(e) => {
                return Err(e);
            },
        };
        match self.consume(width) {
            Ok(_) => {},
            Err(e) => {
                return Err(e);
            },
        }
        proof {
            let pos = old(self).position() as nat;
            lemma_field_bound(self.data@, pos, width as nat);
            lemma_sign_extend_in_range(raw as int, width as int);
            lemma2_to64();
            lemma_pow2_strictly_increases(width as nat, 17);
            lemma_pow2_pos((width - 1) as nat);
            lemma_pow2_strictly_increases((width - 1) as nat, 16);
        }
        Ok(bit_convert(raw as isize, width as isize))
    }
}

} // verus!
