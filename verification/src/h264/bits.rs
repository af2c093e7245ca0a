//! Bit-level reading of an RBSP: single bits, fixed-width skips and the
//! Exp-Golomb codes `ue(v)` and `se(v)` of H.264 §9.1.
use vstd::arithmetic::power2::{
    lemma2_to64, lemma_pow2_pos, lemma_pow2_strictly_increases, lemma_pow2_unfold, pow2,
};
use vstd::prelude::*;

verus! {

/// Number of bits in `d`.
pub open spec fn bit_len(d: Seq<u8>) -> int {
    8 * d.len() as int
}

/// Bit number `p` of `d`, counting from the most significant bit of `d[0]`.
pub open spec fn bit_at(d: Seq<u8>, p: int) -> u8 {
    (d[p / 8] >> ((7 - p % 8) as u8)) & 1u8
}

/// Reading one bit at position `p`: the bit and the next position.
pub open spec fn read_bit_spec(d: Seq<u8>, p: int) -> Option<(u8, int)> {
    if 0 <= p < bit_len(d) {
        Some((bit_at(d, p), p + 1))
    } else {
        None
    }
}

/// Skipping `n` bits from position `p`: the new position, when the data
/// holds them.
pub open spec fn skip_spec(d: Seq<u8>, p: int, n: int) -> Option<int> {
    if p + n <= bit_len(d) {
        Some(p + n)
    } else {
        None
    }
}

/// Unsigned value of the `n` bits that start at position `p`, most
/// significant first.
pub open spec fn bits_value(d: Seq<u8>, p: int, n: nat) -> nat
    decreases n,
{
    if n == 0 {
        0
    } else {
        2 * bits_value(d, p, (n - 1) as nat) + bit_at(d, p + n - 1) as nat
    }
}

/// Length of the zero prefix of a `ue(v)` code that starts at `p`, having
/// already seen `z` zero bits. The prefix must end with a one bit inside the
/// data and count fewer than 32 zeros.
pub open spec fn ue_zeros(d: Seq<u8>, p: int, z: nat) -> Option<nat>
    decreases 32 - z,
{
    if z >= 32 || !(0 <= p + z < bit_len(d)) {
        None
    } else if bit_at(d, p + z) == 1 {
        Some(z)
    } else if z + 1 >= 32 {
        None
    } else {
        ue_zeros(d, p, z + 1)
    }
}

/// Decoding a `ue(v)` code at position `p`: `codeNum = 2^z - 1 + b`, where
/// `z` is the number of leading zero bits and `b` the value of the `z` bits
/// after the one bit; and the position after the code.
#[verifier::opaque]
pub open spec fn ue_spec(d: Seq<u8>, p: int) -> Option<(nat, int)> {
    match ue_zeros(d, p, 0) {
        None => None,
        Some(z) => {
            let q = p + z + 1;
            if q + z <= bit_len(d) {
                Some(((pow2(z) + bits_value(d, q, z) - 1) as nat, q + z))
            } else {
                None
            }
        },
    }
}

/// Where a `ue(v)` read that fails leaves the reader: after the 32 zero bits
/// when the code starts with that many, otherwise at the end of the data,
/// every remaining bit having been read.
pub open spec fn ue_failure_pos(d: Seq<u8>, p: int) -> int {
    if p + 32 <= bit_len(d) && forall|k: int| 0 <= k < 32 ==> #[trigger] bit_at(d, p + k) == 0 {
        p + 32
    } else {
        bit_len(d)
    }
}

/// The signed value that `se(v)` maps a code number to:
/// 0, 1, -1, 2, -2, ...
pub open spec fn se_value(k: nat) -> int {
    if k % 2 == 1 {
        ((k + 1) / 2) as int
    } else {
        -(k / 2)
    }
}

/// Decoding an `se(v)` code at position `p`.
pub open spec fn se_spec(d: Seq<u8>, p: int) -> Option<(int, int)> {
    match ue_spec(d, p) {
        None => None,
        Some((k, q)) => Some((se_value(k), q)),
    }
}

/// A bit is 0 or 1.
pub proof fn lemma_bit_at_le_1(d: Seq<u8>, p: int)
    ensures
        bit_at(d, p) <= 1,
{
    let x = d[p / 8];
    let s = (7 - p % 8) as u8;
    assert((x >> s) & 1u8 <= 1u8) by (bit_vector);
}

/// The value of `n` bits is below `2^n`.
pub proof fn lemma_bits_value_bound(d: Seq<u8>, p: int, n: nat)
    ensures
        bits_value(d, p, n) < pow2(n),
    decreases n,
{
    if n == 0 {
        lemma2_to64();
    } else {
        lemma_bits_value_bound(d, p, (n - 1) as nat);
        lemma_bit_at_le_1(d, p + n - 1);
        lemma_pow2_unfold(n);
    }
}

/// A `ue(v)` code number is at most `2^32 - 2`, and the code ends inside
/// the data, after its start.
pub proof fn lemma_ue_bounds(d: Seq<u8>, p: int)
    requires
        ue_spec(d, p) is Some,
    ensures
        ue_spec(d, p) matches Some((v, q)) && v <= 0xffff_fffe && p < q <= bit_len(d),
{
    reveal(ue_spec);
    lemma_ue_zeros_bound(d, p, 0);
    let z = ue_zeros(d, p, 0)->0;
    lemma_bits_value_bound(d, p + z + 1, z);
    lemma_pow2_pos(z);
    lemma2_to64();
    if z < 31 {
        lemma_pow2_strictly_increases(z, 31);
    }
}

/// The zero prefix of a `ue(v)` code ends with a one bit.
pub proof fn lemma_ue_zeros_ends_with_one(d: Seq<u8>, p: int, z: nat)
    requires
        ue_zeros(d, p, z) is Some,
    ensures
        ue_zeros(d, p, z) matches Some(n) && bit_at(d, p + n) == 1,
    decreases 32 - z,
{
    if z < 32 && 0 <= p + z < bit_len(d) && bit_at(d, p + z) != 1 && z + 1 < 32 {
        lemma_ue_zeros_ends_with_one(d, p, z + 1);
    }
}

/// The zero prefix counts fewer than 32 zeros and at least the ones seen.
pub proof fn lemma_ue_zeros_bound(d: Seq<u8>, p: int, z: nat)
    requires
        ue_zeros(d, p, z) is Some,
    ensures
        z <= ue_zeros(d, p, z)->0 < 32,
    decreases 32 - z,
{
    if z < 32 && 0 <= p + z < bit_len(d) && bit_at(d, p + z) != 1 && z + 1 < 32 {
        lemma_ue_zeros_bound(d, p, z + 1);
    }
}

/// `d2` begins with the bytes of `d`.
pub open spec fn extends(d2: Seq<u8>, d: Seq<u8>) -> bool {
    d.len() <= d2.len() && forall|i: int| 0 <= i < d.len() ==> d2[i] == d[i]
}

/// A bit of `d` is the same bit of any data that begins with `d`.
pub proof fn lemma_bit_at_extends(d: Seq<u8>, d2: Seq<u8>, p: int)
    requires
        extends(d2, d),
        0 <= p < bit_len(d),
    ensures
        bit_at(d2, p) == bit_at(d, p),
{
    assert(0 <= p / 8 < d.len()) by (nonlinear_arith)
        requires
            0 <= p < 8 * d.len(),
    ;
}

/// A bit read that succeeds on `d` succeeds alike on data that begins
/// with `d`.
pub proof fn lemma_read_bit_extends(d: Seq<u8>, d2: Seq<u8>, p: int)
    requires
        extends(d2, d),
        read_bit_spec(d, p) is Some,
    ensures
        read_bit_spec(d2, p) == read_bit_spec(d, p),
{
    lemma_bit_at_extends(d, d2, p);
}

/// A skip that succeeds on `d` succeeds alike on longer data.
pub proof fn lemma_skip_extends(d: Seq<u8>, d2: Seq<u8>, p: int, n: int)
    requires
        extends(d2, d),
        skip_spec(d, p, n) is Some,
    ensures
        skip_spec(d2, p, n) == skip_spec(d, p, n),
{
}

proof fn lemma_bits_value_extends(d: Seq<u8>, d2: Seq<u8>, p: int, n: nat)
    requires
        extends(d2, d),
        0 <= p,
        p + n <= bit_len(d),
    ensures
        bits_value(d2, p, n) == bits_value(d, p, n),
    decreases n,
{
    if n > 0 {
        lemma_bits_value_extends(d, d2, p, (n - 1) as nat);
        lemma_bit_at_extends(d, d2, p + n - 1);
    }
}

proof fn lemma_ue_zeros_extends(d: Seq<u8>, d2: Seq<u8>, p: int, z: nat)
    requires
        extends(d2, d),
        ue_zeros(d, p, z) is Some,
    ensures
        ue_zeros(d2, p, z) == ue_zeros(d, p, z),
    decreases 32 - z,
{
    lemma_bit_at_extends(d, d2, p + z);
    if bit_at(d, p + z) != 1 {
        lemma_ue_zeros_extends(d, d2, p, z + 1);
    }
}

/// A `ue(v)` code read from `d` reads alike from data that begins with `d`.
pub proof fn lemma_ue_extends(d: Seq<u8>, d2: Seq<u8>, p: int)
    requires
        extends(d2, d),
        ue_spec(d, p) is Some,
    ensures
        ue_spec(d2, p) == ue_spec(d, p),
{
    reveal(ue_spec);
    lemma_ue_zeros_extends(d, d2, p, 0);
    lemma_ue_zeros_bound(d, p, 0);
    let z = ue_zeros(d, p, 0)->0;
    lemma_bits_value_extends(d, d2, p + z + 1, z);
}

/// An `se(v)` code read from `d` reads alike from data that begins with `d`.
pub proof fn lemma_se_extends(d: Seq<u8>, d2: Seq<u8>, p: int)
    requires
        extends(d2, d),
        se_spec(d, p) is Some,
    ensures
        se_spec(d2, p) == se_spec(d, p),
{
    lemma_ue_extends(d, d2, p);
}

/// A reader of the bits of a byte slice, most significant bit first.
pub(crate) struct BitReader<'a> {
    data: &'a [u8],
    byte_pos: usize,
    bit_pos: u8,
}

impl<'a> BitReader<'a> {
    /// The bytes being read.
    pub(crate) closed spec fn bytes(&self) -> Seq<u8> {
        self.data@
    }

    /// Index of the next bit to be read.
    pub(crate) closed spec fn pos(&self) -> int {
        self.byte_pos * 8 + self.bit_pos
    }

    /// The position lies within the data.
    pub(crate) closed spec fn wf(&self) -> bool {
        &&& self.bit_pos < 8
        &&& self.byte_pos <= self.data@.len()
        &&& self.byte_pos == self.data@.len() ==> self.bit_pos == 0
    }

    pub(crate) proof fn lemma_pos_bounds(&self)
        requires
            self.wf(),
        ensures
            0 <= self.pos() <= bit_len(self.bytes()),
    {
    }

    /// A reader positioned at the first bit of `data`.
    pub(crate) fn new(data: &'a [u8]) -> (r: Self)
        ensures
            r.wf(),
            r.bytes() == data@,
            r.pos() == 0,
    {
        BitReader { data, byte_pos: 0, bit_pos: 0 }
    }

    /// Reads one bit; `None` once every bit has been read.
    pub(crate) fn read_bit(&mut self) -> (r: Option<u8>)
        requires
            old(self).wf(),
        ensures
            final(self).wf(),
            final(self).bytes() == old(self).bytes(),
            match read_bit_spec(old(self).bytes(), old(self).pos()) {
                Some((b, q)) => r == Some(b) && final(self).pos() == q,
                None => r is None && *final(self) == *old(self),
            },
    {
        if self.byte_pos >= self.data.len() {
            return None;
        }
        let ghost p = self.pos();
        assert(p / 8 == self.byte_pos && p % 8 == self.bit_pos) by (nonlinear_arith)
            requires
                p == self.byte_pos * 8 + self.bit_pos,
                self.bit_pos < 8,
        ;
        let bit = (self.data[self.byte_pos] >> (7 - self.bit_pos)) & 1;
        self.bit_pos = self.bit_pos + 1;
        if self.bit_pos == 8 {
            self.bit_pos = 0;
            self.byte_pos = self.byte_pos + 1;
        }
        Some(bit)
    }

    /// Skips `n` bits; `None` when fewer than `n` remain.
    pub(crate) fn skip(&mut self, n: usize) -> (r: Option<()>)
        requires
            old(self).wf(),
        ensures
            final(self).wf(),
            final(self).bytes() == old(self).bytes(),
            match skip_spec(old(self).bytes(), old(self).pos(), n as int) {
                Some(q) => r is Some && final(self).pos() == q,
                None => r is None && final(self).pos() == bit_len(old(self).bytes()),
            },
    {
        let ghost p0 = self.pos();
        let ghost d = self.bytes();
        let mut i: usize = 0;
        while i < n
            invariant
                self.wf(),
                self.bytes() == d,
                d == old(self).bytes(),
                p0 == old(self).pos(),
                i <= n,
                self.pos() == p0 + i,
                p0 + i <= bit_len(d),
            decreases n - i,
        {
            self.read_bit()?;
            i = i + 1;
        }
        Some(())
    }

    /// Reads an unsigned Exp-Golomb code `ue(v)`. A code with 32 or more
    /// leading zero bits is refused.
    pub(crate) fn read_ue(&mut self) -> (r: Option<u32>)
        requires
            old(self).wf(),
        ensures
            final(self).wf(),
            final(self).bytes() == old(self).bytes(),
            match ue_spec(old(self).bytes(), old(self).pos()) {
                Some((v, q)) => r is Some && r->0 == v && final(self).pos() == q,
                None => r is None && final(self).pos() == ue_failure_pos(
                    old(self).bytes(),
                    old(self).pos(),
                ),
            },
    {
        let ghost p0 = self.pos();
        let ghost d = self.bytes();
        proof {
            self.lemma_pos_bounds();
            reveal(ue_spec);
        }
        let mut leading_zeros: u32 = 0;
        loop
            invariant_except_break
                self.pos() == p0 + leading_zeros,
                ue_zeros(d, p0, 0) == ue_zeros(d, p0, leading_zeros as nat),
                forall|k: int| 0 <= k < leading_zeros ==> #[trigger] bit_at(d, p0 + k) == 0,
            invariant
                self.wf(),
                self.bytes() == d,
                d == old(self).bytes(),
                p0 == old(self).pos(),
                0 <= p0,
                leading_zeros < 32,
            ensures
                self.pos() == p0 + leading_zeros + 1,
                ue_zeros(d, p0, 0) == Some(leading_zeros as nat),
            decreases 32 - leading_zeros,
        {
            proof {
                reveal(ue_spec);
                self.lemma_pos_bounds();
            }
            let bit = self.read_bit()?;
            proof {
                lemma_bit_at_le_1(d, p0 + leading_zeros);
            }
            if bit != 0 {
                break;
            }
            leading_zeros = leading_zeros + 1;
            if leading_zeros >= 32 {
                proof {
                    self.lemma_pos_bounds();
                }
                return None;
            }
        }
        let ghost z = leading_zeros as nat;
        let ghost q = p0 + z + 1;
        assert(ue_zeros(d, p0, 0) == Some(z));
        proof {
            lemma_ue_zeros_ends_with_one(d, p0, 0);
        }
        if leading_zeros == 0 {
            proof {
                lemma2_to64();
            }
            return Some(0);
        }
        let mut value: u32 = 1;
        let mut k: u32 = 0;
        proof {
            lemma2_to64();
        }
        while k < leading_zeros
            invariant
                self.wf(),
                self.bytes() == d,
                d == old(self).bytes(),
                p0 == old(self).pos(),
                z == leading_zeros,
                0 < z < 32,
                q == p0 + z + 1,
                ue_zeros(d, p0, 0) == Some(z),
                bit_at(d, p0 + z) == 1,
                k <= z,
                self.pos() == q + k,
                value as nat == pow2(k as nat) + bits_value(d, q, k as nat),
            decreases z - k,
        {
            proof {
                reveal(ue_spec);
                self.lemma_pos_bounds();
            }
            let bit = self.read_bit()?;
            proof {
                lemma_bit_at_le_1(d, q + k);
                lemma_bits_value_bound(d, q, k as nat);
                lemma_pow2_unfold((k + 1) as nat);
                lemma2_to64();
                if k + 1 < 31 {
                    lemma_pow2_strictly_increases((k + 1) as nat, 31);
                }
            }
            assert(value < 0x8000_0000u32);
            let b32 = bit as u32;
            assert((value << 1u32) | b32 == value * 2 + b32) by (bit_vector)
                requires
                    value < 0x8000_0000u32,
                    b32 <= 1u32,
            ;
            value = (value << 1) | b32;
            k = k + 1;
        }
        proof {
            lemma_ue_bounds(d, p0);
        }
        Some(value - 1)
    }

    /// Reads a signed Exp-Golomb code `se(v)`.
    pub(crate) fn read_se(&mut self) -> (r: Option<i32>)
        requires
            old(self).wf(),
        ensures
            final(self).wf(),
            final(self).bytes() == old(self).bytes(),
            match se_spec(old(self).bytes(), old(self).pos()) {
                Some((v, q)) => r is Some && r->0 == v && final(self).pos() == q,
                None => r is None && final(self).pos() == ue_failure_pos(
                    old(self).bytes(),
                    old(self).pos(),
                ),
            },
    {
        let ghost p0 = self.pos();
        let ghost d = self.bytes();
        let code_num = self.read_ue()?;
        proof {
            lemma_ue_bounds(d, p0);
        }
        assert(code_num <= 0xffff_fffeu32);
        let sign: i32 = if code_num & 1 == 1 {
            1
        } else {
            -1
        };
        assert((code_num & 1u32 == 1u32) == (code_num % 2 == 1)) by (bit_vector);
        let next = code_num + 1;
        let half = next >> 1;
        assert(half == next / 2 && half <= 0x7fff_ffffu32) by (bit_vector)
            requires
                next <= 0xffff_ffffu32,
                half == next >> 1u32,
        ;
        Some(sign * (half as i32))
    }
}

} // verus!
