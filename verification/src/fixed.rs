//! Fixed-width encoding: the bytes of an integer's two's complement form,
//! least significant byte first.

use vstd::arithmetic::power2::{lemma2_to64, lemma2_to64_rest, lemma_pow2_adds, pow2};
use vstd::prelude::*;

verus! {

/// The `n` low base-256 digits of `v`, least significant first.
pub open spec fn spec_le_bytes(v: nat, n: nat) -> Seq<u8>
    decreases n,
{
    if n == 0 {
        Seq::empty()
    } else {
        seq![(v % 256) as u8] + spec_le_bytes(v / 256, (n - 1) as nat)
    }
}

/// The number that the bytes of `s` spell, least significant first: the sum
/// over `k` of `s[k] * 256^k`.
pub open spec fn spec_le_value(s: Seq<u8>) -> nat
    decreases s.len(),
{
    if s.len() == 0 {
        0
    } else {
        s[0] as nat + 256 * spec_le_value(s.drop_first())
    }
}

/// The unsigned number with the bit pattern that `v` has in two's complement
/// of `bits` bits.
pub open spec fn spec_twos_complement(v: int, bits: nat) -> nat {
    if v >= 0 {
        v as nat
    } else {
        (v + pow2(bits)) as nat
    }
}

/// The signed number whose two's complement form of `bits` bits is `n`.
pub open spec fn spec_signed(n: nat, bits: nat) -> int {
    if 2 * n < pow2(bits) {
        n as int
    } else {
        n - pow2(bits)
    }
}

/// `n` bytes have `n` bytes.
pub proof fn lemma_le_bytes_len(v: nat, n: nat)
    ensures
        spec_le_bytes(v, n).len() == n,
    decreases n,
{
    if n > 0 {
        lemma_le_bytes_len(v / 256, (n - 1) as nat);
    }
}

/// The first `m` of the `n` low bytes of `v` are its `m` low bytes.
pub proof fn lemma_le_bytes_take(v: nat, n: nat, m: nat)
    requires
        m <= n,
    ensures
        spec_le_bytes(v, n).take(m as int) == spec_le_bytes(v, m),
    decreases m,
{
    lemma_le_bytes_len(v, n);
    if m == 0 {
        assert(spec_le_bytes(v, n).take(0) =~= Seq::<u8>::empty());
    } else {
        lemma_le_bytes_take(v / 256, (n - 1) as nat, (m - 1) as nat);
        lemma_le_bytes_len(v / 256, (n - 1) as nat);
        let rest = spec_le_bytes(v / 256, (n - 1) as nat);
        assert(spec_le_bytes(v, n).take(m as int) =~= seq![(v % 256) as u8] + rest.take(m - 1));
    }
}

/// `n` bytes spell a number below `256^n`.
pub proof fn lemma_le_value_bound(s: Seq<u8>)
    ensures
        spec_le_value(s) < pow2(8 * s.len()),
    decreases s.len(),
{
    lemma2_to64();
    if s.len() > 0 {
        lemma_le_value_bound(s.drop_first());
        lemma_pow2_adds(8, 8 * s.drop_first().len());
        assert(8 + 8 * s.drop_first().len() == 8 * s.len());
    }
}

/// The `n` low bytes of a number below `256^n` spell that number.
pub proof fn lemma_le_value_of_bytes(v: nat, n: nat)
    requires
        v < pow2(8 * n),
    ensures
        spec_le_value(spec_le_bytes(v, n)) == v,
    decreases n,
{
    lemma2_to64();
    let s = spec_le_bytes(v, n);
    if n > 0 {
        let rest = spec_le_bytes(v / 256, (n - 1) as nat);
        lemma_pow2_adds(8, (8 * (n - 1)) as nat);
        assert(8 + 8 * (n - 1) == 8 * n);
        lemma_le_value_of_bytes(v / 256, (n - 1) as nat);
        assert(s.drop_first() =~= rest);
    }
}

/// The bytes of the number that `s` spells are those of `s`.
pub proof fn lemma_le_bytes_of_value(s: Seq<u8>)
    ensures
        spec_le_bytes(spec_le_value(s), s.len()) == s,
    decreases s.len(),
{
    if s.len() == 0 {
        assert(spec_le_bytes(spec_le_value(s), 0) =~= s);
    } else {
        let rest = s.drop_first();
        lemma_le_bytes_of_value(rest);
        let v: nat = spec_le_value(s);
        assert(v % 256 == s[0] as nat);
        assert(v / 256 == spec_le_value(rest));
        assert(spec_le_bytes(v, s.len()) =~= s);
    }
}

/// Writes the `dst.len()` low bytes of `v` to `dst`, least significant first.
pub fn write_le(v: u64, dst: &mut [u8])
    ensures
        final(dst)@ == spec_le_bytes(v as nat, old(dst)@.len()),
{
    let ghost v0: u64 = v;
    let mut v: u64 = v;
    let mut i: usize = 0;
    let len: usize = dst.len();
    proof {
        assert(dst@.take(0) =~= Seq::<u8>::empty());
    }
    while i < len
        invariant
            i <= len,
            len == dst@.len(),
            dst@.len() == old(dst)@.len(),
            spec_le_bytes(v0 as nat, len as nat) == dst@.take(i as int) + spec_le_bytes(
                v as nat,
                (len - i) as nat,
            ),
        decreases len - i,
    {
        let ghost before: Seq<u8> = dst@;
        let b: u8 = (v % 256) as u8;
        dst[i] = b;
        v = v / 256;
        i += 1;
        proof {
            assert(dst@.take(i as int) =~= before.take(i - 1).push(b));
            assert(dst@.take(i as int) + spec_le_bytes(v as nat, (len - i) as nat)
                =~= before.take(i - 1) + (seq![b] + spec_le_bytes(v as nat, (len - i) as nat)));
        }
    }
    proof {
        assert(dst@.take(len as int) =~= dst@);
        assert(spec_le_bytes(v as nat, 0) =~= Seq::<u8>::empty());
    }
}

/// Reads the number that the bytes of `src` spell, least significant first.
pub fn read_le(src: &[u8]) -> (r: u64)
    requires
        src@.len() <= 8,
    ensures
        r == spec_le_value(src@),
{
    let mut r: u64 = 0;
    let mut i: usize = src.len();
    proof {
        assert(src@.skip(src@.len() as int) =~= Seq::<u8>::empty());
        lemma2_to64();
        lemma2_to64_rest();
    }
    while i > 0
        invariant
            i <= src@.len() <= 8,
            r == spec_le_value(src@.skip(i as int)),
        decreases i,
    {
        i -= 1;
        proof {
            let tail = src@.skip(i as int);
            assert(tail.drop_first() =~= src@.skip(i + 1));
            lemma_le_value_bound(tail.drop_first());
            lemma_le_value_bound(tail);
            lemma2_to64();
            lemma2_to64_rest();
            assert(8 * tail.len() <= 64);
            if 8 * tail.len() < 64 {
                vstd::arithmetic::power2::lemma_pow2_strictly_increases(8 * tail.len(), 64);
            }
        }
        r = r * 256 + src[i] as u64;
    }
    proof {
        assert(src@.skip(0) =~= src@);
    }
    r
}

/// Reads the number that the bytes of `src` spell, most significant first.
pub fn read_be(src: &[u8]) -> (r: u64)
    requires
        src@.len() <= 8,
    ensures
        r == spec_le_value(src@.reverse()),
{
    let mut r: u64 = 0;
    let mut i: usize = 0;
    proof {
        assert(src@.take(0).reverse() =~= Seq::<u8>::empty());
    }
    while i < src.len()
        invariant
            i <= src@.len() <= 8,
            r == spec_le_value(src@.take(i as int).reverse()),
        decreases src@.len() - i,
    {
        proof {
            let head = src@.take(i + 1).reverse();
            assert(head.drop_first() =~= src@.take(i as int).reverse());
            assert(head[0] == src@[i as int]);
            lemma_le_value_bound(head);
            lemma2_to64();
            lemma2_to64_rest();
            if 8 * head.len() < 64 {
                vstd::arithmetic::power2::lemma_pow2_strictly_increases(8 * head.len(), 64);
            }
        }
        r = r * 256 + src[i] as u64;
        i += 1;
    }
    proof {
        assert(src@.take(src@.len() as int) =~= src@);
    }
    r
}

/// Encoding to and decoding from the fixed-width form: as many bytes as the
/// type has, least significant first.
pub trait FixedInt: Sized + Copy {
    /// The array that holds an encoded value.
    type Bytes;

    /// Number of bytes of the encoded form.
    const ENCODED_SIZE: usize;

    /// Number of bytes of the encoded form.
    spec fn spec_encoded_size() -> nat;

    /// The unsigned number with the bit pattern of `self`.
    spec fn spec_pattern(self) -> nat;

    /// The value with the bit pattern `pattern`.
    spec fn spec_from_pattern(pattern: nat) -> Self;

    /// The bytes that an array of encoded form holds.
    spec fn spec_bytes(bytes: Self::Bytes) -> Seq<u8>;

    /// The encoded form has between one and eight bytes, as many as the
    /// constant says, and every value has a bit pattern of its own that
    /// fits them.
    proof fn lemma_pattern_in_width(v: Self)
        ensures
            Self::ENCODED_SIZE == Self::spec_encoded_size(),
            1 <= Self::spec_encoded_size() <= 8,
            v.spec_pattern() < pow2(8 * Self::spec_encoded_size()),
            Self::spec_from_pattern(v.spec_pattern()) == v,
    ;

    /// Every bit pattern that fits the encoded form is that of a value.
    proof fn lemma_pattern_onto(pattern: nat)
        requires
            pattern < pow2(8 * Self::spec_encoded_size()),
        ensures
            Self::spec_from_pattern(pattern).spec_pattern() == pattern,
    ;

    /// Encodes the value into the given slice, least significant byte first.
    /// Returns `None`, and leaves the slice alone, unless it is exactly as
    /// long as the encoded form.
    fn encode_fixed(self, dst: &mut [u8]) -> (r: Option<()>)
        ensures
            r is Some <==> old(dst)@.len() == Self::spec_encoded_size(),
            r is Some ==> final(dst)@ == spec_le_bytes(
                self.spec_pattern(),
                Self::spec_encoded_size(),
            ),
            r is None ==> final(dst)@ == old(dst)@,
    ;

    /// Returns the encoded form as an array on the stack.
    fn encode_fixed_light(self) -> (bytes: Self::Bytes)
        ensures
            Self::spec_bytes(bytes) == spec_le_bytes(
                self.spec_pattern(),
                Self::spec_encoded_size(),
            ),
    ;

    /// Decodes a value from the given slice, least significant byte first.
    /// Returns `None` unless the slice is exactly as long as the encoded form.
    fn decode_fixed(src: &[u8]) -> (r: Option<Self>)
        ensures
            r is Some <==> src@.len() == Self::spec_encoded_size(),
            r matches Some(value) ==> value == Self::spec_from_pattern(spec_le_value(src@)),
    ;

    /// Encodes the value and returns the encoded form as a `Vec`.
    fn encode_fixed_vec(self) -> (v: Vec<u8>)
        ensures
            v@ == spec_le_bytes(self.spec_pattern(), Self::spec_encoded_size()),
    ;

    /// The value whose bytes are those of `self` in the opposite order: what
    /// a value read in the other byte order stands for.
    fn switch_endianness(self) -> (r: Self)
        ensures
            r == Self::spec_from_pattern(
                spec_le_value(
                    spec_le_bytes(self.spec_pattern(), Self::spec_encoded_size()).reverse(),
                ),
            ),
    ;
}

impl FixedInt for usize {
    type Bytes = [u8; 8];

    const ENCODED_SIZE: usize = (usize::BITS / 8) as usize;

    open spec fn spec_encoded_size() -> nat {
        (usize::BITS / 8) as nat
    }

    open spec fn spec_pattern(self) -> nat {
        self as nat
    }

    open spec fn spec_from_pattern(pattern: nat) -> usize {
        pattern as usize
    }

    /// The array has room for the widest pointer: the encoded form is its
    /// first `spec_encoded_size()` bytes.
    open spec fn spec_bytes(bytes: [u8; 8]) -> Seq<u8> {
        bytes@.take(Self::spec_encoded_size() as int)
    }

    proof fn lemma_pattern_in_width(v: usize) {
        lemma_pow2_values();
    }

    proof fn lemma_pattern_onto(pattern: nat) {
        lemma_pow2_values();
    }

    fn encode_fixed(self, dst: &mut [u8]) -> (r: Option<()>) {
        if dst.len() == (usize::BITS / 8) as usize {
            write_le(self as u64, dst);
            Some(())
        } else {
            None
        }
    }

    fn encode_fixed_light(self) -> (bytes: [u8; 8]) {
        let mut bytes: [u8; 8] = [0; 8];
        write_le(self as u64, &mut bytes);
        proof {
            lemma_le_bytes_take(self as nat, 8, Self::spec_encoded_size());
        }
        bytes
    }

    fn decode_fixed(src: &[u8]) -> (r: Option<usize>) {
        if src.len() == (usize::BITS / 8) as usize {
            proof {
                lemma_pow2_values();
                lemma_le_value_bound(src@);
            }
            Some(read_le(src) as usize)
        } else {
            None
        }
    }

    fn encode_fixed_vec(self) -> (v: Vec<u8>) {
        let mut v: Vec<u8> = Vec::new();
        v.resize((usize::BITS / 8) as usize, 0);
        write_le(self as u64, v.as_mut_slice());
        v
    }

    fn switch_endianness(self) -> (r: usize) {
        let v: Vec<u8> = self.encode_fixed_vec();
        proof {
            lemma_pow2_values();
            lemma_le_bytes_len(self as nat, Self::spec_encoded_size());
            lemma_le_value_bound(v@.reverse());
        }
        read_be(v.as_slice()) as usize
    }
}

impl FixedInt for u64 {
    type Bytes = [u8; 8];

    const ENCODED_SIZE: usize = 8;

    open spec fn spec_encoded_size() -> nat {
        8
    }

    open spec fn spec_pattern(self) -> nat {
        self as nat
    }

    open spec fn spec_from_pattern(pattern: nat) -> u64 {
        pattern as u64
    }

    open spec fn spec_bytes(bytes: [u8; 8]) -> Seq<u8> {
        bytes@
    }

    proof fn lemma_pattern_in_width(v: u64) {
        lemma_pow2_values();
    }

    proof fn lemma_pattern_onto(pattern: nat) {
        lemma_pow2_values();
    }

    fn encode_fixed(self, dst: &mut [u8]) -> (r: Option<()>) {
        if dst.len() == 8 {
            write_le(self, dst);
            Some(())
        } else {
            None
        }
    }

    fn encode_fixed_light(self) -> (bytes: [u8; 8]) {
        let mut bytes: [u8; 8] = [0; 8];
        write_le(self, &mut bytes);
        bytes
    }

    fn decode_fixed(src: &[u8]) -> (r: Option<u64>) {
        if src.len() == 8 {
            proof {
                lemma_pow2_values();
                lemma_le_value_bound(src@);
            }
            Some(read_le(src))
        } else {
            None
        }
    }

    fn encode_fixed_vec(self) -> (v: Vec<u8>) {
        let mut v: Vec<u8> = Vec::new();
        v.resize(8, 0);
        write_le(self, v.as_mut_slice());
        v
    }

    fn switch_endianness(self) -> (r: u64) {
        let bytes: [u8; 8] = self.encode_fixed_light();
        proof {
            lemma_pow2_values();
            lemma_le_value_bound(bytes@.reverse());
        }
        read_be(&bytes)
    }
}

impl FixedInt for u32 {
    type Bytes = [u8; 4];

    const ENCODED_SIZE: usize = 4;

    open spec fn spec_encoded_size() -> nat {
        4
    }

    open spec fn spec_pattern(self) -> nat {
        self as nat
    }

    open spec fn spec_from_pattern(pattern: nat) -> u32 {
        pattern as u32
    }

    open spec fn spec_bytes(bytes: [u8; 4]) -> Seq<u8> {
        bytes@
    }

    proof fn lemma_pattern_in_width(v: u32) {
        lemma_pow2_values();
    }

    proof fn lemma_pattern_onto(pattern: nat) {
        lemma_pow2_values();
    }

    fn encode_fixed(self, dst: &mut [u8]) -> (r: Option<()>) {
        if dst.len() == 4 {
            write_le(self as u64, dst);
            Some(())
        } else {
            None
        }
    }

    fn encode_fixed_light(self) -> (bytes: [u8; 4]) {
        let mut bytes: [u8; 4] = [0; 4];
        write_le(self as u64, &mut bytes);
        bytes
    }

    fn decode_fixed(src: &[u8]) -> (r: Option<u32>) {
        if src.len() == 4 {
            proof {
                lemma_pow2_values();
                lemma_le_value_bound(src@);
            }
            Some(read_le(src) as u32)
        } else {
            None
        }
    }

    fn encode_fixed_vec(self) -> (v: Vec<u8>) {
        let mut v: Vec<u8> = Vec::new();
        v.resize(4, 0);
        write_le(self as u64, v.as_mut_slice());
        v
    }

    fn switch_endianness(self) -> (r: u32) {
        let bytes: [u8; 4] = self.encode_fixed_light();
        proof {
            lemma_pow2_values();
            lemma_le_value_bound(bytes@.reverse());
        }
        read_be(&bytes) as u32
    }
}

impl FixedInt for u16 {
    type Bytes = [u8; 2];

    const ENCODED_SIZE: usize = 2;

    open spec fn spec_encoded_size() -> nat {
        2
    }

    open spec fn spec_pattern(self) -> nat {
        self as nat
    }

    open spec fn spec_from_pattern(pattern: nat) -> u16 {
        pattern as u16
    }

    open spec fn spec_bytes(bytes: [u8; 2]) -> Seq<u8> {
        bytes@
    }

    proof fn lemma_pattern_in_width(v: u16) {
        lemma_pow2_values();
    }

    proof fn lemma_pattern_onto(pattern: nat) {
        lemma_pow2_values();
    }

    fn encode_fixed(self, dst: &mut [u8]) -> (r: Option<()>) {
        if dst.len() == 2 {
            write_le(self as u64, dst);
            Some(())
        } else {
            None
        }
    }

    fn encode_fixed_light(self) -> (bytes: [u8; 2]) {
        let mut bytes: [u8; 2] = [0; 2];
        write_le(self as u64, &mut bytes);
        bytes
    }

    fn decode_fixed(src: &[u8]) -> (r: Option<u16>) {
        if src.len() == 2 {
            proof {
                lemma_pow2_values();
                lemma_le_value_bound(src@);
            }
            Some(read_le(src) as u16)
        } else {
            None
        }
    }

    fn encode_fixed_vec(self) -> (v: Vec<u8>) {
        let mut v: Vec<u8> = Vec::new();
        v.resize(2, 0);
        write_le(self as u64, v.as_mut_slice());
        v
    }

    fn switch_endianness(self) -> (r: u16) {
        let bytes: [u8; 2] = self.encode_fixed_light();
        proof {
            lemma_pow2_values();
            lemma_le_value_bound(bytes@.reverse());
        }
        read_be(&bytes) as u16
    }
}

impl FixedInt for u8 {
    type Bytes = [u8; 1];

    const ENCODED_SIZE: usize = 1;

    open spec fn spec_encoded_size() -> nat {
        1
    }

    open spec fn spec_pattern(self) -> nat {
        self as nat
    }

    open spec fn spec_from_pattern(pattern: nat) -> u8 {
        pattern as u8
    }

    open spec fn spec_bytes(bytes: [u8; 1]) -> Seq<u8> {
        bytes@
    }

    proof fn lemma_pattern_in_width(v: u8) {
        lemma_pow2_values();
    }

    proof fn lemma_pattern_onto(pattern: nat) {
        lemma_pow2_values();
    }

    fn encode_fixed(self, dst: &mut [u8]) -> (r: Option<()>) {
        if dst.len() == 1 {
            write_le(self as u64, dst);
            Some(())
        } else {
            None
        }
    }

    fn encode_fixed_light(self) -> (bytes: [u8; 1]) {
        let mut bytes: [u8; 1] = [0; 1];
        write_le(self as u64, &mut bytes);
        bytes
    }

    fn decode_fixed(src: &[u8]) -> (r: Option<u8>) {
        if src.len() == 1 {
            proof {
                lemma_pow2_values();
                lemma_le_value_bound(src@);
            }
            Some(read_le(src) as u8)
        } else {
            None
        }
    }

    fn encode_fixed_vec(self) -> (v: Vec<u8>) {
        let mut v: Vec<u8> = Vec::new();
        v.resize(1, 0);
        write_le(self as u64, v.as_mut_slice());
        v
    }

    fn switch_endianness(self) -> (r: u8) {
        let bytes: [u8; 1] = self.encode_fixed_light();
        proof {
            lemma_pow2_values();
            lemma_le_value_bound(bytes@.reverse());
        }
        read_be(&bytes) as u8
    }
}

impl FixedInt for isize {
    type Bytes = [u8; 8];

    const ENCODED_SIZE: usize = (usize::BITS / 8) as usize;

    open spec fn spec_encoded_size() -> nat {
        (usize::BITS / 8) as nat
    }

    open spec fn spec_pattern(self) -> nat {
        spec_twos_complement(self as int, usize::BITS as nat)
    }

    open spec fn spec_from_pattern(pattern: nat) -> isize {
        spec_signed(pattern, usize::BITS as nat) as isize
    }

    /// The array has room for the widest pointer: the encoded form is its
    /// first `spec_encoded_size()` bytes.
    open spec fn spec_bytes(bytes: [u8; 8]) -> Seq<u8> {
        bytes@.take(Self::spec_encoded_size() as int)
    }

    proof fn lemma_pattern_in_width(v: isize) {
        lemma_pow2_values();
    }

    proof fn lemma_pattern_onto(pattern: nat) {
        lemma_pow2_values();
    }

    fn encode_fixed(self, dst: &mut [u8]) -> (r: Option<()>) {
        if dst.len() == (usize::BITS / 8) as usize {
            write_le(pattern_isize(self), dst);
            Some(())
        } else {
            None
        }
    }

    fn encode_fixed_light(self) -> (bytes: [u8; 8]) {
        let mut bytes: [u8; 8] = [0; 8];
        write_le(pattern_isize(self), &mut bytes);
        proof {
            lemma_le_bytes_take(self.spec_pattern(), 8, Self::spec_encoded_size());
        }
        bytes
    }

    fn decode_fixed(src: &[u8]) -> (r: Option<isize>) {
        if src.len() == (usize::BITS / 8) as usize {
            proof {
                lemma_le_value_bound(src@);
            }
            Some(signed_isize(read_le(src)))
        } else {
            None
        }
    }

    fn encode_fixed_vec(self) -> (v: Vec<u8>) {
        let mut v: Vec<u8> = Vec::new();
        v.resize((usize::BITS / 8) as usize, 0);
        write_le(pattern_isize(self), v.as_mut_slice());
        v
    }

    fn switch_endianness(self) -> (r: isize) {
        let v: Vec<u8> = self.encode_fixed_vec();
        proof {
            lemma_le_bytes_len(self.spec_pattern(), Self::spec_encoded_size());
            lemma_le_value_bound(v@.reverse());
        }
        signed_isize(read_be(v.as_slice()))
    }
}

impl FixedInt for i64 {
    type Bytes = [u8; 8];

    const ENCODED_SIZE: usize = 8;

    open spec fn spec_encoded_size() -> nat {
        8
    }

    open spec fn spec_pattern(self) -> nat {
        spec_twos_complement(self as int, 64)
    }

    open spec fn spec_from_pattern(pattern: nat) -> i64 {
        spec_signed(pattern, 64) as i64
    }

    open spec fn spec_bytes(bytes: [u8; 8]) -> Seq<u8> {
        bytes@
    }

    proof fn lemma_pattern_in_width(v: i64) {
        lemma_pow2_values();
    }

    proof fn lemma_pattern_onto(pattern: nat) {
        lemma_pow2_values();
    }

    fn encode_fixed(self, dst: &mut [u8]) -> (r: Option<()>) {
        if dst.len() == 8 {
            write_le(pattern_i64(self), dst);
            Some(())
        } else {
            None
        }
    }

    fn encode_fixed_light(self) -> (bytes: [u8; 8]) {
        let mut bytes: [u8; 8] = [0; 8];
        write_le(pattern_i64(self), &mut bytes);
        bytes
    }

    fn decode_fixed(src: &[u8]) -> (r: Option<i64>) {
        if src.len() == 8 {
            proof {
                lemma_le_value_bound(src@);
            }
            Some(signed_i64(read_le(src)))
        } else {
            None
        }
    }

    fn encode_fixed_vec(self) -> (v: Vec<u8>) {
        let mut v: Vec<u8> = Vec::new();
        v.resize(8, 0);
        write_le(pattern_i64(self), v.as_mut_slice());
        v
    }

    fn switch_endianness(self) -> (r: i64) {
        let bytes: [u8; 8] = self.encode_fixed_light();
        proof {
            lemma_le_value_bound(bytes@.reverse());
        }
        signed_i64(read_be(&bytes))
    }
}

impl FixedInt for i32 {
    type Bytes = [u8; 4];

    const ENCODED_SIZE: usize = 4;

    open spec fn spec_encoded_size() -> nat {
        4
    }

    open spec fn spec_pattern(self) -> nat {
        spec_twos_complement(self as int, 32)
    }

    open spec fn spec_from_pattern(pattern: nat) -> i32 {
        spec_signed(pattern, 32) as i32
    }

    open spec fn spec_bytes(bytes: [u8; 4]) -> Seq<u8> {
        bytes@
    }

    proof fn lemma_pattern_in_width(v: i32) {
        lemma_pow2_values();
    }

    proof fn lemma_pattern_onto(pattern: nat) {
        lemma_pow2_values();
    }

    fn encode_fixed(self, dst: &mut [u8]) -> (r: Option<()>) {
        if dst.len() == 4 {
            write_le(pattern_i32(self), dst);
            Some(())
        } else {
            None
        }
    }

    fn encode_fixed_light(self) -> (bytes: [u8; 4]) {
        let mut bytes: [u8; 4] = [0; 4];
        write_le(pattern_i32(self), &mut bytes);
        bytes
    }

    fn decode_fixed(src: &[u8]) -> (r: Option<i32>) {
        if src.len() == 4 {
            proof {
                lemma_le_value_bound(src@);
            }
            Some(signed_i32(read_le(src)))
        } else {
            None
        }
    }

    fn encode_fixed_vec(self) -> (v: Vec<u8>) {
        let mut v: Vec<u8> = Vec::new();
        v.resize(4, 0);
        write_le(pattern_i32(self), v.as_mut_slice());
        v
    }

    fn switch_endianness(self) -> (r: i32) {
        let bytes: [u8; 4] = self.encode_fixed_light();
        proof {
            lemma_le_value_bound(bytes@.reverse());
        }
        signed_i32(read_be(&bytes))
    }
}

impl FixedInt for i16 {
    type Bytes = [u8; 2];

    const ENCODED_SIZE: usize = 2;

    open spec fn spec_encoded_size() -> nat {
        2
    }

    open spec fn spec_pattern(self) -> nat {
        spec_twos_complement(self as int, 16)
    }

    open spec fn spec_from_pattern(pattern: nat) -> i16 {
        spec_signed(pattern, 16) as i16
    }

    open spec fn spec_bytes(bytes: [u8; 2]) -> Seq<u8> {
        bytes@
    }

    proof fn lemma_pattern_in_width(v: i16) {
        lemma_pow2_values();
    }

    proof fn lemma_pattern_onto(pattern: nat) {
        lemma_pow2_values();
    }

    fn encode_fixed(self, dst: &mut [u8]) -> (r: Option<()>) {
        if dst.len() == 2 {
            write_le(pattern_i16(self), dst);
            Some(())
        } else {
            None
        }
    }

    fn encode_fixed_light(self) -> (bytes: [u8; 2]) {
        let mut bytes: [u8; 2] = [0; 2];
        write_le(pattern_i16(self), &mut bytes);
        bytes
    }

    fn decode_fixed(src: &[u8]) -> (r: Option<i16>) {
        if src.len() == 2 {
            proof {
                lemma_le_value_bound(src@);
            }
            Some(signed_i16(read_le(src)))
        } else {
            None
        }
    }

    fn encode_fixed_vec(self) -> (v: Vec<u8>) {
        let mut v: Vec<u8> = Vec::new();
        v.resize(2, 0);
        write_le(pattern_i16(self), v.as_mut_slice());
        v
    }

    fn switch_endianness(self) -> (r: i16) {
        let bytes: [u8; 2] = self.encode_fixed_light();
        proof {
            lemma_le_value_bound(bytes@.reverse());
        }
        signed_i16(read_be(&bytes))
    }
}

impl FixedInt for i8 {
    type Bytes = [u8; 1];

    const ENCODED_SIZE: usize = 1;

    open spec fn spec_encoded_size() -> nat {
        1
    }

    open spec fn spec_pattern(self) -> nat {
        spec_twos_complement(self as int, 8)
    }

    open spec fn spec_from_pattern(pattern: nat) -> i8 {
        spec_signed(pattern, 8) as i8
    }

    open spec fn spec_bytes(bytes: [u8; 1]) -> Seq<u8> {
        bytes@
    }

    proof fn lemma_pattern_in_width(v: i8) {
        lemma_pow2_values();
    }

    proof fn lemma_pattern_onto(pattern: nat) {
        lemma_pow2_values();
    }

    fn encode_fixed(self, dst: &mut [u8]) -> (r: Option<()>) {
        if dst.len() == 1 {
            write_le(pattern_i8(self), dst);
            Some(())
        } else {
            None
        }
    }

    fn encode_fixed_light(self) -> (bytes: [u8; 1]) {
        let mut bytes: [u8; 1] = [0; 1];
        write_le(pattern_i8(self), &mut bytes);
        bytes
    }

    fn decode_fixed(src: &[u8]) -> (r: Option<i8>) {
        if src.len() == 1 {
            proof {
                lemma_le_value_bound(src@);
            }
            Some(signed_i8(read_le(src)))
        } else {
            None
        }
    }

    fn encode_fixed_vec(self) -> (v: Vec<u8>) {
        let mut v: Vec<u8> = Vec::new();
        v.resize(1, 0);
        write_le(pattern_i8(self), v.as_mut_slice());
        v
    }

    fn switch_endianness(self) -> (r: i8) {
        let bytes: [u8; 1] = self.encode_fixed_light();
        proof {
            lemma_le_value_bound(bytes@.reverse());
        }
        signed_i8(read_be(&bytes))
    }
}

/// The bit pattern of `v`, as an unsigned number.
fn pattern_isize(v: isize) -> (r: u64)
    ensures
        r == spec_twos_complement(v as int, usize::BITS as nat),
{
    proof {
        lemma_pow2_values();
    }
    if v >= 0 {
        v as u64
    } else {
        usize::MAX as u64 - (-(v + 1)) as u64
    }
}

/// The value with the bit pattern `n`.
fn signed_isize(n: u64) -> (r: isize)
    requires
        n < pow2(usize::BITS as nat),
    ensures
        r == spec_signed(n as nat, usize::BITS as nat),
{
    proof {
        lemma_pow2_values();
    }
    if n <= isize::MAX as u64 {
        n as isize
    } else {
        -((usize::MAX as u64 - n) as isize) - 1
    }
}

/// The bit pattern of `v`, as an unsigned number.
fn pattern_i64(v: i64) -> (r: u64)
    ensures
        r == spec_twos_complement(v as int, 64),
{
    proof {
        lemma_pow2_values();
    }
    let r: u64 = v as u64;
    assert(r == (if v >= 0 {
        v as int
    } else {
        v + 0x1_0000_0000_0000_0000
    })) by (bit_vector)
        requires
            r == v as u64,
    ;
    r
}

/// The value with the bit pattern `n`.
fn signed_i64(n: u64) -> (r: i64)
    requires
        n < pow2(64),
    ensures
        r == spec_signed(n as nat, 64),
{
    proof {
        lemma_pow2_values();
    }
    let r: i64 = n as i64;
    assert(r == (if 2 * n < 0x1_0000_0000_0000_0000 {
        n as int
    } else {
        n - 0x1_0000_0000_0000_0000
    })) by (bit_vector)
        requires
            n < 0x1_0000_0000_0000_0000,
            r == n as i64,
    ;
    r
}

/// The bit pattern of `v`, as an unsigned number.
fn pattern_i32(v: i32) -> (r: u64)
    ensures
        r == spec_twos_complement(v as int, 32),
{
    proof {
        lemma_pow2_values();
    }
    let r: u64 = (v as u32) as u64;
    assert(r == (if v >= 0 {
        v as int
    } else {
        v + 0x1_0000_0000
    })) by (bit_vector)
        requires
            r == (v as u32) as u64,
    ;
    r
}

/// The value with the bit pattern `n`.
fn signed_i32(n: u64) -> (r: i32)
    requires
        n < pow2(32),
    ensures
        r == spec_signed(n as nat, 32),
{
    proof {
        lemma_pow2_values();
    }
    let r: i32 = (n as u32) as i32;
    assert(r == (if 2 * n < 0x1_0000_0000 {
        n as int
    } else {
        n - 0x1_0000_0000
    })) by (bit_vector)
        requires
            n < 0x1_0000_0000,
            r == (n as u32) as i32,
    ;
    r
}

/// The bit pattern of `v`, as an unsigned number.
fn pattern_i16(v: i16) -> (r: u64)
    ensures
        r == spec_twos_complement(v as int, 16),
{
    proof {
        lemma_pow2_values();
    }
    let r: u64 = (v as u16) as u64;
    assert(r == (if v >= 0 {
        v as int
    } else {
        v + 0x1_0000
    })) by (bit_vector)
        requires
            r == (v as u16) as u64,
    ;
    r
}

/// The value with the bit pattern `n`.
fn signed_i16(n: u64) -> (r: i16)
    requires
        n < pow2(16),
    ensures
        r == spec_signed(n as nat, 16),
{
    proof {
        lemma_pow2_values();
    }
    let r: i16 = (n as u16) as i16;
    assert(r == (if 2 * n < 0x1_0000 {
        n as int
    } else {
        n - 0x1_0000
    })) by (bit_vector)
        requires
            n < 0x1_0000,
            r == (n as u16) as i16,
    ;
    r
}

/// The bit pattern of `v`, as an unsigned number.
fn pattern_i8(v: i8) -> (r: u64)
    ensures
        r == spec_twos_complement(v as int, 8),
{
    proof {
        lemma_pow2_values();
    }
    let r: u64 = (v as u8) as u64;
    assert(r == (if v >= 0 {
        v as int
    } else {
        v + 0x100
    })) by (bit_vector)
        requires
            r == (v as u8) as u64,
    ;
    r
}

/// The value with the bit pattern `n`.
fn signed_i8(n: u64) -> (r: i8)
    requires
        n < pow2(8),
    ensures
        r == spec_signed(n as nat, 8),
{
    proof {
        lemma_pow2_values();
    }
    let r: i8 = (n as u8) as i8;
    assert(r == (if 2 * n < 0x100 {
        n as int
    } else {
        n - 0x100
    })) by (bit_vector)
        requires
            n < 0x100,
            r == (n as u8) as i8,
    ;
    r
}

/// The powers of two that the integer widths use.
proof fn lemma_pow2_values()
    ensures
        pow2(8) == 0x100,
        pow2(16) == 0x1_0000,
        pow2(32) == 0x1_0000_0000,
        pow2(64) == 0x1_0000_0000_0000_0000,
{
    lemma2_to64();
}

} // verus!
