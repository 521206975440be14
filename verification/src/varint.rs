use crate::wire::{
    spec_decode, spec_encode, spec_group_sum, spec_required_space, spec_token_len,
    spec_varint_max_size, spec_zigzag_decode, spec_zigzag_encode,
};
use crate::wire_lemmas::{
    lemma_accumulate, lemma_group_fits, lemma_group_sum_bound, lemma_group_sum_lower,
    lemma_group_sum_take_step, lemma_leading_zeros_of_group, lemma_required_space_bound,
    lemma_token_len_is_first_terminator,
};
use vstd::arithmetic::power2::{lemma2_to64, lemma_pow2_pos, pow2};
use vstd::layout::size_of;
use vstd::prelude::*;

verus! {

/// The continuation flag: the most significant bit of an encoded byte.
pub const MSB: u8 = 0b1000_0000;

/// Mask that keeps the seven payload bits of an encoded byte.
pub const DROP_MSB: u8 = 0b0111_1111;

/// Maps a signed value to the unsigned domain so that values of small
/// magnitude, of either sign, get small images.
pub fn zigzag_encode(from: i64) -> (r: u64)
    ensures
        r == spec_zigzag_encode(from),
{
    let r: u64 = ((from << 1) ^ (from >> 63)) as u64;
    assert(((from << 1u64) ^ (from >> 63u64)) as u64 == (if from >= 0 {
        (2 * from) as u64
    } else {
        (-2 * from - 1) as u64
    })) by (bit_vector);
    r
}

/// Inverse of [`zigzag_encode`].
pub fn zigzag_decode(from: u64) -> (r: i64)
    ensures
        r == spec_zigzag_decode(from),
{
    let low: u64 = from & 1;
    assert(low == 0 || low == 1) by (bit_vector)
        requires
            low == from & 1,
    ;
    let sign: i64 = -(low as i64);
    let r: i64 = ((from >> 1) ^ (sign as u64)) as i64;
    assert(r == (if from % 2 == 0 {
        (from / 2) as i64
    } else {
        (-(from / 2) - 1) as i64
    })) by (bit_vector)
        requires
            low == from & 1,
            sign == -(low as i64),
            r == ((from >> 1u64) ^ (sign as u64)) as i64,
    ;
    r
}

/// How many bytes an unsigned integer uses when being encoded as a varint.
pub fn required_encoded_space_unsigned(v: u64) -> (n: usize)
    ensures
        n == spec_required_space(v),
        1 <= n <= 10,
{
    proof {
        lemma_required_space_bound(v);
    }
    if v == 0 {
        return 1;
    }
    let mut v: u64 = v;
    let ghost v0: u64 = v;
    let mut logcounter: usize = 0;
    while v > 0
        invariant
            logcounter <= 10,
            logcounter + (if v == 0 {
                0
            } else {
                spec_required_space(v)
            }) == spec_required_space(v0),
            spec_required_space(v0) <= 10,
        decreases v,
    {
        let ghost prev: u64 = v;
        logcounter += 1;
        v >>= 7;
        assert(v == prev / 128) by (bit_vector)
            requires
                v == prev >> 7u64,
        ;
    }
    logcounter
}

/// How many bytes a signed integer uses when being encoded as a varint.
pub fn required_encoded_space_signed(v: i64) -> (n: usize)
    ensures
        n == spec_required_space(spec_zigzag_encode(v)),
        1 <= n <= 10,
{
    required_encoded_space_unsigned(zigzag_encode(v))
}

/// Writes the minimal encoding of `n` to the front of `dst` and returns its
/// length. The bytes of `dst` behind the encoding are left as they were.
pub fn encode_unsigned(n: u64, dst: &mut [u8]) -> (written: usize)
    requires
        old(dst).len() >= spec_required_space(n),
    ensures
        written == spec_required_space(n),
        final(dst)@.len() == old(dst)@.len(),
        final(dst)@.take(written as int) == spec_encode(n),
        final(dst)@.skip(written as int) == old(dst)@.skip(written as int),
{
    let mut n: u64 = n;
    let ghost n0: u64 = n;
    let mut i: usize = 0;
    proof {
        lemma_required_space_bound(n0);
    }
    while n >= 0x80
        invariant
            dst@.len() == old(dst)@.len(),
            dst@.len() >= spec_required_space(n0),
            spec_required_space(n0) == i + spec_required_space(n),
            spec_required_space(n0) <= 10,
            spec_encode(n0) == dst@.take(i as int) + spec_encode(n),
            dst@.skip(i as int) == old(dst)@.skip(i as int),
        decreases n,
    {
        let ghost prev: u64 = n;
        let ghost before: Seq<u8> = dst@;
        let low: u8 = #[verifier::truncate] (n as u8);
        let b: u8 = MSB | low;
        assert(b == (128 + prev % 128) as u8) by (bit_vector)
            requires
                b == 0x80u8 | low,
                low == prev as u8,
        ;
        dst[i] = b;
        i += 1;
        n >>= 7;
        assert(n == prev / 128) by (bit_vector)
            requires
                n == prev >> 7u64,
        ;
        assert(dst@.take(i as int) == before.take(i - 1).push(b));
        assert(dst@.take(i as int) + spec_encode(n) == before.take(i - 1) + (seq![b]
            + spec_encode(n)));
        assert(dst@.skip(i as int) == before.skip(i - 1).skip(1));
    }
    let ghost before: Seq<u8> = dst@;
    let last: u8 = #[verifier::truncate] (n as u8);
    dst[i] = last;
    proof {
        assert(dst@.take(i + 1) == before.take(i as int).push(last));
        assert(dst@.take(i + 1) == before.take(i as int) + spec_encode(n));
        assert(dst@.skip(i + 1) == before.skip(i as int).skip(1));
        assert(old(dst)@.skip(i + 1) == old(dst)@.skip(i as int).skip(1));
    }
    i + 1
}

/// Decodes one varint from the front of `src` into the unsigned domain of
/// the width of `VI`, and says how many bytes it took.
///
/// Nothing is decoded when `src` ends before a byte without continuation
/// flag, when a group lies outside the width or the value does not fit it,
/// or, with `allow_non_minimal_encoding` unset, when the token is longer than
/// its value needs.
pub fn decode_exact<VI>(src: &[u8], allow_non_minimal_encoding: bool) -> (r: Option<(u64, usize)>)
    requires
        1 <= size_of::<VI>() <= 8,
    ensures
        match r {
            Some((value, used)) => spec_decode(
                src@,
                8 * size_of::<VI>(),
                allow_non_minimal_encoding,
            ) == Some((value, used as nat)),
            None => spec_decode(src@, 8 * size_of::<VI>(), allow_non_minimal_encoding) is None,
        },
{
    broadcast use vstd::layout::layout_of_primitives;

    let ghost bits: nat = 8 * size_of::<VI>();
    let missing: u32 = ((core::mem::size_of::<u64>() - core::mem::size_of::<VI>()) as u32) * 8;
    let mut result: u64 = 0;
    let mut shift: u32 = 0;
    let mut i: usize = 0;
    proof {
        lemma2_to64();
        lemma_pow2_pos(bits);
        lemma_token_len_is_first_terminator(src@);
        assert(src@.take(0) =~= Seq::<u8>::empty());
    }
    while i < src.len()
        invariant
            i <= src.len(),
            i <= 9,
            shift == 7 * i,
            bits == 8 * size_of::<VI>(),
            8 <= bits <= 64,
            missing == 64 - bits,
            forall|k: int| 0 <= k < i ==> src@[k] >= 128,
            result == spec_group_sum(src@.take(i as int)),
            result < pow2(7 * i as nat),
            result < pow2(bits),
            i > 0 ==> 7 * (i - 1) <= bits,
        decreases src.len() - i,
    {
        let b: u8 = src[i];
        let msb_dropped: u8 = b & DROP_MSB;
        assert(msb_dropped == b % 128 && (b & 0x80 == 0 <==> b < 128)) by (bit_vector)
            requires
                msb_dropped == b & 0x7f,
        ;
        proof {
            lemma_token_len_is_first_terminator(src@);
            lemma_leading_zeros_of_group(msb_dropped as u64);
            lemma_group_fits(msb_dropped as u64, i as nat, bits);
            lemma_group_sum_take_step(src@, i as nat);
            lemma_group_sum_bound(src@.take(i + 1));
        }
        // is there room to shift the group to its place without leaving the width?
        if (msb_dropped as u64).leading_zeros() - missing < shift {
            proof {
                if let Some(n) = spec_token_len(src@) {
                    lemma_group_sum_lower(src@, i as nat, n);
                }
            }
            return None;
        }
        proof {
            lemma_accumulate(result, msb_dropped as u64, i as nat, bits);
        }
        result |= (msb_dropped as u64) << shift;
        shift += 7;

        // a zero byte is only allowed if it is the first byte
        if !allow_non_minimal_encoding && b == 0 && i != 0 {
            return None;
        }
        if b & MSB == 0 {
            return Some((result, (shift / 7) as usize));
        }
        if shift > 9 * 7 {
            return None;
        }
        i += 1;
    }
    None
}

/// Varint (variable length integer) encoding: seven bits per byte, least
/// significant group first, the top bit of each byte saying whether another
/// byte follows. Signed integers are zigzag encoded first.
pub trait VarInt: Sized + Copy {
    /// Width of the type in bits.
    spec fn spec_bits() -> nat;

    /// The unsigned number that stands for `self` on the wire.
    spec fn spec_wire(self) -> u64;

    /// The value that the wire number `wire` stands for.
    spec fn spec_from_wire(wire: u64) -> Self;

    /// The width is that of the type's memory, and every value has a wire
    /// number of its own inside the width.
    proof fn lemma_wire_in_width(v: Self)
        ensures
            Self::spec_bits() == 8 * size_of::<Self>(),
            8 <= Self::spec_bits() <= 64,
            v.spec_wire() < pow2(Self::spec_bits()),
            Self::spec_from_wire(v.spec_wire()) == v,
    ;

    /// Every wire number inside the width stands for a value.
    proof fn lemma_wire_onto(wire: u64)
        requires
            wire < pow2(Self::spec_bits()),
        ensures
            Self::spec_from_wire(wire).spec_wire() == wire,
    ;

    /// Returns the number of bytes this number needs in its encoded form.
    fn required_space(self) -> (n: usize)
        ensures
            n == spec_required_space(self.spec_wire()),
            1 <= n <= 10,
    ;

    /// Decodes a value from the front of the slice. Returns the value and the
    /// number of bytes read, so that several consecutive values can be read
    /// from one slice; returns `None` where the slice holds no complete
    /// varint of the type's width.
    fn decode_var(src: &[u8]) -> (r: Option<(Self, usize)>)
        ensures
            match r {
                Some((value, used)) => {
                    &&& spec_decode(src@, Self::spec_bits(), true) matches Some((wire, n))
                    &&& value == Self::spec_from_wire(wire)
                    &&& used == n
                },
                None => spec_decode(src@, Self::spec_bits(), true) is None,
            },
    ;

    /// Decodes as `decode_var` does, but with `allow_non_minimal_encoding`
    /// unset returns `None` also where the varint is longer than its value
    /// needs. Use this where decoding and encoding again must give back the
    /// bytes that were read.
    fn decode_var_exact(src: &[u8], allow_non_minimal_encoding: bool) -> (r: Option<
        (Self, usize),
    >)
        ensures
            match r {
                Some((value, used)) => {
                    &&& spec_decode(src@, Self::spec_bits(), allow_non_minimal_encoding) matches Some(
                        (wire, n),
                    )
                    &&& value == Self::spec_from_wire(wire)
                    &&& used == n
                },
                None => spec_decode(src@, Self::spec_bits(), allow_non_minimal_encoding) is None,
            },
    ;

    /// Encodes the value into the front of the slice, which must be at least
    /// `required_space()` bytes long, and returns the number of bytes taken.
    fn encode_var(self, dst: &mut [u8]) -> (written: usize)
        requires
            old(dst).len() >= spec_required_space(self.spec_wire()),
        ensures
            written == spec_required_space(self.spec_wire()),
            final(dst)@.len() == old(dst)@.len(),
            final(dst)@.take(written as int) == spec_encode(self.spec_wire()),
            final(dst)@.skip(written as int) == old(dst)@.skip(written as int),
    ;

    /// Encodes the value and returns the encoded form as a `Vec`.
    fn encode_var_vec(self) -> (v: Vec<u8>)
        ensures
            v@ == spec_encode(self.spec_wire()),
    {
        let mut v: Vec<u8> = Vec::new();
        v.resize(self.required_space(), 0);
        let written: usize = self.encode_var(v.as_mut_slice());
        assert(v@.take(written as int) =~= v@);
        v
    }
}

/// The most bytes that the varint of a `VI` can take.
pub fn varint_max_size<VI: VarInt>() -> (n: usize)
    ensures
        n == spec_varint_max_size(VI::spec_bits()),
        2 <= n <= 10,
{
    proof {
        VI::lemma_wire_in_width(arbitrary());
    }
    (core::mem::size_of::<VI>() * 8 + 7) / 7
}

/// What decoding the front of `src` into a `VI` gives: the value that the
/// first token stands for, and the token's length.
pub open spec fn spec_decode_var<VI: VarInt>(src: Seq<u8>, allow_non_minimal: bool) -> Option<
    (VI, nat),
> {
    match spec_decode(src, VI::spec_bits(), allow_non_minimal) {
        Some((wire, used)) => Some((VI::spec_from_wire(wire), used)),
        None => None,
    }
}

impl VarInt for usize {
    open spec fn spec_bits() -> nat {
        usize::BITS as nat
    }

    open spec fn spec_wire(self) -> u64 {
        self as u64
    }

    open spec fn spec_from_wire(wire: u64) -> usize {
        wire as usize
    }

    proof fn lemma_wire_in_width(v: usize) {
        broadcast use vstd::layout::layout_of_primitives;

        lemma2_to64();
    }

    proof fn lemma_wire_onto(wire: u64) {
        lemma2_to64();
    }

    fn required_space(self) -> (n: usize) {
        required_encoded_space_unsigned(self as u64)
    }

    fn decode_var(src: &[u8]) -> (r: Option<(usize, usize)>) {
        Self::decode_var_exact(src, true)
    }

    fn decode_var_exact(src: &[u8], allow_non_minimal_encoding: bool) -> (r: Option<
        (usize, usize),
    >) {
        broadcast use vstd::layout::layout_of_primitives;

        proof {
            lemma2_to64();
        }
        match decode_exact::<usize>(src, allow_non_minimal_encoding) {
            Some((n, s)) => Some((n as usize, s)),
            None => None,
        }
    }

    fn encode_var(self, dst: &mut [u8]) -> (written: usize) {
        (self as u64).encode_var(dst)
    }
}

impl VarInt for u32 {
    open spec fn spec_bits() -> nat {
        32
    }

    open spec fn spec_wire(self) -> u64 {
        self as u64
    }

    open spec fn spec_from_wire(wire: u64) -> u32 {
        wire as u32
    }

    proof fn lemma_wire_in_width(v: u32) {
        broadcast use vstd::layout::layout_of_primitives;

        lemma2_to64();
    }

    proof fn lemma_wire_onto(wire: u64) {
        lemma2_to64();
    }

    fn required_space(self) -> (n: usize) {
        required_encoded_space_unsigned(self as u64)
    }

    fn decode_var(src: &[u8]) -> (r: Option<(u32, usize)>) {
        Self::decode_var_exact(src, true)
    }

    fn decode_var_exact(src: &[u8], allow_non_minimal_encoding: bool) -> (r: Option<
        (u32, usize),
    >) {
        broadcast use vstd::layout::layout_of_primitives;

        proof {
            lemma2_to64();
        }
        match decode_exact::<u32>(src, allow_non_minimal_encoding) {
            Some((n, s)) => Some((n as u32, s)),
            None => None,
        }
    }

    fn encode_var(self, dst: &mut [u8]) -> (written: usize) {
        (self as u64).encode_var(dst)
    }
}

impl VarInt for u16 {
    open spec fn spec_bits() -> nat {
        16
    }

    open spec fn spec_wire(self) -> u64 {
        self as u64
    }

    open spec fn spec_from_wire(wire: u64) -> u16 {
        wire as u16
    }

    proof fn lemma_wire_in_width(v: u16) {
        broadcast use vstd::layout::layout_of_primitives;

        lemma2_to64();
    }

    proof fn lemma_wire_onto(wire: u64) {
        lemma2_to64();
    }

    fn required_space(self) -> (n: usize) {
        required_encoded_space_unsigned(self as u64)
    }

    fn decode_var(src: &[u8]) -> (r: Option<(u16, usize)>) {
        Self::decode_var_exact(src, true)
    }

    fn decode_var_exact(src: &[u8], allow_non_minimal_encoding: bool) -> (r: Option<
        (u16, usize),
    >) {
        broadcast use vstd::layout::layout_of_primitives;

        proof {
            lemma2_to64();
        }
        match decode_exact::<u16>(src, allow_non_minimal_encoding) {
            Some((n, s)) => Some((n as u16, s)),
            None => None,
        }
    }

    fn encode_var(self, dst: &mut [u8]) -> (written: usize) {
        (self as u64).encode_var(dst)
    }
}

impl VarInt for u8 {
    open spec fn spec_bits() -> nat {
        8
    }

    open spec fn spec_wire(self) -> u64 {
        self as u64
    }

    open spec fn spec_from_wire(wire: u64) -> u8 {
        wire as u8
    }

    proof fn lemma_wire_in_width(v: u8) {
        broadcast use vstd::layout::layout_of_primitives;

        lemma2_to64();
    }

    proof fn lemma_wire_onto(wire: u64) {
        lemma2_to64();
    }

    fn required_space(self) -> (n: usize) {
        required_encoded_space_unsigned(self as u64)
    }

    fn decode_var(src: &[u8]) -> (r: Option<(u8, usize)>) {
        Self::decode_var_exact(src, true)
    }

    fn decode_var_exact(src: &[u8], allow_non_minimal_encoding: bool) -> (r: Option<
        (u8, usize),
    >) {
        broadcast use vstd::layout::layout_of_primitives;

        proof {
            lemma2_to64();
        }
        match decode_exact::<u8>(src, allow_non_minimal_encoding) {
            Some((n, s)) => Some((n as u8, s)),
            None => None,
        }
    }

    fn encode_var(self, dst: &mut [u8]) -> (written: usize) {
        (self as u64).encode_var(dst)
    }
}

impl VarInt for isize {
    open spec fn spec_bits() -> nat {
        usize::BITS as nat
    }

    open spec fn spec_wire(self) -> u64 {
        spec_zigzag_encode(self as i64)
    }

    open spec fn spec_from_wire(wire: u64) -> isize {
        spec_zigzag_decode(wire) as isize
    }

    proof fn lemma_wire_in_width(v: isize) {
        broadcast use vstd::layout::layout_of_primitives;

        lemma2_to64();
    }

    proof fn lemma_wire_onto(wire: u64) {
        lemma2_to64();
    }

    fn required_space(self) -> (n: usize) {
        required_encoded_space_signed(self as i64)
    }

    fn decode_var(src: &[u8]) -> (r: Option<(isize, usize)>) {
        Self::decode_var_exact(src, true)
    }

    fn decode_var_exact(src: &[u8], allow_non_minimal_encoding: bool) -> (r: Option<
        (isize, usize),
    >) {
        broadcast use vstd::layout::layout_of_primitives;

        proof {
            lemma2_to64();
        }
        match decode_exact::<isize>(src, allow_non_minimal_encoding) {
            Some((n, s)) => Some((zigzag_decode(n) as isize, s)),
            None => None,
        }
    }

    fn encode_var(self, dst: &mut [u8]) -> (written: usize) {
        (self as i64).encode_var(dst)
    }
}

impl VarInt for i32 {
    open spec fn spec_bits() -> nat {
        32
    }

    open spec fn spec_wire(self) -> u64 {
        spec_zigzag_encode(self as i64)
    }

    open spec fn spec_from_wire(wire: u64) -> i32 {
        spec_zigzag_decode(wire) as i32
    }

    proof fn lemma_wire_in_width(v: i32) {
        broadcast use vstd::layout::layout_of_primitives;

        lemma2_to64();
    }

    proof fn lemma_wire_onto(wire: u64) {
        lemma2_to64();
    }

    fn required_space(self) -> (n: usize) {
        required_encoded_space_signed(self as i64)
    }

    fn decode_var(src: &[u8]) -> (r: Option<(i32, usize)>) {
        Self::decode_var_exact(src, true)
    }

    fn decode_var_exact(src: &[u8], allow_non_minimal_encoding: bool) -> (r: Option<
        (i32, usize),
    >) {
        broadcast use vstd::layout::layout_of_primitives;

        proof {
            lemma2_to64();
        }
        match decode_exact::<i32>(src, allow_non_minimal_encoding) {
            Some((n, s)) => Some((zigzag_decode(n) as i32, s)),
            None => None,
        }
    }

    fn encode_var(self, dst: &mut [u8]) -> (written: usize) {
        (self as i64).encode_var(dst)
    }
}

impl VarInt for i16 {
    open spec fn spec_bits() -> nat {
        16
    }

    open spec fn spec_wire(self) -> u64 {
        spec_zigzag_encode(self as i64)
    }

    open spec fn spec_from_wire(wire: u64) -> i16 {
        spec_zigzag_decode(wire) as i16
    }

    proof fn lemma_wire_in_width(v: i16) {
        broadcast use vstd::layout::layout_of_primitives;

        lemma2_to64();
    }

    proof fn lemma_wire_onto(wire: u64) {
        lemma2_to64();
    }

    fn required_space(self) -> (n: usize) {
        required_encoded_space_signed(self as i64)
    }

    fn decode_var(src: &[u8]) -> (r: Option<(i16, usize)>) {
        Self::decode_var_exact(src, true)
    }

    fn decode_var_exact(src: &[u8], allow_non_minimal_encoding: bool) -> (r: Option<
        (i16, usize),
    >) {
        broadcast use vstd::layout::layout_of_primitives;

        proof {
            lemma2_to64();
        }
        match decode_exact::<i16>(src, allow_non_minimal_encoding) {
            Some((n, s)) => Some((zigzag_decode(n) as i16, s)),
            None => None,
        }
    }

    fn encode_var(self, dst: &mut [u8]) -> (written: usize) {
        (self as i64).encode_var(dst)
    }
}

impl VarInt for i8 {
    open spec fn spec_bits() -> nat {
        8
    }

    open spec fn spec_wire(self) -> u64 {
        spec_zigzag_encode(self as i64)
    }

    open spec fn spec_from_wire(wire: u64) -> i8 {
        spec_zigzag_decode(wire) as i8
    }

    proof fn lemma_wire_in_width(v: i8) {
        broadcast use vstd::layout::layout_of_primitives;

        lemma2_to64();
    }

    proof fn lemma_wire_onto(wire: u64) {
        lemma2_to64();
    }

    fn required_space(self) -> (n: usize) {
        required_encoded_space_signed(self as i64)
    }

    fn decode_var(src: &[u8]) -> (r: Option<(i8, usize)>) {
        Self::decode_var_exact(src, true)
    }

    fn decode_var_exact(src: &[u8], allow_non_minimal_encoding: bool) -> (r: Option<
        (i8, usize),
    >) {
        broadcast use vstd::layout::layout_of_primitives;

        proof {
            lemma2_to64();
        }
        match decode_exact::<i8>(src, allow_non_minimal_encoding) {
            Some((n, s)) => Some((zigzag_decode(n) as i8, s)),
            None => None,
        }
    }

    fn encode_var(self, dst: &mut [u8]) -> (written: usize) {
        (self as i64).encode_var(dst)
    }
}

impl VarInt for u64 {
    open spec fn spec_bits() -> nat {
        64
    }

    open spec fn spec_wire(self) -> u64 {
        self
    }

    open spec fn spec_from_wire(wire: u64) -> u64 {
        wire
    }

    proof fn lemma_wire_in_width(v: u64) {
        broadcast use vstd::layout::layout_of_primitives;

        lemma2_to64();
    }

    proof fn lemma_wire_onto(wire: u64) {
    }

    fn required_space(self) -> (n: usize) {
        required_encoded_space_unsigned(self)
    }

    fn decode_var(src: &[u8]) -> (r: Option<(u64, usize)>) {
        Self::decode_var_exact(src, true)
    }

    fn decode_var_exact(src: &[u8], allow_non_minimal_encoding: bool) -> (r: Option<
        (u64, usize),
    >) {
        broadcast use vstd::layout::layout_of_primitives;

        decode_exact::<u64>(src, allow_non_minimal_encoding)
    }

    fn encode_var(self, dst: &mut [u8]) -> (written: usize) {
        assert(self.spec_wire() == self);
        encode_unsigned(self, dst)
    }
}

impl VarInt for i64 {
    open spec fn spec_bits() -> nat {
        64
    }

    open spec fn spec_wire(self) -> u64 {
        spec_zigzag_encode(self)
    }

    open spec fn spec_from_wire(wire: u64) -> i64 {
        spec_zigzag_decode(wire)
    }

    proof fn lemma_wire_in_width(v: i64) {
        broadcast use vstd::layout::layout_of_primitives;

        lemma2_to64();
    }

    proof fn lemma_wire_onto(wire: u64) {
    }

    fn required_space(self) -> (n: usize) {
        required_encoded_space_signed(self)
    }

    fn decode_var(src: &[u8]) -> (r: Option<(i64, usize)>) {
        if let Some((result, size)) = u64::decode_var(src) {
            Some((zigzag_decode(result), size))
        } else {
            None
        }
    }

    fn decode_var_exact(src: &[u8], allow_non_minimal_encoding: bool) -> (r: Option<
        (i64, usize),
    >) {
        if let Some((result, size)) = u64::decode_var_exact(src, allow_non_minimal_encoding) {
            Some((zigzag_decode(result), size))
        } else {
            None
        }
    }

    fn encode_var(self, dst: &mut [u8]) -> (written: usize) {
        assert(self.spec_wire() == spec_zigzag_encode(self));
        encode_unsigned(zigzag_encode(self), dst)
    }
}

} // verus!
