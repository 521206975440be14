//! What holds of the codec as a whole: laws that relate encoding, decoding,
//! writing and reading, each proved for every value of every integer type.

use crate::fixed::{
    lemma_le_bytes_len, lemma_le_bytes_of_value, lemma_le_value_bound, lemma_le_value_of_bytes,
    spec_le_bytes, spec_le_value, FixedInt,
};
use crate::reader::{spec_read_fixedint, spec_read_varint, spec_window, ReadError};
use crate::varint::{spec_decode_var, VarInt};
use crate::wire::{
    spec_decode, spec_encode, spec_required_space, spec_token_len, spec_zigzag_decode,
    spec_zigzag_encode,
};
use crate::wire_lemmas::{
    lemma_canonical_token, lemma_decode_encode, lemma_encode_shape, lemma_pow2_monotone,
    lemma_required_space_bound, lemma_token_len_is_first_terminator, lemma_token_len_skip,
    lemma_token_of_encoding,
};
use vstd::arithmetic::power2::{lemma2_to64, pow2};
use vstd::prelude::*;

verus! {

/// Zigzag decoding undoes zigzag encoding, for every signed 64-bit value, and
/// zero is mapped to zero.
pub proof fn lemma_zigzag_round_trip(v: i64)
    ensures
        spec_zigzag_decode(spec_zigzag_encode(v)) == v,
        spec_zigzag_encode(0) == 0,
{
}

/// Zigzag encoding undoes zigzag decoding: together with
/// [`lemma_zigzag_round_trip`] this makes the transform a bijection between
/// the signed and the unsigned 64-bit values.
pub proof fn lemma_zigzag_onto(u: u64)
    ensures
        spec_zigzag_encode(spec_zigzag_decode(u)) == u,
{
}

/// Round trip: decoding the encoding of a value gives back the value and the
/// number of bytes of the encoding, whatever bytes follow the encoding.
pub proof fn lemma_varint_round_trip<VI: VarInt>(v: VI, rest: Seq<u8>, allow_non_minimal: bool)
    ensures
        spec_decode_var::<VI>(spec_encode(v.spec_wire()) + rest, allow_non_minimal) == Some(
            (v, spec_required_space(v.spec_wire())),
        ),
{
    VI::lemma_wire_in_width(v);
    lemma_decode_encode(v.spec_wire(), VI::spec_bits(), rest, allow_non_minimal);
}

/// No encoding ends in a zero byte that could have been left out, and each
/// is exactly as long as `spec_required_space` says.
pub proof fn lemma_encode_is_minimal(v: u64)
    ensures
        spec_encode(v).len() == spec_required_space(v),
        spec_encode(v).len() > 1 ==> spec_encode(v).last() != 0,
{
    lemma_encode_shape(v);
}

/// A value that does not fit the width is never decoded from its encoding:
/// nothing is returned, rather than a wrapped or cut value.
pub proof fn lemma_overflow_is_rejected(v: u64, bits: nat, rest: Seq<u8>, allow_non_minimal: bool)
    requires
        v >= pow2(bits),
    ensures
        spec_decode(spec_encode(v) + rest, bits, allow_non_minimal) is None,
{
    lemma_encode_shape(v);
    lemma_token_of_encoding(v, rest);
}

/// Bytes that all carry the continuation flag hold no varint, however many
/// they are.
pub proof fn lemma_unterminated_is_rejected(src: Seq<u8>, bits: nat, allow_non_minimal: bool)
    requires
        forall|k: int| 0 <= k < src.len() ==> src[k] >= 128,
    ensures
        spec_decode(src, bits, allow_non_minimal) is None,
{
    lemma_token_len_is_first_terminator(src);
}

/// With non-minimal encodings refused, only encodings are decoded: whatever
/// is accepted is, byte for byte, the encoding of the value returned.
pub proof fn lemma_exact_decode_is_encoding(src: Seq<u8>, bits: nat)
    requires
        bits <= 64,
    ensures
        spec_decode(src, bits, false) matches Some((v, n)) ==> n <= src.len() && src.take(
            n as int,
        ) == spec_encode(v),
{
    lemma_token_len_is_first_terminator(src);
    if let Some((v, n)) = spec_decode(src, bits, false) {
        let t = src.take(n as int);
        lemma_pow2_monotone(bits, 64);
        lemma2_to64();
        lemma_canonical_token(t);
    }
}

/// Reading after writing: from a stream that starts with the encoding of a
/// value, a read gives the value and takes exactly the encoding.
pub proof fn lemma_read_after_write<VI: VarInt>(v: VI, rest: Seq<u8>)
    ensures
        spec_read_varint::<VI>(spec_encode(v.spec_wire()) + rest) == (
            Ok::<VI, ReadError>(v),
            spec_required_space(v.spec_wire()),
        ),
{
    let e = spec_encode(v.spec_wire());
    let stream = e + rest;
    let n: nat = spec_required_space(v.spec_wire());
    lemma_required_space_bound(v.spec_wire());
    lemma_encode_shape(v.spec_wire());
    let head = spec_window(stream);
    assert forall|k: int| 0 <= k < n - 1 implies head[k] >= 128 by {
        assert(head[k] == e[k]);
    }
    lemma_token_len_skip(head, (n - 1) as nat);
    assert(head.skip(n - 1)[0] == e.last());
    assert(stream.take(n as int) =~= e);
    assert(e + Seq::<u8>::empty() =~= e);
    lemma_varint_round_trip::<VI>(v, Seq::empty(), true);
}

/// Reading past the end: from a source that holds nothing, a read reports
/// the end of the source and no value.
pub proof fn lemma_read_at_end<VI: VarInt>()
    ensures
        spec_read_varint::<VI>(Seq::empty()) == (Err::<VI, ReadError>(ReadError::UnexpectedEof), 0nat),
{
    assert(spec_token_len(Seq::<u8>::empty()) is None);
}

/// The bytes that writing the values of `vs` one after the other gives.
pub open spec fn spec_varint_stream<VI: VarInt>(vs: Seq<VI>) -> Seq<u8>
    decreases vs.len(),
{
    if vs.len() == 0 {
        Seq::empty()
    } else {
        spec_encode(vs[0].spec_wire()) + spec_varint_stream(vs.drop_first())
    }
}

/// Writing values and reading them back: from the bytes that writing `vs`
/// gave, less the first `k` values, a read gives the value at `k` and leaves
/// the bytes of the values behind it; behind the last value, a read reports
/// the end of the source. So `vs.len()` reads give the values in their order,
/// and one more gives no value.
pub proof fn lemma_stream_round_trip<VI: VarInt>(vs: Seq<VI>, k: nat)
    requires
        k <= vs.len(),
    ensures
        k < vs.len() ==> {
            let stream = spec_varint_stream(vs.skip(k as int));
            &&& spec_read_varint::<VI>(stream).0 == Ok::<VI, ReadError>(vs[k as int])
            &&& stream.skip(spec_read_varint::<VI>(stream).1 as int) == spec_varint_stream(
                vs.skip(k as int + 1),
            )
        },
        k == vs.len() ==> spec_read_varint::<VI>(spec_varint_stream(vs.skip(k as int))).0 == Err::<
            VI,
            ReadError,
        >(ReadError::UnexpectedEof),
{
    let tail = vs.skip(k as int);
    if k < vs.len() {
        let rest = spec_varint_stream(tail.drop_first());
        let e = spec_encode(vs[k as int].spec_wire());
        assert(tail[0] == vs[k as int]);
        assert(tail.drop_first() =~= vs.skip(k as int + 1));
        lemma_read_after_write::<VI>(vs[k as int], rest);
        lemma_encode_shape(vs[k as int].spec_wire());
        assert((e + rest).skip(e.len() as int) =~= rest);
    } else {
        lemma_read_at_end::<VI>();
    }
}

/// Decoding what was encoded gives back the value, for every value of every
/// width and signedness.
pub proof fn lemma_fixed_round_trip<FI: FixedInt>(v: FI)
    ensures
        spec_le_bytes(v.spec_pattern(), FI::spec_encoded_size()).len() == FI::spec_encoded_size(),
        FI::spec_from_pattern(
            spec_le_value(spec_le_bytes(v.spec_pattern(), FI::spec_encoded_size())),
        ) == v,
{
    FI::lemma_pattern_in_width(v);
    lemma_le_bytes_len(v.spec_pattern(), FI::spec_encoded_size());
    lemma_le_value_of_bytes(v.spec_pattern(), FI::spec_encoded_size());
}

/// What `switch_endianness` returns for `v`.
pub open spec fn spec_switch_endianness<FI: FixedInt>(v: FI) -> FI {
    FI::spec_from_pattern(
        spec_le_value(spec_le_bytes(v.spec_pattern(), FI::spec_encoded_size()).reverse()),
    )
}

/// Switching the byte order reverses the encoded bytes, and switching twice
/// gives back the value.
pub proof fn lemma_switch_endianness<FI: FixedInt>(v: FI)
    ensures
        spec_le_bytes(spec_switch_endianness(v).spec_pattern(), FI::spec_encoded_size())
            == spec_le_bytes(v.spec_pattern(), FI::spec_encoded_size()).reverse(),
        spec_switch_endianness(spec_switch_endianness(v)) == v,
{
    let n: nat = FI::spec_encoded_size();
    let bytes = spec_le_bytes(v.spec_pattern(), n);
    let w: FI = spec_switch_endianness(v);
    FI::lemma_pattern_in_width(v);
    lemma_le_bytes_len(v.spec_pattern(), n);
    lemma_le_value_bound(bytes.reverse());
    FI::lemma_pattern_onto(spec_le_value(bytes.reverse()));
    lemma_le_bytes_of_value(bytes.reverse());
    assert(bytes.reverse().reverse() =~= bytes);
    lemma_le_value_of_bytes(v.spec_pattern(), n);
}

/// Reading after writing, fixed width: from a stream that starts with the
/// encoded form of a value, a read gives the value and takes exactly the
/// encoded form.
pub proof fn lemma_read_fixed_after_write<FI: FixedInt>(v: FI, rest: Seq<u8>)
    ensures
        spec_read_fixedint::<FI>(spec_le_bytes(v.spec_pattern(), FI::spec_encoded_size()) + rest)
            == (Ok::<FI, ReadError>(v), FI::spec_encoded_size()),
{
    let n: nat = FI::spec_encoded_size();
    let e = spec_le_bytes(v.spec_pattern(), n);
    FI::lemma_pattern_in_width(v);
    lemma_le_bytes_len(v.spec_pattern(), n);
    lemma_le_value_of_bytes(v.spec_pattern(), n);
    assert((e + rest).take(n as int) =~= e);
}

} // verus!
