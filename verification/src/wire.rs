//! The wire format as mathematics: what a varint is, independent of any code
//! that reads or writes one.
//!
//! A varint is a sequence of bytes. Each byte carries seven payload bits, the
//! least significant group first; the most significant bit of a byte says
//! whether another byte follows. Signed values are first mapped to unsigned
//! ones by the zigzag transform.

use vstd::arithmetic::power2::pow2;
use vstd::prelude::*;

verus! {

/// The zigzag image of a signed value: `2v` for `v >= 0`, `-2v - 1` otherwise.
pub open spec fn spec_zigzag_encode(v: i64) -> u64 {
    if v >= 0 {
        (2 * v) as u64
    } else {
        (-2 * v - 1) as u64
    }
}

/// The signed value whose zigzag image is `u`.
pub open spec fn spec_zigzag_decode(u: u64) -> i64 {
    if u % 2 == 0 {
        (u / 2) as i64
    } else {
        (-(u / 2) - 1) as i64
    }
}

/// Number of bytes that the minimal encoding of `v` takes: the least `n >= 1`
/// with `v < 128^n` (see [`lemma_required_space_is_least`]).
pub open spec fn spec_required_space(v: u64) -> nat
    decreases v,
{
    if v < 128 {
        1
    } else {
        1 + spec_required_space(v / 128)
    }
}

/// The minimal encoding of `v`: its base-128 digits, least significant first,
/// each but the last with the continuation flag added.
pub open spec fn spec_encode(v: u64) -> Seq<u8>
    decreases v,
{
    if v < 128 {
        seq![v as u8]
    } else {
        seq![(128 + v % 128) as u8] + spec_encode(v / 128)
    }
}

/// Length of the first complete token of `src`: one more than the index of
/// the first byte whose continuation flag is clear, if there is such a byte.
pub open spec fn spec_token_len(src: Seq<u8>) -> Option<nat>
    decreases src.len(),
{
    if src.len() == 0 {
        None
    } else if src[0] < 128 {
        Some(1)
    } else {
        match spec_token_len(src.drop_first()) {
            Some(n) => Some(n + 1),
            None => None,
        }
    }
}

/// The number that the payload groups of `s` spell: the sum over `k` of
/// `(s[k] mod 128) * 128^k`.
pub open spec fn spec_group_sum(s: Seq<u8>) -> nat
    decreases s.len(),
{
    if s.len() == 0 {
        0
    } else {
        (s[0] % 128) as nat + 128 * spec_group_sum(s.drop_first())
    }
}

/// The most bytes that a varint of an integer of `bits` bits may take: one
/// per started group of seven bits, 10 for 64 bits.
pub open spec fn spec_varint_max_size(bits: nat) -> nat {
    (bits + 7) / 7
}

/// What decoding the front of `src` into an unsigned integer of `bits` bits
/// gives: the value of the first token and the token's length.
///
/// There is a result exactly when `src` holds a complete token of at most
/// `spec_varint_max_size(bits)` bytes, the value fits the width, and, unless
/// `allow_non_minimal` is set, the token is the shortest one for its value
/// (its last byte is not a superfluous zero).
pub open spec fn spec_decode(src: Seq<u8>, bits: nat, allow_non_minimal: bool) -> Option<
    (u64, nat),
> {
    match spec_token_len(src) {
        None => None,
        Some(n) => {
            let value = spec_group_sum(src.take(n as int));
            if n <= spec_varint_max_size(bits) && value < pow2(bits) && (allow_non_minimal || n
                == 1 || src[n - 1] != 0) {
                Some((value as u64, n))
            } else {
                None
            }
        },
    }
}

} // verus!
