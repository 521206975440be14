//! Facts about the wire format that the proofs of the codec and of its laws
//! rest on.

use crate::wire::{
    spec_decode, spec_encode, spec_group_sum, spec_required_space, spec_token_len,
    spec_varint_max_size,
};
use vstd::bits::lemma_u64_shl_is_mul;
use vstd::std_specs::bits::u64_leading_zeros;
use vstd::arithmetic::power2::{
    lemma2_to64, lemma_pow2_adds, lemma_pow2_pos, lemma_pow2_strictly_increases, pow2,
};
use vstd::prelude::*;

verus! {

/// Every value needs between 1 and 10 bytes.
pub proof fn lemma_required_space_bound(v: u64)
    ensures
        1 <= spec_required_space(v) <= 10,
{
    reveal_with_fuel(spec_required_space, 11);
}

/// Where the first token ends: behind the first byte without a continuation
/// flag, and nowhere else.
pub proof fn lemma_token_len_is_first_terminator(s: Seq<u8>)
    ensures
        match spec_token_len(s) {
            Some(n) => {
                &&& 1 <= n <= s.len()
                &&& s[n - 1] < 128
                &&& forall|k: int| 0 <= k < n - 1 ==> s[k] >= 128
            },
            None => forall|k: int| 0 <= k < s.len() ==> s[k] >= 128,
        },
    decreases s.len(),
{
    if s.len() > 0 && s[0] >= 128 {
        let t = s.drop_first();
        lemma_token_len_is_first_terminator(t);
        match spec_token_len(t) {
            Some(m) => {
                assert forall|k: int| 0 <= k < m implies s[k] >= 128 by {
                    if k > 0 {
                        assert(s[k] == t[k - 1]);
                    }
                }
            },
            None => {
                assert forall|k: int| 0 <= k < s.len() implies s[k] >= 128 by {
                    if k > 0 {
                        assert(s[k] == t[k - 1]);
                    }
                }
            },
        }
    }
}

/// Leading bytes with a continuation flag only move the end of the token.
pub proof fn lemma_token_len_skip(s: Seq<u8>, i: nat)
    requires
        i <= s.len(),
        forall|k: int| 0 <= k < i ==> s[k] >= 128,
    ensures
        spec_token_len(s) == match spec_token_len(s.skip(i as int)) {
            Some(m) => Some(m + i),
            None => None,
        },
    decreases i,
{
    if i == 0 {
        assert(s.skip(0) =~= s);
    } else {
        let t = s.drop_first();
        assert forall|k: int| 0 <= k < i - 1 implies t[k] >= 128 by {
            assert(t[k] == s[k + 1]);
        }
        lemma_token_len_skip(t, (i - 1) as nat);
        assert(t.skip(i - 1) =~= s.skip(i as int));
    }
}

/// The payload groups of `s` followed by one more byte spell the number of
/// `s` plus the new group, shifted behind the groups of `s`.
pub proof fn lemma_group_sum_push(s: Seq<u8>, b: u8)
    ensures
        spec_group_sum(s.push(b)) == spec_group_sum(s) + (b % 128) * pow2(7 * s.len()),
    decreases s.len(),
{
    lemma2_to64();
    let g: int = (b % 128) as int;
    if s.len() == 0 {
        assert(s.push(b).drop_first() =~= s);
        assert(spec_group_sum(s.push(b)) == (b % 128) as nat + 128 * spec_group_sum(s));
        assert(7 * s.len() == 0);
        assert(g * 1 == g);
    } else {
        let t = s.drop_first();
        lemma_group_sum_push(t, b);
        assert(s.push(b).drop_first() =~= t.push(b));
        assert(s.push(b)[0] == s[0]);
        lemma_pow2_adds(7, 7 * t.len());
        assert(7 + 7 * t.len() == 7 * s.len());
        let q: int = pow2(7 * t.len()) as int;
        assert(pow2(7 * s.len()) == 128 * q);
        assert(128 * (g * q) == g * (128 * q)) by (nonlinear_arith);
        assert(spec_group_sum(t.push(b)) == spec_group_sum(t) + g * q);
        assert(spec_group_sum(s.push(b)) == (s[0] % 128) as nat + 128 * spec_group_sum(
            t.push(b),
        ));
    }
}

/// `k` payload groups spell a number below `128^k`.
pub proof fn lemma_group_sum_bound(s: Seq<u8>)
    ensures
        spec_group_sum(s) < pow2(7 * s.len()),
    decreases s.len(),
{
    lemma2_to64();
    if s.len() > 0 {
        let t = s.drop_first();
        lemma_group_sum_bound(t);
        lemma_pow2_adds(7, 7 * t.len());
        assert(7 + 7 * t.len() == 7 * s.len());
    }
}

/// Taking one more byte of `s` adds that byte's group at its place.
pub proof fn lemma_group_sum_take_step(s: Seq<u8>, i: nat)
    requires
        i < s.len(),
    ensures
        spec_group_sum(s.take(i as int + 1)) == spec_group_sum(s.take(i as int)) + (s[i as int] % 128)
            * pow2(7 * i),
{
    assert(s.take(i as int + 1) =~= s.take(i as int).push(s[i as int]));
    lemma_group_sum_push(s.take(i as int), s[i as int]);
}

/// A longer prefix of `s` spells at least what any one of its groups
/// contributes.
pub proof fn lemma_group_sum_lower(s: Seq<u8>, i: nat, n: nat)
    requires
        i < n <= s.len(),
    ensures
        spec_group_sum(s.take(n as int)) >= (s[i as int] % 128) * pow2(7 * i),
    decreases n,
{
    lemma_group_sum_take_step(s, (n - 1) as nat);
    if n - 1 > i {
        lemma_group_sum_lower(s, i, (n - 1) as nat);
        assert((s[n - 1] % 128) * pow2((7 * (n - 1)) as nat) >= 0) by (nonlinear_arith);
    }
}

/// Powers of two grow with the exponent.
pub proof fn lemma_pow2_monotone(a: nat, b: nat)
    requires
        a <= b,
    ensures
        pow2(a) <= pow2(b),
{
    if a < b {
        lemma_pow2_strictly_increases(a, b);
    }
}

/// What the count of leading zeros says of a payload group: with
/// `len = 64 - leading_zeros(p)`, the group is below `2^len`, and, unless it
/// is zero, at least `2^(len - 1)`.
pub proof fn lemma_leading_zeros_of_group(p: u64)
    requires
        p < 128,
    ensures
        57 <= u64_leading_zeros(p) <= 64,
        p == 0 <==> u64_leading_zeros(p) == 64,
        p < pow2((64 - u64_leading_zeros(p)) as nat),
        p > 0 ==> pow2((63 - u64_leading_zeros(p)) as nat) <= p,
{
    reveal_with_fuel(u64_leading_zeros, 9);
    lemma2_to64();
}

/// The headroom test on one payload group: the count of leading zeros of
/// the group, less the bits that the width lacks to 64, is below the shift
/// exactly when the group, moved to its place, leaves the width.
pub proof fn lemma_group_fits(p: u64, i: nat, bits: nat)
    requires
        p < 128,
        7 * i <= 63,
        8 <= bits <= 64,
    ensures
        (u64_leading_zeros(p) - (64 - bits) < 7 * i) <==> !(7 * i <= bits && p * pow2(7 * i)
            < pow2(bits)),
{
    lemma_leading_zeros_of_group(p);
    let len: nat = (64 - u64_leading_zeros(p)) as nat;
    let place: int = pow2(7 * i) as int;
    lemma_pow2_pos(7 * i);
    if len + 7 * i <= bits {
        lemma_pow2_adds(len, 7 * i);
        lemma_pow2_monotone(len + 7 * i, bits);
        let top: int = pow2(len) as int;
        assert(p * place < top * place) by (nonlinear_arith)
            requires
                p < top,
                place > 0,
        ;
    } else if p > 0 {
        let low: int = pow2((len - 1) as nat) as int;
        lemma_pow2_adds((len - 1) as nat, 7 * i);
        lemma_pow2_monotone(bits, (len - 1 + 7 * i) as nat);
        assert(low * place <= p * place) by (nonlinear_arith)
            requires
                low <= p,
                place > 0,
        ;
    }
}

/// Adding a payload group that fits the width: the bitwise union with what
/// was gathered before is their sum, and the sum still fits the width.
pub proof fn lemma_accumulate(result: u64, p: u64, i: nat, bits: nat)
    requires
        p < 128,
        7 * i <= 63,
        7 * i <= bits <= 64,
        result < pow2(7 * i),
        p * pow2(7 * i) < pow2(bits),
    ensures
        (result | (p << ((7 * i) as u64))) == result + p * pow2(7 * i),
        result + p * pow2(7 * i) < pow2(bits),
{
    lemma2_to64();
    let s: u64 = (7 * i) as u64;
    let place: int = pow2(7 * i) as int;
    lemma_pow2_pos(7 * i);
    lemma_pow2_monotone(bits, 64);
    lemma_pow2_strictly_increases(7 * i, 64);
    assert(1 * place == place);
    lemma_u64_shl_is_mul(p, s);
    lemma_u64_shl_is_mul(1, s);
    let shifted: u64 = p << s;
    let unit: u64 = 1u64 << s;
    assert(result | shifted == result + shifted) by (bit_vector)
        requires
            shifted == p << s,
            unit == 1u64 << s,
            result < unit,
            s < 64,
    ;
    lemma_pow2_adds((bits - 7 * i) as nat, 7 * i);
    let rest: int = pow2((bits - 7 * i) as nat) as int;
    assert(p < rest) by (nonlinear_arith)
        requires
            p * place < rest * place,
            place > 0,
    ;
    assert((p + 1) * place <= rest * place) by (nonlinear_arith)
        requires
            p + 1 <= rest,
            place > 0,
    ;
    assert((p + 1) * place == p * place + place) by (nonlinear_arith);
}

/// The byte count is the least `n >= 1` with `v < 128^n`: one byte for zero,
/// else the number of significant bits over seven, rounded up.
pub proof fn lemma_required_space_is_least(v: u64, n: nat)
    requires
        n >= 1,
    ensures
        spec_required_space(v) <= n <==> v < pow2(7 * n),
    decreases n,
{
    lemma2_to64();
    lemma_required_space_bound(v);
    if n == 1 {
        assert(7 * n == 7);
    } else {
        lemma_pow2_adds(7, (7 * (n - 1)) as nat);
        assert(7 + 7 * (n - 1) == 7 * n);
        lemma_pow2_pos((7 * (n - 1)) as nat);
        if v >= 128 {
            lemma_required_space_is_least(v / 128, (n - 1) as nat);
        }
    }
}

/// The shape of an encoding: as long as `spec_required_space` says, every
/// byte but the last with the continuation flag, the last without it, the
/// groups spelling the value, and no superfluous zero byte at the end.
pub proof fn lemma_encode_shape(v: u64)
    ensures
        spec_encode(v).len() == spec_required_space(v),
        forall|k: int| 0 <= k < spec_encode(v).len() - 1 ==> spec_encode(v)[k] >= 128,
        spec_encode(v).last() < 128,
        spec_group_sum(spec_encode(v)) == v,
        spec_encode(v).len() == 1 || spec_encode(v).last() != 0,
    decreases v,
{
    let e = spec_encode(v);
    if v < 128 {
        assert(e.drop_first() =~= Seq::<u8>::empty());
        assert(spec_group_sum(e) == (e[0] % 128) as nat + 128 * spec_group_sum(e.drop_first()));
    } else {
        let rest = spec_encode(v / 128);
        lemma_encode_shape(v / 128);
        assert(e.drop_first() =~= rest);
        assert(e.last() == rest.last());
        assert forall|k: int| 0 <= k < e.len() - 1 implies e[k] >= 128 by {
            if k > 0 {
                assert(e[k] == rest[k - 1]);
            }
        }
        assert(spec_group_sum(e) == (e[0] % 128) as nat + 128 * spec_group_sum(e.drop_first()));
    }
}

/// An encoding followed by any bytes starts with one token: the encoding.
pub proof fn lemma_token_of_encoding(v: u64, rest: Seq<u8>)
    ensures
        spec_token_len(spec_encode(v) + rest) == Some(spec_required_space(v)),
        (spec_encode(v) + rest).take(spec_required_space(v) as int) == spec_encode(v),
{
    let e = spec_encode(v);
    let s = e + rest;
    let last: nat = (e.len() - 1) as nat;
    lemma_encode_shape(v);
    assert forall|k: int| 0 <= k < last implies s[k] >= 128 by {
        assert(s[k] == e[k]);
    }
    lemma_token_len_skip(s, last);
    assert(s.skip(last as int)[0] == e.last());
    assert(s.take(e.len() as int) =~= e);
}

/// Decoding an encoding gives back the value and the encoding's length,
/// whatever bytes follow it and in either mode, for every value that fits the
/// width.
pub proof fn lemma_decode_encode(v: u64, bits: nat, rest: Seq<u8>, allow_non_minimal: bool)
    requires
        v < pow2(bits),
    ensures
        spec_decode(spec_encode(v) + rest, bits, allow_non_minimal) == Some(
            (v, spec_required_space(v)),
        ),
{
    let e = spec_encode(v);
    let n: nat = spec_varint_max_size(bits);
    lemma_encode_shape(v);
    lemma_token_of_encoding(v, rest);
    lemma_pow2_monotone(bits, 7 * n);
    lemma_required_space_is_least(v, n);
    assert((e + rest)[e.len() - 1] == e.last());
}

/// A token that ends at its first byte without continuation flag, and not in
/// a superfluous zero, is the encoding of the number that its groups spell.
pub proof fn lemma_canonical_token(t: Seq<u8>)
    requires
        t.len() >= 1,
        forall|k: int| 0 <= k < t.len() - 1 ==> t[k] >= 128,
        t.last() < 128,
        t.len() == 1 || t.last() != 0,
        spec_group_sum(t) <= u64::MAX,
    ensures
        spec_encode(spec_group_sum(t) as u64) == t,
    decreases t.len(),
{
    let rest = t.drop_first();
    assert(spec_group_sum(t) == (t[0] % 128) as nat + 128 * spec_group_sum(rest));
    if t.len() == 1 {
        assert(rest =~= Seq::<u8>::empty());
        assert(spec_encode(spec_group_sum(t) as u64) =~= t);
    } else {
        assert(rest.last() == t.last());
        assert forall|k: int| 0 <= k < rest.len() - 1 implies rest[k] >= 128 by {
            assert(rest[k] == t[k + 1]);
        }
        lemma_canonical_token(rest);
        lemma_group_sum_lower(rest, (rest.len() - 1) as nat, rest.len());
        assert(rest.take(rest.len() as int) =~= rest);
        lemma_pow2_pos((7 * (rest.len() - 1)) as nat);
        let top: int = (rest.last() % 128) as int;
        let place: int = pow2((7 * (rest.len() - 1)) as nat) as int;
        assert(top * place >= 1) by (nonlinear_arith)
            requires
                top >= 1,
                place >= 1,
        ;
        assert(spec_encode(spec_group_sum(t) as u64) =~= t);
    }
}

} // verus!
