//! The quantizer/packer and its inverse.
//!
//! Each sample becomes a token: a sign byte (`'+'` or `'-'`) followed by
//! `quality` decimal digits of the amplitude's fraction (at most the seven
//! the fixed-point model carries). Tokens are concatenated into one packed
//! batch; the sign bytes double as delimiters. The decoder splits a packed
//! batch back on the sign bytes; a token with no digits, or with a byte that
//! is not a digit, decodes to 0.

use vstd::prelude::*;

use crate::sample::{abs, in_unit_range, pow10, SCALE};

verus! {

/// The byte `'+'`.
pub const PLUS: u8 = 43;

/// The byte `'-'`.
pub const MINUS: u8 = 45;

/// Whether a byte is a sign byte, i.e. a token delimiter.
pub open spec fn is_sign(b: u8) -> bool {
    b == PLUS || b == MINUS
}

/// Whether a byte is a decimal digit.
pub open spec fn is_digit(b: u8) -> bool {
    48 <= b <= 57
}

/// How many fraction digits a quality setting keeps: `q`, capped at the
/// seven digits the fixed-point model holds.
pub open spec fn digit_count(q: int) -> int {
    if q <= 7 {
        q
    } else {
        7
    }
}

/// A magnitude capped below 1.0: full scale is written as 0.9999999, so
/// that every token carries only fraction digits.
pub open spec fn clamp_mag(m: int) -> int {
    if m >= SCALE as int {
        SCALE - 1
    } else {
        m
    }
}

/// The `i`-th fraction digit (most significant first) of a magnitude below
/// `SCALE`.
pub open spec fn frac_digit(m: int, i: int) -> int {
    (m / pow10((6 - i) as nat)) % 10
}

/// The token of one sample at a quality setting: a sign byte, then the
/// leading fraction digits of the clamped magnitude.
pub open spec fn token_spec(s: i64, q: int) -> Seq<u8> {
    let sign: u8 = if s >= 0 {
        PLUS
    } else {
        MINUS
    };
    let m = clamp_mag(abs(s as int));
    seq![sign] + Seq::new(digit_count(q) as nat, |i: int| (48 + frac_digit(m, i)) as u8)
}

/// The sample value a token of quality `q` stands for: the original with
/// its magnitude clamped below 1.0 and its fraction truncated to the kept
/// digits.
pub open spec fn quantize(s: i64, q: int) -> int {
    let m = clamp_mag(abs(s as int));
    let p = pow10((7 - digit_count(q)) as nat);
    let v = (m / p) * p;
    if s >= 0 {
        v
    } else {
        -v
    }
}

/// A whole batch packed into bytes: the tokens, concatenated in order.
pub open spec fn pack_spec(batch: Seq<i64>, q: int) -> Seq<u8>
    decreases batch.len(),
{
    if batch.len() == 0 {
        Seq::empty()
    } else {
        token_spec(batch[0], q) + pack_spec(batch.skip(1), q)
    }
}

/// The value of a sequence of digit bytes read as a decimal number.
pub open spec fn digits_val(ds: Seq<u8>) -> int
    decreases ds.len(),
{
    if ds.len() == 0 {
        0
    } else {
        digits_val(ds.drop_last()) * 10 + (ds.last() - 48)
    }
}

/// Whether every byte of a sequence is a decimal digit.
pub open spec fn all_digits(ds: Seq<u8>) -> bool {
    forall|i: int| 0 <= i < ds.len() ==> is_digit(#[trigger] ds[i])
}

/// The sample value of one token (its first byte is the sign): zero when it
/// has no digits or a byte that is no digit; otherwise the signed value of
/// its first seven digits, scaled to sample units.
pub open spec fn token_value(tok: Seq<u8>) -> int {
    if tok.len() < 2 || !all_digits(tok.skip(1)) {
        0
    } else {
        let ds = if tok.len() - 1 <= 7 {
            tok.skip(1)
        } else {
            tok.subrange(1, 8)
        };
        let v = digits_val(ds) * pow10((7 - ds.len()) as nat);
        if tok[0] == PLUS {
            v
        } else {
            -v
        }
    }
}

/// Where the token that starts at `i` ends: the position of the next sign
/// byte, or the end of the bytes.
pub open spec fn token_end(bytes: Seq<u8>, i: int) -> int
    decreases bytes.len() - i,
{
    if i + 1 >= bytes.len() {
        bytes.len() as int
    } else if is_sign(bytes[i + 1]) {
        i + 1
    } else {
        token_end(bytes, i + 1)
    }
}

/// A token starting inside the bytes ends after it and no later than they
/// do.
pub proof fn lemma_token_end_bounds(bytes: Seq<u8>, i: int)
    requires
        0 <= i < bytes.len(),
    ensures
        i < token_end(bytes, i) <= bytes.len(),
    decreases bytes.len() - i,
{
    if i + 1 >= bytes.len() || is_sign(bytes[i + 1]) {
    } else {
        lemma_token_end_bounds(bytes, i + 1);
    }
}

/// The packed bytes decoded back into sample values: split at the sign
/// bytes, each token read by `token_value`; bytes before the first sign
/// byte are passed over.
pub open spec fn decode_spec(bytes: Seq<u8>) -> Seq<int>
    decreases bytes.len(),
    via decode_spec_dec
{
    if bytes.len() == 0 {
        Seq::empty()
    } else if !is_sign(bytes[0]) {
        decode_spec(bytes.skip(1))
    } else {
        let e = token_end(bytes, 0);
        seq![token_value(bytes.take(e))] + decode_spec(bytes.skip(e))
    }
}

#[via_fn]
proof fn decode_spec_dec(bytes: Seq<u8>) {
    if bytes.len() > 0 && is_sign(bytes[0]) {
        lemma_token_end_bounds(bytes, 0);
    }
}

/// A small power of ten, as a machine integer.
fn pow10_exec(e: u32) -> (r: i64)
    requires
        e <= 7,
    ensures
        r == pow10(e as nat),
{
    proof {
        reveal_with_fuel(pow10, 8);
    }
    match e {
        0 => 1,
        1 => 10,
        2 => 100,
        3 => 1_000,
        4 => 10_000,
        5 => 100_000,
        6 => 1_000_000,
        _ => 10_000_000,
    }
}

/// Every fraction digit of a clamped magnitude is a decimal digit value.
pub proof fn lemma_frac_digit_bounds(m: int, i: int)
    requires
        0 <= m,
        0 <= i < 7,
    ensures
        0 <= frac_digit(m, i) < 10,
        0 <= m / pow10((6 - i) as nat),
{
    crate::sample::lemma_pow10_pos((6 - i) as nat);
    vstd::arithmetic::div_mod::lemma_mod_division_less_than_divisor(
        m / pow10((6 - i) as nat),
        10,
    );
    vstd::arithmetic::div_mod::lemma_div_pos_is_pos(m, pow10((6 - i) as nat));
}

/// The digit bytes of a token spell the leading digits of the magnitude:
/// read as a number they equal the magnitude shifted down to `d` digits.
proof fn lemma_digits_val_of_token(m: int, d: int)
    requires
        0 <= m < SCALE as int,
        1 <= d <= 7,
    ensures
        digits_val(Seq::new(d as nat, |i: int| (48 + frac_digit(m, i)) as u8)) == m / pow10(
            (7 - d) as nat,
        ),
    decreases d,
{
    let f = |i: int| (48 + frac_digit(m, i)) as u8;
    let ds = Seq::new(d as nat, f);
    lemma_frac_digit_bounds(m, d - 1);
    assert(ds.last() == (48 + frac_digit(m, d - 1)) as u8);
    assert(ds.last() - 48 == frac_digit(m, d - 1));
    if d == 1 {
        // one digit: m / 10^6 is below 10 because m < 10^7
        assert(ds.drop_last() =~= Seq::<u8>::empty());
        assert(digits_val(ds) == frac_digit(m, 0)) by {
            reveal_with_fuel(digits_val, 2);
        }
        assert(pow10(6nat) == 1_000_000 && pow10(7nat) == 10_000_000) by {
            reveal_with_fuel(pow10, 8);
        }
        assert(m / 1_000_000 < 10) by {
            vstd::arithmetic::div_mod::lemma_multiply_divide_lt(m, 1_000_000, 10);
        }
        assert(0 <= m / 1_000_000) by {
            vstd::arithmetic::div_mod::lemma_div_pos_is_pos(m, 1_000_000);
        }
        assert((m / 1_000_000) % 10 == m / 1_000_000) by {
            vstd::arithmetic::div_mod::lemma_small_mod((m / 1_000_000) as nat, 10);
        }
        assert(frac_digit(m, 0) == m / pow10(6nat));
    } else {
        lemma_digits_val_of_token(m, d - 1);
        assert(ds.drop_last() =~= Seq::new((d - 1) as nat, f));
        let x = m / pow10((7 - d) as nat);
        // the first d-1 digits are the magnitude shifted one digit further
        assert(pow10((8 - d) as nat) == 10 * pow10((7 - d) as nat));
        assert(m / pow10((8 - d) as nat) == x / 10) by {
            crate::sample::lemma_pow10_pos((7 - d) as nat);
            vstd::arithmetic::div_mod::lemma_div_denominator(m, pow10((7 - d) as nat), 10);
        }
        assert(frac_digit(m, d - 1) == x % 10);
        assert(x == 10 * (x / 10) + x % 10) by {
            vstd::arithmetic::div_mod::lemma_fundamental_div_mod(x, 10);
        }
        assert(digits_val(ds) == digits_val(ds.drop_last()) * 10 + (ds.last() - 48));
    }
}

/// Decoding a token produced by the quantizer gives exactly the quantized
/// sample value.
pub proof fn lemma_token_value_of_spec(s: i64, q: int)
    requires
        1 <= q <= 9,
    ensures
        token_value(token_spec(s, q)) == quantize(s, q),
{
    let tok = token_spec(s, q);
    let d = digit_count(q);
    let m = clamp_mag(abs(s as int));
    let f = |i: int| (48 + frac_digit(m, i)) as u8;
    assert(pow10(7nat) == 10_000_000) by {
        reveal_with_fuel(pow10, 8);
    }
    assert(0 <= m < SCALE as int);
    assert(tok.len() == 1 + d);
    assert(tok.skip(1) =~= Seq::new(d as nat, f));
    assert forall|i: int| 0 <= i < tok.skip(1).len() implies is_digit(#[trigger] tok.skip(1)[i]) by {
        lemma_frac_digit_bounds(m, i);
    }
    assert(all_digits(tok.skip(1)));
    let ds = tok.skip(1);
    assert(ds.len() == d <= 7);
    lemma_digits_val_of_token(m, d);
    assert(digits_val(ds) == m / pow10((7 - d) as nat));
    assert(tok[0] == PLUS <==> s >= 0);
    assert(token_value(tok) == if s >= 0 {
        digits_val(ds) * pow10((7 - d) as nat)
    } else {
        -(digits_val(ds) * pow10((7 - d) as nat))
    });
}

/// P5 core: quantization moves a unit-range sample by at most one unit of
/// the last kept digit, which for `q >= 3` is within `10^(2-q)` of the
/// original amplitude.
pub proof fn lemma_quantize_close(s: i64, q: int)
    requires
        in_unit_range(s),
        1 <= q <= 9,
    ensures
        abs(quantize(s, q) - s) <= pow10((7 - digit_count(q)) as nat),
        3 <= q ==> abs(quantize(s, q) - s) <= pow10((9 - q) as nat),
        abs(quantize(s, q)) <= abs(s as int),
{
    let d = digit_count(q);
    let m = abs(s as int);
    let mc = clamp_mag(m);
    let p = pow10((7 - d) as nat);
    let v = (mc / p) * p;
    assert(pow10(7nat) == 10_000_000) by {
        reveal_with_fuel(pow10, 8);
    }
    crate::sample::lemma_pow10_pos((7 - d) as nat);
    assert(mc == (mc / p) * p + mc % p) by {
        vstd::arithmetic::div_mod::lemma_fundamental_div_mod(mc, p);
        vstd::arithmetic::mul::lemma_mul_is_commutative(p, mc / p);
    }
    assert(0 <= mc % p < p) by {
        vstd::arithmetic::div_mod::lemma_mod_division_less_than_divisor(mc, p);
    }
    assert(m - mc <= if m == SCALE as int {
        1int
    } else {
        0int
    });
    assert(0 <= v <= mc);
    assert(m - v <= p);
    if m == SCALE as int {
        // full scale: the clamped magnitude 9999999 truncates to within one
        // unit of the last kept digit of the original
        assert(mc == SCALE - 1);
        assert(mc % p <= p - 1);
        assert(m - v == (m - mc) + mc % p <= p);
    }
    if 3 <= q {
        crate::sample::lemma_pow10_mono((7 - d) as nat, (9 - q) as nat);
    }
}

/// Encodes one sample as its token: the sign byte, then `quality` digits of
/// the fraction (at most seven). Magnitudes at or above full scale are
/// written as 0.9999999.
pub fn encode_sample(s: i64, quality: u8) -> (token: Vec<u8>)
    requires
        1 <= quality <= 9,
    ensures
        token@ == token_spec(s, quality as int),
{
    proof {
        reveal_with_fuel(pow10, 8);
    }
    let m: i64 = if s >= 0 {
        if s >= SCALE {
            SCALE - 1
        } else {
            s
        }
    } else {
        if s <= -SCALE {
            SCALE - 1
        } else {
            -s
        }
    };
    assert(m == clamp_mag(abs(s as int)));
    let ghost mspec = clamp_mag(abs(s as int));
    let d: u32 = if quality <= 7 {
        quality as u32
    } else {
        7
    };
    let mut token: Vec<u8> = Vec::new();
    if s >= 0 {
        token.push(PLUS);
    } else {
        token.push(MINUS);
    }
    let mut i: u32 = 0;
    while i < d
        invariant
            0 <= i <= d <= 7,
            d == digit_count(quality as int),
            0 <= m < SCALE,
            m == mspec,
            token@.len() == 1 + i,
            token@[0] == (if s >= 0 {
                PLUS
            } else {
                MINUS
            }),
            forall|k: int| 1 <= k < token@.len() ==> token@[k] == (48 + frac_digit(
                mspec,
                k - 1,
            )) as u8,
        decreases d - i,
    {
        let p = pow10_exec(6 - i);
        proof {
            lemma_frac_digit_bounds(mspec, i as int);
            crate::sample::lemma_pow10_pos((6 - i) as nat);
            assert(m / p as i64 == mspec / pow10((6 - i) as nat));
            vstd::arithmetic::div_mod::lemma_div_nonincreasing(mspec, pow10((6 - i) as nat));
            vstd::arithmetic::div_mod::lemma_div_pos_is_pos(mspec, pow10((6 - i) as nat));
        }
        let dig: i64 = (m / p) % 10;
        token.push(48 + (dig as u8));
        i = i + 1;
    }
    proof {
        assert(token@ =~= token_spec(s, quality as int));
    }
    token
}

/// Packing distributes over concatenation of batches.
pub proof fn lemma_pack_append(x: Seq<i64>, y: Seq<i64>, q: int)
    ensures
        pack_spec(x + y, q) == pack_spec(x, q) + pack_spec(y, q),
    decreases x.len(),
{
    if x.len() == 0 {
        assert(x + y =~= y);
        assert(pack_spec(x, q) + pack_spec(y, q) =~= pack_spec(y, q));
    } else {
        assert((x + y).skip(1) =~= x.skip(1) + y);
        lemma_pack_append(x.skip(1), y, q);
        assert(token_spec((x + y)[0], q) + (pack_spec(x.skip(1), q) + pack_spec(y, q))
            =~= (token_spec(x[0], q) + pack_spec(x.skip(1), q)) + pack_spec(y, q));
    }
}

/// Packs a whole batch: the samples' tokens, concatenated in order.
pub fn pack_batch(batch: &Vec<i64>, quality: u8) -> (bytes: Vec<u8>)
    requires
        1 <= quality <= 9,
    ensures
        bytes@ == pack_spec(batch@, quality as int),
{
    let ghost q = quality as int;
    let mut bytes: Vec<u8> = Vec::new();
    let mut j: usize = 0;
    while j < batch.len()
        invariant
            j <= batch@.len(),
            1 <= quality <= 9,
            q == quality as int,
            bytes@ == pack_spec(batch@.take(j as int), q),
        decreases batch@.len() - j,
    {
        let mut token = encode_sample(batch[j], quality);
        proof {
            let single = seq![batch@[j as int]];
            assert(batch@.take(j + 1) =~= batch@.take(j as int) + single);
            lemma_pack_append(batch@.take(j as int), single, q);
            reveal_with_fuel(pack_spec, 3);
            assert(single.skip(1) =~= Seq::<i64>::empty());
            assert(single.skip(1) == Seq::<i64>::empty());
            assert(pack_spec(Seq::<i64>::empty(), q) == Seq::<u8>::empty());
            assert(pack_spec(single, q) =~= token_spec(batch@[j as int], q));
        }
        bytes.append(&mut token);
        j = j + 1;
    }
    proof {
        assert(batch@.take(batch@.len() as int) =~= batch@);
    }
    bytes
}

/// `token_end` finds exactly the end of a run of non-sign bytes.
proof fn lemma_token_end_run(bytes: Seq<u8>, i: int, k: int)
    requires
        0 <= i < k <= bytes.len(),
        forall|j: int| i < j < k ==> !is_sign(#[trigger] bytes[j]),
        k == bytes.len() || is_sign(bytes[k]),
    ensures
        token_end(bytes, i) == k,
    decreases k - i,
{
    if i + 1 >= bytes.len() {
    } else if is_sign(bytes[i + 1]) {
    } else {
        lemma_token_end_run(bytes, i + 1, k);
    }
}

/// Decoding takes one whole leading token off the packed bytes.
proof fn lemma_decode_token_prefix(tok: Seq<u8>, rest: Seq<u8>)
    requires
        tok.len() >= 2,
        is_sign(tok[0]),
        forall|j: int| 1 <= j < tok.len() ==> !is_sign(#[trigger] tok[j]),
        rest.len() == 0 || is_sign(rest[0]),
    ensures
        decode_spec(tok + rest) == seq![token_value(tok)] + decode_spec(rest),
{
    let bytes = tok + rest;
    assert(is_sign(bytes[0]));
    lemma_token_end_run(bytes, 0, tok.len() as int);
    assert(token_end(bytes, 0) == tok.len());
    assert(bytes.take(tok.len() as int) =~= tok);
    assert(bytes.skip(tok.len() as int) =~= rest);
}

/// The digit bytes of a quantizer token are never sign bytes.
proof fn lemma_token_bytes(s: i64, q: int)
    requires
        1 <= q <= 9,
    ensures
        token_spec(s, q).len() == 1 + digit_count(q),
        is_sign(token_spec(s, q)[0]),
        forall|j: int|
            1 <= j < token_spec(s, q).len() ==> !is_sign(#[trigger] token_spec(s, q)[j]),
{
    let tok = token_spec(s, q);
    let m = clamp_mag(abs(s as int));
    assert forall|j: int| 1 <= j < tok.len() implies !is_sign(#[trigger] tok[j]) by {
        lemma_frac_digit_bounds(m, j - 1);
        assert(tok[j] == (48 + frac_digit(m, j - 1)) as u8);
    }
}

/// Decoding a packed batch recovers each sample's quantized value, in
/// order.
pub proof fn lemma_decode_pack(batch: Seq<i64>, q: int)
    requires
        1 <= q <= 9,
    ensures
        decode_spec(pack_spec(batch, q)).len() == batch.len(),
        forall|i: int|
            0 <= i < batch.len() ==> decode_spec(pack_spec(batch, q))[i] == quantize(batch[i], q),
    decreases batch.len(),
{
    if batch.len() > 0 {
        let tok = token_spec(batch[0], q);
        let rest = pack_spec(batch.skip(1), q);
        lemma_token_bytes(batch[0], q);
        if batch.skip(1).len() > 0 {
            lemma_token_bytes(batch.skip(1)[0], q);
            assert(rest[0] == token_spec(batch.skip(1)[0], q)[0]);
        }
        lemma_decode_token_prefix(tok, rest);
        lemma_token_value_of_spec(batch[0], q);
        lemma_decode_pack(batch.skip(1), q);
        assert(decode_spec(pack_spec(batch, q)) == seq![quantize(batch[0], q)] + decode_spec(
            rest,
        ));
        assert forall|i: int| 0 <= i < batch.len() implies decode_spec(pack_spec(batch, q))[i]
            == quantize(batch[i], q) by {
            if i > 0 {
                assert(decode_spec(rest)[i - 1] == quantize(batch.skip(1)[i - 1], q));
                assert(batch.skip(1)[i - 1] == batch[i]);
            }
        }
    }
}

/// Quantizer round trip: decoding an encoded batch of unit-range samples
/// gives one value per sample, each within one unit of the last kept digit
/// of the original; for `q >= 3` that is within `10^(2-q)` of the original
/// amplitude.
pub proof fn lemma_quantizer_round_trip(batch: Seq<i64>, q: int)
    requires
        1 <= q <= 9,
        forall|i: int| 0 <= i < batch.len() ==> in_unit_range(#[trigger] batch[i]),
    ensures
        decode_spec(pack_spec(batch, q)).len() == batch.len(),
        forall|i: int|
            0 <= i < batch.len() ==> abs(decode_spec(pack_spec(batch, q))[i] - batch[i]) <= pow10(
                (7 - digit_count(q)) as nat,
            ),
        3 <= q ==> forall|i: int|
            0 <= i < batch.len() ==> abs(decode_spec(pack_spec(batch, q))[i] - batch[i]) <= pow10(
                (9 - q) as nat,
            ),
{
    lemma_decode_pack(batch, q);
    assert forall|i: int| 0 <= i < batch.len() implies abs(
        decode_spec(pack_spec(batch, q))[i] - batch[i],
    ) <= pow10((7 - digit_count(q)) as nat) by {
        lemma_quantize_close(batch[i], q);
    }
    if 3 <= q {
        assert forall|i: int| 0 <= i < batch.len() implies abs(
            decode_spec(pack_spec(batch, q))[i] - batch[i],
        ) <= pow10((9 - q) as nat) by {
            lemma_quantize_close(batch[i], q);
        }
    }
}

/// The value of `n` digit bytes is below the `n`-th power of ten.
pub proof fn lemma_digits_val_bound(ds: Seq<u8>)
    requires
        all_digits(ds),
    ensures
        0 <= digits_val(ds) < pow10(ds.len()),
    decreases ds.len(),
{
    if ds.len() == 0 {
    } else {
        assert(all_digits(ds.drop_last()));
        lemma_digits_val_bound(ds.drop_last());
        assert(pow10(ds.len()) == 10 * pow10((ds.len() - 1) as nat));
        assert(is_digit(ds[ds.len() - 1]));
    }
}

/// Every decoded token value lies within the unit range.
proof fn lemma_token_value_bounds(tok: Seq<u8>)
    ensures
        abs(token_value(tok)) < SCALE as int,
{
    assert(pow10(7nat) == 10_000_000) by {
        reveal_with_fuel(pow10, 8);
    }
    if tok.len() < 2 || !all_digits(tok.skip(1)) {
    } else {
        let ds = if tok.len() - 1 <= 7 {
            tok.skip(1)
        } else {
            tok.subrange(1, 8)
        };
        assert(all_digits(ds));
        lemma_digits_val_bound(ds);
        let n = ds.len();
        crate::sample::lemma_pow10_adds(n, (7 - n) as nat);
        crate::sample::lemma_pow10_pos((7 - n) as nat);
        assert(digits_val(ds) * pow10((7 - n) as nat) < pow10(n) * pow10((7 - n) as nat)) by (
        nonlinear_arith)
            requires
                0 <= digits_val(ds) < pow10(n),
                pow10((7 - n) as nat) >= 1,
        ;
        assert(digits_val(ds) * pow10((7 - n) as nat) >= 0) by (nonlinear_arith)
            requires
                0 <= digits_val(ds),
                pow10((7 - n) as nat) >= 1,
        ;
    }
}

/// A sample sequence as mathematical integers.
pub open spec fn to_ints(v: Seq<i64>) -> Seq<int> {
    v.map_values(|s: i64| s as int)
}

/// Decodes a packed batch back into samples: splits at the sign bytes and
/// reads each token; a token with no digits or a stray byte gives 0.
pub fn decode_packed(bytes: &Vec<u8>) -> (samples: Vec<i64>)
    ensures
        to_ints(samples@) == decode_spec(bytes@),
        forall|i: int| 0 <= i < samples@.len() ==> in_unit_range(#[trigger] samples@[i]),
{
    let n = bytes.len();
    let mut samples: Vec<i64> = Vec::new();
    let mut i: usize = 0;
    proof {
        assert(bytes@.skip(0) =~= bytes@);
        assert(to_ints(samples@) =~= Seq::<int>::empty());
        assert(to_ints(samples@) + decode_spec(bytes@) =~= decode_spec(bytes@));
    }
    while i < n
        invariant
            i <= n == bytes@.len(),
            decode_spec(bytes@) == to_ints(samples@) + decode_spec(bytes@.skip(i as int)),
            forall|k: int| 0 <= k < samples@.len() ==> in_unit_range(#[trigger] samples@[k]),
        decreases n - i,
    {
        let b = bytes[i];
        if b != PLUS && b != MINUS {
            proof {
                let sk = bytes@.skip(i as int);
                assert(sk[0] == b);
                assert(sk.skip(1) =~= bytes@.skip(i + 1));
            }
            i = i + 1;
        } else {
            let mut j = i + 1;
            while j < n && bytes[j] != PLUS && bytes[j] != MINUS
                invariant
                    i + 1 <= j <= n == bytes@.len(),
                    forall|k: int| i < k < j ==> !is_sign(#[trigger] bytes@[k]),
                decreases n - j,
            {
                j = j + 1;
            }
            let ghost tok = bytes@.subrange(i as int, j as int);
            let mut ok = true;
            let mut acc: i64 = 0;
            let mut cnt: u32 = 0;
            let mut k = i + 1;
            proof {
                assert(bytes@.subrange(i + 1, i + 1) =~= Seq::<u8>::empty());
                reveal_with_fuel(pow10, 8);
            }
            while k < j
                invariant
                    i + 1 <= k <= j <= bytes@.len(),
                    cnt == (if k - i - 1 <= 7 {
                        k - i - 1
                    } else {
                        7int
                    }),
                    ok == all_digits(bytes@.subrange(i + 1, k as int)),
                    ok ==> acc == digits_val(bytes@.subrange(i + 1, i + 1 + cnt)) && acc < pow10(
                        cnt as nat,
                    ),
                    0 <= acc < 10_000_000,
                decreases j - k,
            {
                let c = bytes[k];
                proof {
                    assert(bytes@.subrange(i + 1, k + 1).drop_last() =~= bytes@.subrange(
                        i + 1,
                        k as int,
                    ));
                    assert(bytes@.subrange(i + 1, k + 1).last() == c);
                    assert(all_digits(bytes@.subrange(i + 1, k + 1)) == (all_digits(
                        bytes@.subrange(i + 1, k as int),
                    ) && is_digit(c)));
                    reveal_with_fuel(pow10, 8);
                }
                if c >= 48 && c <= 57 {
                    if ok && cnt < 7 {
                        proof {
                            crate::sample::lemma_pow10_mono(cnt as nat, 6nat);
                        }
                        acc = acc * 10 + ((c - 48) as i64);
                    }
                } else {
                    ok = false;
                }
                if cnt < 7 {
                    cnt = cnt + 1;
                }
                proof {
                    if ok && k - i - 1 >= 7 {
                        assert(bytes@.subrange(i + 1, i + 1 + cnt) =~= bytes@.subrange(
                            i + 1,
                            i + 8,
                        ));
                    }
                }
                k = k + 1;
            }
            let val: i64 = if !ok || j == i + 1 {
                0
            } else {
                let p = pow10_exec(7 - cnt);
                proof {
                    crate::sample::lemma_pow10_adds(cnt as nat, (7 - cnt) as nat);
                    crate::sample::lemma_pow10_pos((7 - cnt) as nat);
                    assert(acc * pow10((7 - cnt) as nat) < pow10(7nat) && 0 <= acc * pow10(
                        (7 - cnt) as nat,
                    )) by (nonlinear_arith)
                        requires
                            0 <= acc < pow10(cnt as nat),
                            pow10((7 - cnt) as nat) >= 1,
                            pow10(cnt as nat) * pow10((7 - cnt) as nat) == pow10(7nat),
                    ;
                    assert(pow10(7nat) == 10_000_000) by {
                        reveal_with_fuel(pow10, 8);
                    }
                }
                let v = acc * p;
                if b == MINUS {
                    -v
                } else {
                    v
                }
            };
            proof {
                assert(tok.skip(1) =~= bytes@.subrange(i + 1, j as int));
                if ok && j > i + 1 {
                    let ds = if tok.len() - 1 <= 7 {
                        tok.skip(1)
                    } else {
                        tok.subrange(1, 8)
                    };
                    if tok.len() - 1 <= 7 {
                        assert(ds =~= bytes@.subrange(i + 1, i + 1 + cnt));
                    } else {
                        assert(ds =~= bytes@.subrange(i + 1, i + 1 + cnt));
                    }
                    assert(ds.len() == cnt);
                    assert(val == token_value(tok));
                } else {
                    if j == i + 1 {
                        assert(tok.len() < 2);
                    } else {
                        assert(!all_digits(tok.skip(1)));
                    }
                    assert(token_value(tok) == 0);
                }
                let sk = bytes@.skip(i as int);
                assert(is_sign(sk[0]));
                assert forall|m: int| 0 < m < j - i implies !is_sign(#[trigger] sk[m]) by {
                    assert(sk[m] == bytes@[i + m]);
                }
                if j < n {
                    assert(is_sign(sk[j - i]));
                }
                lemma_token_end_run(sk, 0, j - i);
                assert(sk.take(j - i) =~= tok);
                assert(sk.skip(j - i) =~= bytes@.skip(j as int));
                assert(decode_spec(sk) == seq![token_value(tok)] + decode_spec(
                    bytes@.skip(j as int),
                ));
                lemma_token_value_bounds(tok);
                assert(pow10(7nat) == 10_000_000) by {
                    reveal_with_fuel(pow10, 8);
                }
                assert(to_ints(samples@.push(val)) =~= to_ints(samples@).push(val as int));
            }
            samples.push(val);
            i = j;
        }
    }
    proof {
        assert(bytes@.skip(n as int) =~= Seq::<u8>::empty());
        assert(decode_spec(Seq::<u8>::empty()) == Seq::<int>::empty());
        assert(decode_spec(bytes@) =~= to_ints(samples@));
    }
    samples
}

} // verus!
