//! The hex codec's meaning.
//!
//! The textual form of a value is `"0x"` followed by hex digits, most
//! significant digit first. This module defines what a digit sequence is
//! worth, how a limb sequence is parsed from and rendered to digits, and
//! proves the round-trip facts the codec's contracts rest on. The codec is
//! deliberately not constant-time: lengths and digit values are treated as
//! public at the I/O boundary.

use crate::limbs::limbs_to_nat;
use vstd::arithmetic::div_mod::{
    lemma_fundamental_div_mod, lemma_fundamental_div_mod_converse, lemma_mod_multiples_vanish,
};
use vstd::arithmetic::power2::{lemma2_to64, lemma_pow2_adds, pow2};
use vstd::prelude::*;
use vstd::string::{StrSliceExecFns, StringExecFns};

verus! {

/// Is c a hex digit (either case)?
pub open spec fn is_hex_digit(c: char) -> bool {
    ('0' <= c && c <= '9') || ('a' <= c && c <= 'f') || ('A' <= c && c <= 'F')
}

/// Is c a hex digit as the codec renders them (lower case)?
pub open spec fn is_lower_hex_digit(c: char) -> bool {
    ('0' <= c && c <= '9') || ('a' <= c && c <= 'f')
}

/// The numeric value of one hex digit.
pub open spec fn hex_digit_value(c: char) -> nat {
    if '0' <= c && c <= '9' {
        (c as int - '0' as int) as nat
    } else if 'a' <= c && c <= 'f' {
        (c as int - 'a' as int + 10) as nat
    } else {
        (c as int - 'A' as int + 10) as nat
    }
}

/// The lower-case hex digit for a value below 16.
pub open spec fn hex_char(d: nat) -> char {
    if d < 10 {
        (('0' as int) + d) as char
    } else {
        (('a' as int) + d - 10) as char
    }
}

/// Every character of s is a hex digit.
pub open spec fn all_hex_digits(s: Seq<char>) -> bool {
    forall|i: int| 0 <= i < s.len() ==> is_hex_digit(#[trigger] s[i])
}

/// Every character of s is a lower-case hex digit.
pub open spec fn all_lower_hex_digits(s: Seq<char>) -> bool {
    forall|i: int| 0 <= i < s.len() ==> is_lower_hex_digit(#[trigger] s[i])
}

/// The value of a digit sequence, most significant digit first.
pub open spec fn hex_value(s: Seq<char>) -> nat
    decreases s.len(),
{
    if s.len() == 0 {
        0
    } else {
        hex_value(s.drop_last()) * 16 + hex_digit_value(s.last())
    }
}

/// The limbs encoded by a digit sequence: digits are taken from the least
/// significant end in chunks of eight (one 32-bit limb each); a final
/// shorter chunk is allowed.
pub open spec fn parse_limbs(s: Seq<char>) -> Seq<u32>
    decreases s.len(),
{
    if s.len() == 0 {
        Seq::<u32>::empty()
    } else {
        let cut = if s.len() >= 8 {
            s.len() - 8
        } else {
            0
        };
        seq![hex_value(s.skip(cut as int)) as u32] + parse_limbs(s.take(cut as int))
    }
}

/// A value rendered as exactly n hex digits, most significant first.
pub open spec fn hex_pad(v: nat, n: nat) -> Seq<char>
    decreases n,
{
    if n == 0 {
        Seq::<char>::empty()
    } else {
        hex_pad(v / 16, (n - 1) as nat).push(hex_char(v % 16))
    }
}

/// The digits of a limb sequence, most significant limb first, each limb
/// zero-padded to eight digits.
pub open spec fn render_limbs(s: Seq<u32>) -> Seq<char>
    decreases s.len(),
{
    if s.len() == 0 {
        Seq::<char>::empty()
    } else {
        render_limbs(s.skip(1)) + hex_pad(s[0] as nat, 8)
    }
}

/// The digit sequence with its leading zero characters removed.
pub open spec fn trim_zeros(s: Seq<char>) -> Seq<char>
    decreases s.len(),
{
    if s.len() > 0 && s[0] == '0' {
        trim_zeros(s.skip(1))
    } else {
        s
    }
}

/// n zero characters.
pub open spec fn zero_chars(n: nat) -> Seq<char> {
    Seq::new(n, |i: int| '0')
}

/// A well-formed hex literal: the 0x prefix followed by hex digits only.
pub open spec fn valid_hex_str(s: Seq<char>) -> bool {
    s.len() >= 2 && s[0] == '0' && s[1] == 'x' && all_hex_digits(s.skip(2))
}

/// The full text rendered for a limb sequence: the 0x prefix, then the
/// digits of the limbs with leading zeros removed.
pub open spec fn render_hex_str(s: Seq<u32>) -> Seq<char> {
    seq!['0', 'x'] + trim_zeros(render_limbs(s))
}

/// A hex digit is worth less than 16.
pub proof fn lemma_hex_digit_value_bound(c: char)
    requires
        is_hex_digit(c),
    ensures
        hex_digit_value(c) < 16,
{
}

/// The digit rendered for a value below 16 is a lower-case hex digit worth
/// that value.
pub proof fn lemma_hex_char_is_digit(d: nat)
    requires
        d < 16,
    ensures
        is_lower_hex_digit(hex_char(d)),
        is_hex_digit(hex_char(d)),
        hex_digit_value(hex_char(d)) == d,
{
}

/// Rendering a digit's value gives the digit back, for lower-case digits.
pub proof fn lemma_hex_char_round_trip(c: char)
    requires
        is_lower_hex_digit(c),
    ensures
        hex_char(hex_digit_value(c)) == c,
{
}

/// A sequence of n hex digits is worth less than 2^(4n).
pub proof fn lemma_hex_value_bound(s: Seq<char>)
    requires
        all_hex_digits(s),
    ensures
        hex_value(s) < pow2(4 * s.len()),
    decreases s.len(),
{
    if s.len() == 0 {
        lemma2_to64();
    } else {
        assert(all_hex_digits(s.drop_last())) by {
            assert(forall|i: int| 0 <= i < s.len() - 1 ==> s.drop_last()[i] == #[trigger] s[i]);
        }
        lemma_hex_value_bound(s.drop_last());
        lemma_hex_digit_value_bound(s.last());
        lemma_pow2_adds(4 * (s.len() - 1) as nat, 4);
        lemma2_to64();
        let p = pow2(4 * (s.len() - 1) as nat);
        assert(hex_value(s.drop_last()) * 16 <= (p - 1) * 16) by (nonlinear_arith)
            requires
                hex_value(s.drop_last()) <= p - 1,
        ;
        assert((p - 1) * 16 == p * 16 - 16) by (nonlinear_arith);
        assert(pow2(4 * s.len()) == p * 16);
    }
}

/// Splitting a digit sequence splits its value at the corresponding power.
pub proof fn lemma_hex_value_split(s: Seq<char>, cut: int)
    requires
        0 <= cut <= s.len(),
    ensures
        hex_value(s) == hex_value(s.take(cut)) * pow2(4 * (s.len() - cut) as nat) + hex_value(
            s.skip(cut),
        ),
    decreases s.len() - cut,
{
    if cut == s.len() {
        assert(s.take(cut) =~= s);
        assert(s.skip(cut) =~= Seq::<char>::empty());
        assert(hex_value(s.skip(cut)) == 0);
        assert(pow2(4 * (s.len() - cut) as nat) == 1) by {
            lemma2_to64();
        }
        assert(hex_value(s) == hex_value(s.take(cut)) * 1 + 0);
    } else {
        lemma_hex_value_split(s.drop_last(), cut);
        assert(s.drop_last().take(cut) =~= s.take(cut));
        assert(s.drop_last().skip(cut) =~= s.skip(cut).drop_last());
        assert(s.skip(cut).last() == s.last());
        assert(s.skip(cut).len() == s.len() - cut);
        let vt = hex_value(s.take(cut));
        let p = pow2(4 * (s.len() - 1 - cut) as nat);
        lemma_pow2_adds(4 * (s.len() - 1 - cut) as nat, 4);
        lemma2_to64();
        assert(pow2(4 * (s.len() - cut) as nat) == p * 16);
        assert(hex_value(s) == (vt * p + hex_value(s.skip(cut).drop_last())) * 16
            + hex_digit_value(s.last()));
        assert(hex_value(s.skip(cut)) == hex_value(s.skip(cut).drop_last()) * 16 + hex_digit_value(
            s.last(),
        ));
        assert((vt * p + hex_value(s.skip(cut).drop_last())) * 16 == vt * (p * 16) + hex_value(
            s.skip(cut).drop_last(),
        ) * 16) by (nonlinear_arith);
    }
}

/// The value of the parsed limbs is the value of the digits.
pub proof fn lemma_parse_limbs_value(s: Seq<char>)
    requires
        all_hex_digits(s),
    ensures
        limbs_to_nat(parse_limbs(s)) == hex_value(s),
    decreases s.len(),
{
    if s.len() != 0 {
        let cut: int = if s.len() >= 8 {
            s.len() - 8
        } else {
            0
        };
        let chunk = s.skip(cut);
        let rest = s.take(cut);
        assert(all_hex_digits(chunk)) by {
            assert(forall|i: int|
                0 <= i < chunk.len() ==> #[trigger] chunk[i] == s[i + cut] && is_hex_digit(
                    s[i + cut],
                ));
        }
        assert(all_hex_digits(rest)) by {
            assert(forall|i: int|
                0 <= i < rest.len() ==> #[trigger] rest[i] == s[i] && is_hex_digit(s[i]));
        }
        lemma_hex_value_bound(chunk);
        assert(chunk.len() <= 8);
        assert(pow2(4 * chunk.len()) <= pow2(32)) by {
            if chunk.len() < 8 {
                vstd::arithmetic::power2::lemma_pow2_strictly_increases(4 * chunk.len(), 32);
            }
        }
        lemma2_to64();
        assert(hex_value(chunk) < 0x1_0000_0000);
        let cv = hex_value(chunk) as u32;
        assert(cv as nat == hex_value(chunk));
        lemma_parse_limbs_value(rest);
        lemma_hex_value_split(s, cut);
        let pl = parse_limbs(s);
        assert(pl == seq![cv] + parse_limbs(rest));
        assert(pl.len() >= 1);
        assert(pl[0] == cv);
        assert(pl.skip(1) =~= parse_limbs(rest));
        assert(limbs_to_nat(pl) == cv as nat + limbs_to_nat(parse_limbs(rest)) * 0x1_0000_0000);
        assert(4 * (s.len() - cut) as nat == 32 || cut == 0);
        if cut == 0 {
            assert(rest =~= Seq::<char>::empty());
            assert(chunk =~= s);
            assert(hex_value(rest) * pow2(4 * (s.len() - cut) as nat) == 0) by (nonlinear_arith)
                requires
                    hex_value(rest) == 0,
            ;
        }
    }
}

/// hex_pad renders exactly n digits, all of them lower-case hex digits.
pub proof fn lemma_hex_pad_wf(v: nat, n: nat)
    ensures
        hex_pad(v, n).len() == n,
        all_lower_hex_digits(hex_pad(v, n)),
        all_hex_digits(hex_pad(v, n)),
    decreases n,
{
    if n > 0 {
        lemma_hex_pad_wf(v / 16, (n - 1) as nat);
        lemma_hex_char_is_digit(v % 16);
        let t = hex_pad(v / 16, (n - 1) as nat);
        assert(forall|i: int|
            0 <= i < n - 1 ==> #[trigger] hex_pad(v, n)[i] == t[i] && is_lower_hex_digit(t[i]));
        assert(hex_pad(v, n)[n - 1] == hex_char(v % 16));
        assert(forall|i: int|
            0 <= i < n ==> is_lower_hex_digit(#[trigger] hex_pad(v, n)[i])
                ==> is_hex_digit(hex_pad(v, n)[i]));
    }
}

/// Parsing back the n digits rendered for v < 2^(4n) gives v.
pub proof fn lemma_hex_pad_value(v: nat, n: nat)
    requires
        v < pow2(4 * n),
    ensures
        hex_value(hex_pad(v, n)) == v,
    decreases n,
{
    if n == 0 {
        lemma2_to64();
    } else {
        lemma_fundamental_div_mod(v as int, 16);
        lemma_pow2_adds(4 * (n - 1) as nat, 4);
        lemma2_to64();
        assert(v / 16 < pow2(4 * (n - 1) as nat)) by {
            let p = pow2(4 * (n - 1) as nat);
            assert(v < p * 16);
            assert(16 * (v / 16) <= v);
            if v / 16 >= p {
                assert(16 * (v / 16) >= 16 * p) by (nonlinear_arith)
                    requires
                        v / 16 >= p,
                ;
            }
        }
        lemma_hex_pad_value(v / 16, (n - 1) as nat);
        lemma_hex_char_is_digit(v % 16);
        let t = hex_pad(v / 16, (n - 1) as nat);
        assert(hex_pad(v, n).drop_last() =~= t);
        assert(hex_pad(v, n).last() == hex_char(v % 16));
    }
}

/// Rendering zero gives only zero characters.
pub proof fn lemma_hex_pad_zero(n: nat)
    ensures
        hex_pad(0, n) == zero_chars(n),
    decreases n,
{
    if n == 0 {
        assert(hex_pad(0, n) =~= zero_chars(n));
    } else {
        lemma_hex_pad_zero((n - 1) as nat);
        assert(hex_char(0) == '0');
        assert(hex_pad(0, n) =~= zero_chars(n));
    }
}

/// Rendering the value of up to n lower-case digits pads them back to n
/// with leading zero characters.
pub proof fn lemma_hex_pad_canonical(c: Seq<char>, n: nat)
    requires
        all_lower_hex_digits(c),
        c.len() <= n,
    ensures
        hex_pad(hex_value(c), n) == zero_chars((n - c.len()) as nat) + c,
    decreases c.len(),
{
    if c.len() == 0 {
        lemma_hex_pad_zero(n);
        assert(zero_chars(n) =~= zero_chars(n) + c);
    } else {
        let v = hex_value(c);
        let q = hex_value(c.drop_last());
        let r = hex_digit_value(c.last());
        assert(is_lower_hex_digit(c.last()));
        lemma_hex_digit_value_bound(c.last());
        lemma_fundamental_div_mod_converse(v as int, 16, q as int, r as int);
        assert(v / 16 == q && v % 16 == r);
        lemma_hex_char_round_trip(c.last());
        assert(all_lower_hex_digits(c.drop_last())) by {
            assert(forall|i: int|
                0 <= i < c.len() - 1 ==> c.drop_last()[i] == #[trigger] c[i]
                    && is_lower_hex_digit(c[i]));
        }
        lemma_hex_pad_canonical(c.drop_last(), (n - 1) as nat);
        assert(hex_pad(v, n) == hex_pad(q, (n - 1) as nat).push(hex_char(r)));
        assert((zero_chars((n - c.len()) as nat) + c.drop_last()).push(c.last()) =~= zero_chars(
            (n - c.len()) as nat,
        ) + c);
    }
}

/// Removing a leading block of zero characters does not change the trimmed
/// digits.
pub proof fn lemma_trim_zeros_skip(s: Seq<char>, t: int)
    requires
        0 <= t <= s.len(),
        forall|k: int| 0 <= k < t ==> s[k] == '0',
    ensures
        trim_zeros(s) == trim_zeros(s.skip(t)),
    decreases t,
{
    if t > 0 {
        assert(s[0] == '0');
        assert(forall|k: int| 0 <= k < t - 1 ==> #[trigger] s.skip(1)[k] == s[k + 1]);
        lemma_trim_zeros_skip(s.skip(1), t - 1);
        assert(s.skip(1).skip(t - 1) =~= s.skip(t));
    } else {
        assert(s.skip(0) =~= s);
    }
}

/// The rendered digits of a limb sequence: eight per limb, all of them
/// lower-case hex digits.
pub proof fn lemma_render_limbs_wf(s: Seq<u32>)
    ensures
        render_limbs(s).len() == 8 * s.len(),
        all_lower_hex_digits(render_limbs(s)),
        all_hex_digits(render_limbs(s)),
    decreases s.len(),
{
    if s.len() > 0 {
        lemma_render_limbs_wf(s.skip(1));
        lemma_hex_pad_wf(s[0] as nat, 8);
        let t = render_limbs(s.skip(1));
        let p = hex_pad(s[0] as nat, 8);
        assert forall|i: int| 0 <= i < render_limbs(s).len() implies is_lower_hex_digit(
            #[trigger] render_limbs(s)[i],
        ) by {
            if i < t.len() {
                assert(render_limbs(s)[i] == t[i]);
            } else {
                assert(render_limbs(s)[i] == p[i - t.len()]);
            }
        }
    }
}

/// All-zero limbs render as zero characters only.
pub proof fn lemma_render_limbs_zero(s: Seq<u32>)
    requires
        forall|i: int| 0 <= i < s.len() ==> s[i] == 0,
    ensures
        render_limbs(s) == zero_chars(8 * s.len()),
    decreases s.len(),
{
    if s.len() == 0 {
        assert(render_limbs(s) =~= zero_chars(0));
    } else {
        lemma_render_limbs_zero(s.skip(1));
        lemma_hex_pad_zero(8);
        assert(s[0] == 0);
        assert(zero_chars(8 * (s.len() - 1) as nat) + zero_chars(8) =~= zero_chars(8 * s.len()));
    }
}

/// The number of leading zero characters rendering adds to n digits.
pub open spec fn pad_len(n: nat) -> nat {
    if n % 8 == 0 {
        0
    } else {
        (8 - n % 8) as nat
    }
}

/// Rendering the parsed limbs gives the digits back, preceded by the zero
/// characters that pad them to whole limbs.
pub proof fn lemma_render_parse(h: Seq<char>)
    requires
        all_lower_hex_digits(h),
    ensures
        render_limbs(parse_limbs(h)) == zero_chars(pad_len(h.len())) + h,
    decreases h.len(),
{
    if h.len() == 0 {
        assert(render_limbs(parse_limbs(h)) =~= zero_chars(pad_len(0)) + h);
    } else {
        let cut: int = if h.len() >= 8 {
            h.len() - 8
        } else {
            0
        };
        let chunk = h.skip(cut);
        let rest = h.take(cut);
        assert(all_lower_hex_digits(chunk) && all_hex_digits(chunk)) by {
            assert(forall|i: int|
                0 <= i < chunk.len() ==> #[trigger] chunk[i] == h[i + cut] && is_lower_hex_digit(
                    h[i + cut],
                ));
        }
        assert(all_lower_hex_digits(rest)) by {
            assert(forall|i: int|
                0 <= i < rest.len() ==> #[trigger] rest[i] == h[i] && is_lower_hex_digit(h[i]));
        }
        lemma_hex_value_bound(chunk);
        assert(pow2(4 * chunk.len()) <= pow2(32)) by {
            if chunk.len() < 8 {
                vstd::arithmetic::power2::lemma_pow2_strictly_increases(4 * chunk.len(), 32);
            }
        }
        lemma2_to64();
        let cv = hex_value(chunk) as u32;
        assert(cv as nat == hex_value(chunk));
        let pl = parse_limbs(h);
        assert(pl == seq![cv] + parse_limbs(rest));
        assert(pl.len() >= 1 && pl[0] == cv);
        assert(pl.skip(1) =~= parse_limbs(rest));
        assert(render_limbs(pl) == render_limbs(parse_limbs(rest)) + hex_pad(cv as nat, 8));
        lemma_hex_pad_canonical(chunk, 8);
        lemma_render_parse(rest);
        if cut == 0 {
            assert(chunk =~= h);
            assert(rest =~= Seq::<char>::empty());
            assert(render_limbs(parse_limbs(rest)) =~= Seq::<char>::empty());
            assert(pad_len(h.len()) == 8 - chunk.len());
            assert(Seq::<char>::empty() + (zero_chars((8 - chunk.len()) as nat) + chunk)
                =~= zero_chars(pad_len(h.len())) + h);
        } else {
            assert(chunk.len() == 8);
            assert(hex_pad(cv as nat, 8) == zero_chars(0) + chunk);
            assert(zero_chars(0) + chunk =~= chunk);
            assert(rest.len() == cut);
            assert(pad_len(rest.len()) == pad_len(h.len())) by {
                lemma_mod_multiples_vanish(1, cut, 8);
                assert(h.len() as int == 8 * 1 + cut);
            }
            assert((zero_chars(pad_len(h.len())) + rest) + chunk =~= zero_chars(pad_len(h.len()))
                + h);
        }
    }
}

/// Round trip: parsing a canonical hex literal (lower case, no leading zero
/// digit) and rendering the parsed limbs reproduces the literal exactly.
pub proof fn lemma_encode_decode_round_trip(s: Seq<char>)
    requires
        s.len() >= 2,
        s[0] == '0',
        s[1] == 'x',
        all_lower_hex_digits(s.skip(2)),
        s.len() > 2 ==> s[2] != '0',
    ensures
        render_hex_str(parse_limbs(s.skip(2))) == s,
{
    let h = s.skip(2);
    lemma_render_parse(h);
    let p = pad_len(h.len()) as int;
    assert(forall|k: int|
        0 <= k < p ==> (zero_chars(pad_len(h.len())) + h)[k] == #[trigger] zero_chars(
            pad_len(h.len()),
        )[k]);
    lemma_trim_zeros_skip(zero_chars(pad_len(h.len())) + h, p);
    assert((zero_chars(pad_len(h.len())) + h).skip(p) =~= h);
    assert(trim_zeros(h) == h) by {
        if h.len() > 0 {
            assert(h[0] == s[2]);
        }
    }
    assert(seq!['0', 'x'] + h =~= s);
}

/// The rendered digits of a limb sequence denote the value of the limbs.
pub proof fn lemma_render_limbs_value(s: Seq<u32>)
    ensures
        hex_value(render_limbs(s)) == limbs_to_nat(s),
    decreases s.len(),
{
    if s.len() > 0 {
        lemma_render_limbs_value(s.skip(1));
        let head = hex_pad(s[0] as nat, 8);
        let tail = render_limbs(s.skip(1));
        let whole = render_limbs(s);
        assert(whole == tail + head);
        lemma_hex_pad_wf(s[0] as nat, 8);
        lemma_hex_value_split(whole, tail.len() as int);
        assert(whole.take(tail.len() as int) =~= tail);
        assert(whole.skip(tail.len() as int) =~= head);
        lemma2_to64();
        lemma_hex_pad_value(s[0] as nat, 8);
    }
}

/// Removing leading zero characters does not change the denoted value.
pub proof fn lemma_trim_zeros_value(s: Seq<char>)
    ensures
        hex_value(trim_zeros(s)) == hex_value(s),
    decreases s.len(),
{
    if s.len() > 0 && s[0] == '0' {
        lemma_trim_zeros_value(s.skip(1));
        lemma_hex_value_split(s, 1);
        assert(s.take(1).last() == s[0]);
        assert(s.take(1).drop_last() =~= Seq::<char>::empty());
        assert(hex_value(s.take(1)) == hex_value(s.take(1).drop_last()) * 16 + hex_digit_value(
            s.take(1).last(),
        ));
        assert(hex_value(s.take(1)) == 0);
        assert(hex_value(s.take(1)) * pow2(4 * (s.len() - 1) as nat) == 0) by (nonlinear_arith)
            requires
                hex_value(s.take(1)) == 0,
        ;
    }
}

/// Decoding is faithful: the digits a limb sequence decodes to, leading
/// zeros removed, denote exactly the natural number the limbs denote.
pub proof fn lemma_decode_value(s: Seq<u32>)
    ensures
        hex_value(trim_zeros(render_limbs(s))) == limbs_to_nat(s),
{
    lemma_render_limbs_value(s);
    lemma_trim_zeros_value(render_limbs(s));
}

/// The digit at position j of a rendered value, as a quotient and remainder
/// of the value.
proof fn lemma_hex_pad_index(v: nat, n: nat, j: int)
    requires
        0 <= j < n,
    ensures
        hex_pad(v, n).len() == n,
        hex_pad(v, n)[j] == hex_char((v / pow2((4 * (n - 1 - j)) as nat)) % 16),
    decreases n,
{
    lemma_hex_pad_wf(v, n);
    if j == n - 1 {
        lemma2_to64();
        assert(v / 1 == v) by {
            vstd::arithmetic::div_mod::lemma_div_basics(v as int);
        }
        assert(hex_pad(v, n)[j] == hex_char(v % 16));
    } else {
        lemma_hex_pad_index(v / 16, (n - 1) as nat, j);
        lemma_hex_pad_wf(v / 16, (n - 1) as nat);
        assert(hex_pad(v, n)[j] == hex_pad(v / 16, (n - 1) as nat)[j]);
        let p = pow2((4 * (n - 2 - j)) as nat);
        assert(p > 0) by {
            vstd::arithmetic::power2::lemma_pow2_pos((4 * (n - 2 - j)) as nat);
        }
        vstd::arithmetic::div_mod::lemma_div_denominator(v as int, 16, p as int);
        lemma_pow2_adds(4, (4 * (n - 2 - j)) as nat);
        lemma2_to64();
        assert(16 * p == pow2((4 * (n - 1 - j)) as nat));
    }
}

/// Parse the digits at positions [start, end) of s as one limb.
/// Returns None exactly when one of those characters is not a hex digit.
fn parse_chunk(s: &str, start: usize, end: usize) -> (r: Option<u32>)
    requires
        start <= end <= s@.len(),
        end - start <= 8,
    ensures
        r is Some <==> all_hex_digits(s@.subrange(start as int, end as int)),
        r is Some ==> r->Some_0 as nat == hex_value(s@.subrange(start as int, end as int)),
{
    let mut acc: u32 = 0;
    let mut k = start;
    while k < end
        invariant
            start <= k <= end <= s@.len(),
            end - start <= 8,
            all_hex_digits(s@.subrange(start as int, k as int)),
            acc as nat == hex_value(s@.subrange(start as int, k as int)),
        decreases end - k,
    {
        let c = s.get_char(k);
        let cu = c as u32;
        let d: u32;
        if cu >= 48 && cu <= 57 {
            d = cu - 48;
        } else if cu >= 97 && cu <= 102 {
            d = cu - 97 + 10;
        } else if cu >= 65 && cu <= 70 {
            d = cu - 65 + 10;
        } else {
            proof {
                assert(!is_hex_digit(c));
                assert(s@.subrange(start as int, end as int)[k - start] == c);
            }
            return None;
        }
        proof {
            assert(is_hex_digit(c));
            assert(hex_digit_value(c) == d as nat);
            let pre = s@.subrange(start as int, k as int);
            lemma_hex_value_bound(pre);
            assert(pow2(4 * pre.len()) <= pow2(28)) by {
                if pre.len() < 7 {
                    vstd::arithmetic::power2::lemma_pow2_strictly_increases(4 * pre.len(), 28);
                }
            }
            lemma2_to64();
            assert(acc < 0x1000_0000);
            assert(s@.subrange(start as int, k + 1) =~= pre.push(c));
            assert(pre.push(c).drop_last() =~= pre);
            assert(forall|i: int|
                0 <= i < k + 1 - start ==> #[trigger] s@.subrange(start as int, k + 1)[i]
                    == s@[start + i]);
        }
        acc = acc * 16 + d;
        k = k + 1;
    }
    Some(acc)
}

/// Parse a whole hex literal into limbs, least significant limb first:
/// digits are taken from the least significant end in chunks of eight.
/// Returns None exactly when the text is not a well-formed hex literal.
pub(crate) fn parse_hex(s: &str) -> (r: Option<Vec<u32>>)
    ensures
        r is Some <==> valid_hex_str(s@),
        r is Some ==> r->Some_0@ == parse_limbs(s@.skip(2)),
{
    let n = s.unicode_len();
    if n < 2 {
        return None;
    }
    if s.get_char(0) != '0' {
        return None;
    }
    if s.get_char(1) != 'x' {
        return None;
    }
    let ghost h = s@.skip(2);
    let mut digits: Vec<u32> = Vec::new();
    let mut end = n;
    proof {
        assert(h.take(end - 2) =~= h);
    }
    while end > 2
        invariant
            2 <= end <= n,
            n == s@.len(),
            h == s@.skip(2),
            all_hex_digits(s@.subrange(end as int, n as int)),
            parse_limbs(h) == digits@ + parse_limbs(h.take(end - 2)),
        decreases end,
    {
        let cut = if end - 2 >= 8 {
            end - 8
        } else {
            2
        };
        let num = match parse_chunk(s, cut, end) {
            Some(v) => v,
            None => {
                proof {
                    let chunk = s@.subrange(cut as int, end as int);
                    let i = choose|i: int| 0 <= i < chunk.len() && !is_hex_digit(chunk[i]);
                    assert(h[cut - 2 + i] == s@[cut + i]);
                    assert(!all_hex_digits(h));
                }
                return None;
            },
        };
        digits.push(num);
        proof {
            let hpref = h.take(end - 2);
            let cc: int = if hpref.len() >= 8 {
                hpref.len() - 8
            } else {
                0
            };
            assert(cc == cut - 2);
            assert(hpref.skip(cc) =~= s@.subrange(cut as int, end as int));
            assert(hpref.take(cc) =~= h.take(cut - 2));
            assert(parse_limbs(hpref) == seq![num] + parse_limbs(h.take(cut - 2)));
            assert(digits@ + parse_limbs(h.take(cut - 2)) == (digits@.drop_last() + seq![num])
                + parse_limbs(h.take(cut - 2)));
            assert((digits@.drop_last() + seq![num]) + parse_limbs(h.take(cut - 2))
                =~= digits@.drop_last() + (seq![num] + parse_limbs(h.take(cut - 2))));
            assert forall|i: int| 0 <= i < n - cut implies is_hex_digit(
                #[trigger] s@.subrange(cut as int, n as int)[i],
            ) by {
                assert(s@.subrange(cut as int, n as int)[i] == s@[i + cut]);
                if i + cut < end {
                    assert(s@.subrange(cut as int, end as int)[i] == s@[i + cut]);
                    assert(is_hex_digit(s@.subrange(cut as int, end as int)[i]));
                } else {
                    assert(s@.subrange(end as int, n as int)[i + cut - end] == s@[i + cut]);
                    assert(is_hex_digit(s@.subrange(end as int, n as int)[i + cut - end]));
                }
            }
        }
        end = cut;
    }
    proof {
        assert(h.take(0) =~= Seq::<char>::empty());
        assert(digits@ + Seq::<u32>::empty() =~= digits@);
        assert(forall|i: int|
            0 <= i < h.len() ==> #[trigger] h[i] == s@.subrange(2, n as int)[i]);
        assert(all_hex_digits(h));
    }
    Some(digits)
}

/// The one-character string for a hex digit value.
pub(crate) fn hex_char_str(d: u32) -> (r: &'static str)
    requires
        d < 16,
    ensures
        r@.len() == 1,
        r@[0] == hex_char(d as nat),
{
    proof {
        reveal_strlit("0");
        reveal_strlit("1");
        reveal_strlit("2");
        reveal_strlit("3");
        reveal_strlit("4");
        reveal_strlit("5");
        reveal_strlit("6");
        reveal_strlit("7");
        reveal_strlit("8");
        reveal_strlit("9");
        reveal_strlit("a");
        reveal_strlit("b");
        reveal_strlit("c");
        reveal_strlit("d");
        reveal_strlit("e");
        reveal_strlit("f");
    }
    match d {
        0 => "0",
        1 => "1",
        2 => "2",
        3 => "3",
        4 => "4",
        5 => "5",
        6 => "6",
        7 => "7",
        8 => "8",
        9 => "9",
        10 => "a",
        11 => "b",
        12 => "c",
        13 => "d",
        14 => "e",
        _ => "f",
    }
}

/// Append the eight digits of one limb, most significant digit first.
fn push_limb_hex(out: &mut String, limb: u32)
    ensures
        final(out)@ == old(out)@ + hex_pad(limb as nat, 8),
{
    // The eight digit values, least significant first.
    let mut ds: Vec<u32> = Vec::new();
    let mut v = limb;
    let mut k: usize = 0;
    proof {
        lemma2_to64();
        assert(limb as nat / pow2(0) == limb as nat) by {
            vstd::arithmetic::div_mod::lemma_div_basics(limb as int);
        }
    }
    while k < 8
        invariant
            k <= 8,
            ds@.len() == k,
            v as nat == limb as nat / pow2((4 * k) as nat),
            forall|i: int|
                0 <= i < k ==> #[trigger] ds@[i] as nat == (limb as nat / pow2((4 * i) as nat))
                    % 16,
        decreases 8 - k,
    {
        ds.push(v % 16);
        proof {
            let p = pow2((4 * k) as nat);
            assert(p > 0) by {
                vstd::arithmetic::power2::lemma_pow2_pos((4 * k) as nat);
            }
            vstd::arithmetic::div_mod::lemma_div_denominator(limb as int, p as int, 16);
            lemma_pow2_adds((4 * k) as nat, 4);
            lemma2_to64();
            assert(p * 16 == pow2((4 * (k + 1)) as nat));
        }
        v = v / 16;
        k = k + 1;
    }
    // Append them in reverse: most significant digit first.
    let mut j: usize = 0;
    while j < 8
        invariant
            j <= 8,
            ds@.len() == 8,
            forall|i: int|
                0 <= i < 8 ==> #[trigger] ds@[i] as nat == (limb as nat / pow2((4 * i) as nat))
                    % 16,
            out@ == old(out)@ + hex_pad(limb as nat, 8).take(j as int),
        decreases 8 - j,
    {
        let d = ds[7 - j];
        proof {
            lemma_hex_pad_index(limb as nat, 8, j as int);
            assert(hex_pad(limb as nat, 8)[j as int] == hex_char(d as nat));
        }
        let piece = hex_char_str(d);
        out.append(piece);
        proof {
            assert(hex_pad(limb as nat, 8).take(j + 1) =~= hex_pad(limb as nat, 8).take(
                j as int,
            ).push(hex_pad(limb as nat, 8)[j as int]));
            assert((old(out)@ + hex_pad(limb as nat, 8).take(j as int)) + piece@ =~= old(out)@
                + hex_pad(limb as nat, 8).take(j + 1));
        }
        j = j + 1;
    }
    proof {
        assert(hex_pad(limb as nat, 8).take(8) =~= hex_pad(limb as nat, 8)) by {
            lemma_hex_pad_wf(limb as nat, 8);
        }
    }
}

/// The index of the first character of s that is not a zero character.
pub(crate) fn skip_zero_chars(s: &str, n: usize) -> (t: usize)
    requires
        vstd::string::is_ascii(s),
        n == s@.len(),
    ensures
        t <= n,
        forall|k: int| 0 <= k < t ==> s@[k] == '0',
        t < n ==> s@[t as int] != '0',
{
    let mut t: usize = 0;
    while t < n
        invariant
            t <= n,
            n == s@.len(),
            vstd::string::is_ascii(s),
            forall|k: int| 0 <= k < t ==> s@[k] == '0',
        decreases n - t,
    {
        if s.get_ascii(t) != 48 {
            proof {
                assert(s@[t as int] as u8 != 48);
            }
            return t;
        }
        t = t + 1;
    }
    t
}

/// Render limbs as a hex literal: the 0x prefix, then the digits of the
/// limbs from most significant to least significant, leading zero
/// characters removed.
pub(crate) fn render_hex(digits: &[u32]) -> (r: String)
    ensures
        r@ == render_hex_str(digits@),
{
    let mut body = String::new();
    let mut i = digits.len();
    proof {
        assert(digits@.skip(i as int) =~= Seq::<u32>::empty());
    }
    while i > 0
        invariant
            i <= digits@.len(),
            body@ == render_limbs(digits@.skip(i as int)),
        decreases i,
    {
        i = i - 1;
        push_limb_hex(&mut body, digits[i]);
        proof {
            assert(digits@.skip(i as int).skip(1) =~= digits@.skip(i + 1));
            assert(digits@.skip(i as int)[0] == digits@[i as int]);
        }
    }
    proof {
        assert(digits@.skip(0) =~= digits@);
        lemma_render_limbs_wf(digits@);
        assert forall|k: int| 0 <= k < body@.len() implies '\0' <= #[trigger] body@[k] && body@[k]
            <= '\u{7f}' by {
            assert(is_lower_hex_digit(body@[k]));
        }
        assert(vstd::utf8::is_ascii_chars(body@));
    }
    let bs = body.as_str();
    let n = bs.unicode_len();
    let t = skip_zero_chars(bs, n);
    proof {
        lemma_trim_zeros_skip(bs@, t as int);
        assert(bs@.subrange(t as int, n as int) =~= bs@.skip(t as int));
        if t < n {
            assert(trim_zeros(bs@.skip(t as int)) == bs@.skip(t as int));
        } else {
            assert(bs@.skip(t as int) =~= Seq::<char>::empty());
        }
    }
    let trimmed = bs.substring_ascii(t, n);
    let mut out = "0x".to_owned();
    proof {
        reveal_strlit("0x");
        assert(out@ =~= seq!['0', 'x']);
    }
    out.append(trimmed);
    out
}

} // verus!
