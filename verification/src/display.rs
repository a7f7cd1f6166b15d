//! Plain-text rendering helpers: decimal numbers, tail truncation for long
//! paths, and human-readable byte sizes.

use vstd::prelude::*;

use crate::names::push_char;

verus! {

/// The decimal digit character for `d`.
pub open spec fn dec_digit(d: int) -> char
    recommends
        0 <= d < 10,
{
    (48 + d) as char
}

/// The decimal representation of `n`, most significant digit first.
pub open spec fn dec_rep(n: nat) -> Seq<char>
    decreases n,
{
    if n < 10 {
        seq![dec_digit(n as int)]
    } else {
        dec_rep(n / 10) + seq![dec_digit((n % 10) as int)]
    }
}

/// The decimal representation of a signed number.
pub open spec fn dec_rep_signed(n: int) -> Seq<char> {
    if n < 0 {
        seq!['-'] + dec_rep((-n) as nat)
    } else {
        dec_rep(n as nat)
    }
}

fn digit_char(d: u64) -> (r: char)
    requires
        d < 10,
    ensures
        r == dec_digit(d as int),
{
    (48 + d as u8) as char
}

fn push_u64_digits(s: &mut String, n: u64)
    ensures
        final(s)@ == old(s)@ + dec_rep(n as nat),
    decreases n,
{
    if n < 10 {
        push_char(s, digit_char(n));
        proof {
            assert(final(s)@ =~= old(s)@ + dec_rep(n as nat));
        }
    } else {
        push_u64_digits(s, n / 10);
        push_char(s, digit_char(n % 10));
        proof {
            assert(final(s)@ =~= old(s)@ + dec_rep(n as nat));
        }
    }
}

/// Renders an unsigned number in decimal.
pub fn u64_to_string(n: u64) -> (r: String)
    ensures
        r@ == dec_rep(n as nat),
{
    let mut s = String::new();
    push_u64_digits(&mut s, n);
    proof {
        assert(s@ =~= dec_rep(n as nat));
    }
    s
}

/// Renders a signed number in decimal.
pub fn i64_to_string(n: i64) -> (r: String)
    ensures
        r@ == dec_rep_signed(n as int),
{
    if n >= 0 {
        u64_to_string(n as u64)
    } else {
        let wide: i128 = n as i128;
        let mag: u64 = (-wide) as u64;
        let mut s = String::new();
        push_char(&mut s, '-');
        push_u64_digits(&mut s, mag);
        proof {
            assert(s@ =~= dec_rep_signed(n as int));
        }
        s
    }
}

/// Keeps the last `length` characters of an overlong string, marking the
/// cut with a `...` prefix; short strings are returned unchanged.
pub fn truncate_tail(string: &str, length: usize) -> (r: String)
    requires
        length >= 3,
        string@.len() + 3 <= length || string@.len() >= length,
    ensures
        string@.len() > length ==> r@ == seq!['.', '.', '.'] + string@.skip(
            string@.len() - length,
        ),
        string@.len() <= length ==> r@ == string@,
{
    let count = string.unicode_len();
    if count > length {
        let tail = string.substring_char(count - length, count);
        let mut out = String::new();
        push_char(&mut out, '.');
        push_char(&mut out, '.');
        push_char(&mut out, '.');
        out.append(tail);
        proof {
            assert(out@ =~= seq!['.', '.', '.'] + string@.skip(string@.len() - length));
        }
        out
    } else {
        string.to_owned()
    }
}

/// 1024 to the power `e`.
pub open spec fn pow1024(e: nat) -> nat
    decreases e,
{
    if e == 0 {
        1
    } else {
        1024 * pow1024((e - 1) as nat)
    }
}

/// The scale of a byte count: the largest `e <= 6` with `pow1024(e) <= size`.
pub open spec fn byte_scale(size: nat) -> nat {
    if size < pow1024(1) {
        0
    } else if size < pow1024(2) {
        1
    } else if size < pow1024(3) {
        2
    } else if size < pow1024(4) {
        3
    } else if size < pow1024(5) {
        4
    } else if size < pow1024(6) {
        5
    } else {
        6
    }
}

/// The unit suffix for each scale.
pub open spec fn byte_unit(e: nat) -> Seq<char> {
    if e == 0 {
        seq!['b', 'y', 't', 'e', 's']
    } else if e == 1 {
        seq!['K', 'B']
    } else if e == 2 {
        seq!['M', 'B']
    } else if e == 3 {
        seq!['G', 'B']
    } else if e == 4 {
        seq!['T', 'B']
    } else if e == 5 {
        seq!['P', 'B']
    } else {
        seq!['E', 'B']
    }
}

/// `t / d` rounded to the nearest integer, ties to even.
pub open spec fn round_half_even(t: nat, d: nat) -> nat
    recommends
        d > 0,
{
    let q = t / d;
    let r = t % d;
    if 2 * r < d {
        q
    } else if 2 * r > d {
        q + 1
    } else if q % 2 == 0 {
        q
    } else {
        q + 1
    }
}

/// A byte count rendered with one decimal place at its natural scale:
/// the tenths value is `size * 10 / pow1024(e)` rounded half to even.
pub open spec fn format_bytes_spec(size: nat) -> Seq<char> {
    if size == 0 {
        seq!['0', '.', '0', ' '] + byte_unit(0)
    } else {
        let e = byte_scale(size);
        let q = round_half_even(size * 10, pow1024(e));
        dec_rep(q / 10) + seq!['.', dec_digit((q % 10) as int), ' '] + byte_unit(e)
    }
}

fn push_unit(s: &mut String, e: u64)
    requires
        e <= 6,
    ensures
        final(s)@ == old(s)@ + byte_unit(e as nat),
{
    if e == 0 {
        push_char(s, 'b');
        push_char(s, 'y');
        push_char(s, 't');
        push_char(s, 'e');
        push_char(s, 's');
    } else {
        if e == 1 {
            push_char(s, 'K');
        } else if e == 2 {
            push_char(s, 'M');
        } else if e == 3 {
            push_char(s, 'G');
        } else if e == 4 {
            push_char(s, 'T');
        } else {
            if e == 5 {
                push_char(s, 'P');
            } else {
                push_char(s, 'E');
            }
        }
        push_char(s, 'B');
    }
    proof {
        assert(final(s)@ =~= old(s)@ + byte_unit(e as nat));
    }
}

/// Renders a byte count at its natural scale with one decimal place,
/// e.g. `1536` becomes `1.5 KB`.
#[verifier::rlimit(50)]
pub fn format_bytes(size: usize) -> (r: String)
    ensures
        r@ == format_bytes_spec(size as nat),
{
    let size64: u64 = size as u64;
    if size64 == 0 {
        let mut out = String::new();
        push_char(&mut out, '0');
        push_char(&mut out, '.');
        push_char(&mut out, '0');
        push_char(&mut out, ' ');
        push_unit(&mut out, 0);
        proof {
            assert(out@ =~= format_bytes_spec(size as nat));
        }
        return out;
    }
    let kb: u64 = 1024;
    let mb: u64 = 1024 * 1024;
    let gb: u64 = 1024 * 1024 * 1024;
    let tb: u64 = 1024 * 1024 * 1024 * 1024;
    let pb: u64 = 1024 * 1024 * 1024 * 1024 * 1024;
    let eb: u64 = 1024 * 1024 * 1024 * 1024 * 1024 * 1024;
    let (e, d): (u64, u64) = if size64 < kb {
        (0, 1)
    } else if size64 < mb {
        (1, kb)
    } else if size64 < gb {
        (2, mb)
    } else if size64 < tb {
        (3, gb)
    } else if size64 < pb {
        (4, tb)
    } else if size64 < eb {
        (5, pb)
    } else {
        (6, eb)
    };
    proof {
        reveal_with_fuel(pow1024, 8);
        assert(e as nat == byte_scale(size as nat));
        assert(d as nat == pow1024(e as nat));
    }
    proof {
        assert((size64 as int) < (d as int) * 1024);
        vstd::arithmetic::div_mod::lemma_multiply_divide_lt(size64 as int, d as int, 1024);
    }
    let whole: u64 = size64 / d;
    let rem: u64 = size64 % d;
    let t: u64 = rem * 10;
    let qf: u64 = t / d;
    let rf: u64 = t % d;
    let rounded_frac: u64 = if 2 * rf < d {
        qf
    } else if 2 * rf > d {
        qf + 1
    } else if qf % 2 == 0 {
        qf
    } else {
        qf + 1
    };
    let q: u64 = whole * 10 + rounded_frac;
    proof {
        lemma_round_decompose(size as nat, d as nat, whole as nat, rem as nat);
        assert(q as nat == round_half_even(size as nat * 10, d as nat));
    }
    let mut out = u64_to_string(q / 10);
    push_char(&mut out, '.');
    push_char(&mut out, digit_char(q % 10));
    push_char(&mut out, ' ');
    push_unit(&mut out, e);
    proof {
        assert(out@ =~= format_bytes_spec(size as nat));
    }
    out
}

/// Splitting `size` into `whole * d + rem` splits the rounded tenths into
/// `whole * 10` plus the rounded tenths of the remainder.
proof fn lemma_round_decompose(size: nat, d: nat, whole: nat, rem: nat)
    requires
        d > 0,
        whole == size / d,
        rem == size % d,
    ensures
        round_half_even(size * 10, d) == whole * 10 + round_half_even(rem * 10, d),
{
    assert(size == whole * d + rem) by {
        vstd::arithmetic::div_mod::lemma_fundamental_div_mod(size as int, d as int);
    }
    assert(size * 10 == (whole * 10) * d + rem * 10) by (nonlinear_arith)
        requires
            size == whole * d + rem,
    ;
    let t = size * 10;
    let u = rem * 10;
    assert(t / d == whole * 10 + u / d && t % d == u % d) by {
        vstd::arithmetic::div_mod::lemma_fundamental_div_mod(u as int, d as int);
        assert(t == (whole * 10 + u / d) * d + (u % d)) by (nonlinear_arith)
            requires
                t == (whole * 10) * d + u,
                u == (u / d) * d + (u % d),
        ;
        vstd::arithmetic::div_mod::lemma_fundamental_div_mod_converse(
            t as int,
            d as int,
            (whole * 10 + u / d) as int,
            (u % d) as int,
        );
    }
    assert(whole * 10 == 2 * (whole * 5)) by (nonlinear_arith);
    assert((2 * (whole * 5) + u / d) % 2 == (u / d) % 2) by {
        vstd::arithmetic::div_mod::lemma_mod_multiples_vanish(
            (whole * 5) as int,
            (u / d) as int,
            2,
        );
    }
}

} // verus!
