//! Rendering integers as text: decimal and lowercase hexadecimal digits,
//! zero padding to a minimum width, and a sign for negative values.

use vstd::prelude::*;
use vstd::arithmetic::div_mod::{lemma_div_decreases, lemma_small_mod};
use vstd::arithmetic::power2::{pow2, lemma2_to64, lemma2_to64_rest, lemma_pow2_adds, lemma_pow2_unfold};

verus! {

/// The character of digit `d` (0 to 15), lowercase for digits above 9.
pub open spec fn digit_char(d: int) -> char {
    if d == 0 { '0' }
    else if d == 1 { '1' }
    else if d == 2 { '2' }
    else if d == 3 { '3' }
    else if d == 4 { '4' }
    else if d == 5 { '5' }
    else if d == 6 { '6' }
    else if d == 7 { '7' }
    else if d == 8 { '8' }
    else if d == 9 { '9' }
    else if d == 10 { 'a' }
    else if d == 11 { 'b' }
    else if d == 12 { 'c' }
    else if d == 13 { 'd' }
    else if d == 14 { 'e' }
    else { 'f' }
}

/// The digits of `n` in base `base` (2 to 16), most significant first, with
/// no leading zeros; zero is the single digit `0`.
pub open spec fn radix_digits(n: nat, base: nat) -> Seq<char>
    decreases n,
{
    if base < 2 || n < base {
        seq![digit_char(n as int)]
    } else {
        proof {
            lemma_div_decreases(n as int, base as int);
        }
        radix_digits(n / base, base).push(digit_char((n % base) as int))
    }
}

/// `s` with zeros in front, so that it is at least `width` characters long.
pub open spec fn zero_pad(s: Seq<char>, width: nat) -> Seq<char> {
    if s.len() >= width {
        s
    } else {
        Seq::new((width - s.len()) as nat, |i: int| '0') + s
    }
}

/// A signed integer in decimal, zero padded to `width` characters, the sign
/// counted in the width.
pub open spec fn padded_signed_decimal(v: int, width: nat) -> Seq<char> {
    if v < 0 {
        seq!['-'] + zero_pad(radix_digits((-v) as nat, 10), (if width >= 1 { width - 1 } else { 0 }) as nat)
    } else {
        zero_pad(radix_digits(v as nat, 10), width)
    }
}

fn digit_str(d: u64) -> (s: &'static str)
    requires
        d < 16,
    ensures
        s@ == seq![digit_char(d as int)],
{
    match d {
        0 => { proof { reveal_strlit("0"); } "0" },
        1 => { proof { reveal_strlit("1"); } "1" },
        2 => { proof { reveal_strlit("2"); } "2" },
        3 => { proof { reveal_strlit("3"); } "3" },
        4 => { proof { reveal_strlit("4"); } "4" },
        5 => { proof { reveal_strlit("5"); } "5" },
        6 => { proof { reveal_strlit("6"); } "6" },
        7 => { proof { reveal_strlit("7"); } "7" },
        8 => { proof { reveal_strlit("8"); } "8" },
        9 => { proof { reveal_strlit("9"); } "9" },
        10 => { proof { reveal_strlit("a"); } "a" },
        11 => { proof { reveal_strlit("b"); } "b" },
        12 => { proof { reveal_strlit("c"); } "c" },
        13 => { proof { reveal_strlit("d"); } "d" },
        14 => { proof { reveal_strlit("e"); } "e" },
        _ => { proof { reveal_strlit("f"); } "f" },
    }
}

/// Appends the digits of `v` in base `base`.
fn push_digits(out: &mut String, v: u64, base: u64)
    requires
        2 <= base <= 16,
    ensures
        final(out)@ == old(out)@ + radix_digits(v as nat, base as nat),
    decreases v,
{
    let ghost start = out@;
    if v >= base {
        proof {
            lemma_div_decreases(v as int, base as int);
        }
        push_digits(out, v / base, base);
    }
    let ghost mid = out@;
    out.append(digit_str(v % base));
    proof {
        let c = digit_char((v % base) as int);
        if v >= base {
            assert(mid == start + radix_digits((v / base) as nat, base as nat));
            assert(out@ =~= start + radix_digits((v / base) as nat, base as nat).push(c));
            assert(radix_digits(v as nat, base as nat) == radix_digits(
                (v / base) as nat,
                base as nat,
            ).push(c));
        } else {
            lemma_small_mod(v as nat, base as nat);
            assert(out@ =~= start + seq![c]);
            assert(radix_digits(v as nat, base as nat) == seq![c]);
        }
    }
}

/// Number of digits of `v` in base `base`.
fn digit_count(v: u64, base: u64) -> (count: usize)
    requires
        2 <= base <= 16,
    ensures
        count == radix_digits(v as nat, base as nat).len(),
        count <= 65,
    decreases v,
{
    proof {
        lemma2_to64_rest();
        lemma_digit_count_bound(v as nat, base as nat, 64);
    }
    if v >= base {
        proof {
            lemma_div_decreases(v as int, base as int);
        }
        let c = digit_count(v / base, base);
        c + 1
    } else {
        1
    }
}

proof fn lemma_digit_count_bound(n: nat, base: nat, k: nat)
    requires
        2 <= base,
        n < pow2(k),
    ensures
        radix_digits(n, base).len() <= k + 1,
    decreases n,
{
    if n >= base {
        assert(n / base <= n / 2) by (nonlinear_arith) requires n >= base, base >= 2;
        assert(n / base < n) by (nonlinear_arith) requires n >= base, base >= 2;
        assert(k >= 1) by {
            if k == 0 {
                lemma2_to64();
            }
        }
        lemma_pow2_unfold(k);
        assert(n / 2 < pow2((k - 1) as nat)) by (nonlinear_arith)
            requires n < pow2(k), pow2(k) == 2 * pow2((k - 1) as nat);
        lemma_digit_count_bound(n / base, base, (k - 1) as nat);
    }
}

/// Appends the digits of `v` in base `base`, zero padded to `width` characters.
pub fn push_padded_digits(out: &mut String, v: u64, base: u64, width: usize)
    requires
        2 <= base <= 16,
    ensures
        final(out)@ == old(out)@ + zero_pad(radix_digits(v as nat, base as nat), width as nat),
{
    let ghost start = out@;
    let ghost digits = radix_digits(v as nat, base as nat);
    let count = digit_count(v, base);
    let mut written: usize = count;
    while written < width
        invariant
            count == digits.len(),
            count <= written,
            written <= width || written == count,
            out@ =~= start + Seq::new((written - count) as nat, |i: int| '0'),
        decreases width - written,
    {
        proof {
            reveal_strlit("0");
        }
        out.append("0");
        written = written + 1;
    }
    push_digits(out, v, base);
    proof {
        if count < width {
            assert(written == width);
        } else {
            assert(written == count);
        }
        assert(out@ =~= start + zero_pad(digits, width as nat));
    }
}

/// Appends `v` in decimal, zero padded to `width` characters with the sign counted
/// in the width.
pub fn push_padded_signed_decimal(out: &mut String, v: i64, width: usize)
    requires
        v > i64::MIN,
    ensures
        final(out)@ == old(out)@ + padded_signed_decimal(v as int, width as nat),
{
    if v < 0 {
        let ghost start = out@;
        proof {
            reveal_strlit("-");
        }
        out.append("-");
        let magnitude = (-v) as u64;
        let rest = if width >= 1 { width - 1 } else { 0 };
        push_padded_digits(out, magnitude, 10, rest);
        proof {
            assert(out@ =~= start + padded_signed_decimal(v as int, width as nat));
        }
    } else {
        push_padded_digits(out, v as u64, 10, width);
    }
}

/// A number below 16^k has at most k hexadecimal digits (k >= 1).
pub proof fn lemma_hex_digit_count(n: nat, k: nat)
    requires
        k >= 1,
        n < pow2(4 * k),
    ensures
        radix_digits(n, 16).len() <= k,
    decreases k,
{
    if n >= 16 {
        lemma_pow2_adds((4 * (k - 1)) as nat, 4);
        lemma2_to64();
        assert(4 * k == 4 * (k - 1) + 4);
        assert(k >= 2) by {
            if k == 1 {
                assert(pow2(4) == 16);
            }
        }
        lemma_div_decreases(n as int, 16);
        assert(n / 16 < pow2((4 * (k - 1)) as nat)) by (nonlinear_arith)
            requires
                n < pow2(4 * k),
                pow2(4 * k) == pow2((4 * (k - 1)) as nat) * 16,
        ;
        lemma_hex_digit_count(n / 16, (k - 1) as nat);
    }
}

/// Lexicographic order of texts by character code, the order of `str`'s `<`.
pub open spec fn text_less(a: Seq<char>, b: Seq<char>) -> bool
    decreases a.len(),
{
    if a.len() == 0 {
        b.len() > 0
    } else if b.len() == 0 {
        false
    } else if a[0] != b[0] {
        (a[0] as u32) < (b[0] as u32)
    } else {
        text_less(a.drop_first(), b.drop_first())
    }
}

/// No text comes before itself.
pub proof fn lemma_text_less_irreflexive(a: Seq<char>)
    ensures
        !text_less(a, a),
    decreases a.len(),
{
    if a.len() > 0 {
        lemma_text_less_irreflexive(a.drop_first());
    }
}

/// Comparing two texts made of parts of equal lengths: the first differing
/// part decides.
pub proof fn lemma_text_less_concat(a1: Seq<char>, a2: Seq<char>, b1: Seq<char>, b2: Seq<char>)
    requires
        a1.len() == b1.len(),
    ensures
        text_less(a1, b1) ==> text_less(a1 + a2, b1 + b2),
        a1 == b1 ==> (text_less(a1 + a2, b1 + b2) == text_less(a2, b2)),
    decreases a1.len(),
{
    if a1.len() > 0 {
        assert((a1 + a2).drop_first() =~= a1.drop_first() + a2);
        assert((b1 + b2).drop_first() =~= b1.drop_first() + b2);
        assert((a1 + a2)[0] == a1[0]);
        assert((b1 + b2)[0] == b1[0]);
        lemma_text_less_concat(a1.drop_first(), a2, b1.drop_first(), b2);
    } else {
        assert(a1 + a2 =~= a2);
        assert(b1 + b2 =~= b2);
    }
}

/// A number below 100, zero padded to two decimal digits.
pub proof fn lemma_two_digits(v: nat)
    requires
        v < 100,
    ensures
        zero_pad(radix_digits(v, 10), 2) == seq![digit_char((v / 10) as int), digit_char((v % 10) as int)],
{
    reveal_with_fuel(radix_digits, 3);
    if v < 10 {
        assert(zero_pad(radix_digits(v, 10), 2) =~= seq!['0', digit_char(v as int)]);
    } else {
        assert(radix_digits(v / 10, 10) == seq![digit_char((v / 10) as int)]);
        assert(zero_pad(radix_digits(v, 10), 2) =~= seq![
            digit_char((v / 10) as int),
            digit_char((v % 10) as int),
        ]);
    }
}

/// A number below 10000, zero padded to four decimal digits.
pub proof fn lemma_four_digits(v: nat)
    requires
        v < 10000,
    ensures
        zero_pad(radix_digits(v, 10), 4) == seq![
            digit_char((v / 1000) as int),
            digit_char(((v / 100) % 10) as int),
            digit_char(((v / 10) % 10) as int),
            digit_char((v % 10) as int),
        ],
{
    reveal_with_fuel(radix_digits, 5);
    let q1 = v / 10;
    let q2 = q1 / 10;
    let q3 = q2 / 10;
    assert(v / 100 == q2 && v / 1000 == q3);
    if v < 10 {
        assert(zero_pad(radix_digits(v, 10), 4) =~= seq!['0', '0', '0', digit_char(v as int)]);
    } else if v < 100 {
        assert(radix_digits(q1, 10) == seq![digit_char(q1 as int)]);
        assert(zero_pad(radix_digits(v, 10), 4) =~= seq![
            '0',
            '0',
            digit_char(q1 as int),
            digit_char((v % 10) as int),
        ]);
    } else if v < 1000 {
        assert(radix_digits(q2, 10) == seq![digit_char(q2 as int)]);
        assert(radix_digits(q1, 10) == seq![digit_char(q2 as int), digit_char((q1 % 10) as int)]);
        assert(zero_pad(radix_digits(v, 10), 4) =~= seq![
            '0',
            digit_char(q2 as int),
            digit_char((q1 % 10) as int),
            digit_char((v % 10) as int),
        ]);
    } else {
        assert(radix_digits(q3, 10) == seq![digit_char(q3 as int)]);
        assert(radix_digits(q2, 10) == seq![digit_char(q3 as int), digit_char((q2 % 10) as int)]);
        assert(radix_digits(q1, 10) == seq![
            digit_char(q3 as int),
            digit_char((q2 % 10) as int),
            digit_char((q1 % 10) as int),
        ]);
        assert(zero_pad(radix_digits(v, 10), 4) =~= seq![
            digit_char(q3 as int),
            digit_char((q2 % 10) as int),
            digit_char((q1 % 10) as int),
            digit_char((v % 10) as int),
        ]);
    }
}

} // verus!
