//! Decimal notation for the integers that appear in snapshot documents and
//! log lines: a canonical representation, an executable emitter, and the
//! lemmas showing that scanning the representation gives the number back.

use vstd::prelude::*;

verus! {

/// Whether `c` is one of the ten decimal digit characters.
pub open spec fn is_digit(c: char) -> bool {
    48 <= c as u32 <= 57
}

/// The digit character for a value below ten.
pub open spec fn digit_char(d: nat) -> char {
    if d == 0 {
        '0'
    } else if d == 1 {
        '1'
    } else if d == 2 {
        '2'
    } else if d == 3 {
        '3'
    } else if d == 4 {
        '4'
    } else if d == 5 {
        '5'
    } else if d == 6 {
        '6'
    } else if d == 7 {
        '7'
    } else if d == 8 {
        '8'
    } else {
        '9'
    }
}

/// The value of a digit character.
pub open spec fn digit_val(c: char) -> nat {
    (c as u32 - 48) as nat
}

/// Canonical decimal representation of `n`: no sign, no leading zero except
/// for the single digit of zero itself.
pub open spec fn dec_rep(n: nat) -> Seq<char>
    decreases n,
{
    if n < 10 {
        seq![digit_char(n)]
    } else {
        dec_rep(n / 10).push(digit_char(n % 10))
    }
}

/// Canonical decimal representation of a signed value.
pub open spec fn dec_rep_int(v: int) -> Seq<char> {
    if v < 0 {
        seq!['-'] + dec_rep((-v) as nat)
    } else {
        dec_rep(v as nat)
    }
}

/// The value of a sequence of digit characters, most significant first.
pub open spec fn seq_val(s: Seq<char>) -> nat
    decreases s.len(),
{
    if s.len() == 0 {
        0
    } else {
        seq_val(s.drop_last()) * 10 + digit_val(s.last())
    }
}

/// Ten to the `k`.
pub open spec fn pow10(k: nat) -> nat
    decreases k,
{
    if k == 0 {
        1
    } else {
        10 * pow10((k - 1) as nat)
    }
}

pub proof fn lemma_pow10_20()
    ensures
        pow10(20) == 0x56bc75e2d63100000,
        pow10(21) == 0x3635c9adc5dea00000,
        u64::MAX < pow10(20),
        pow10(21) < u128::MAX,
{
    reveal_with_fuel(pow10, 22);
}

pub proof fn lemma_pow10_mono(a: nat, b: nat)
    requires
        a <= b,
    ensures
        pow10(a) <= pow10(b),
    decreases b,
{
    if a < b {
        lemma_pow10_mono(a, (b - 1) as nat);
        assert(pow10((b - 1) as nat) >= 1) by {
            lemma_pow10_pos((b - 1) as nat);
        }
    }
}

pub proof fn lemma_pow10_pos(k: nat)
    ensures
        pow10(k) >= 1,
    decreases k,
{
    if k > 0 {
        lemma_pow10_pos((k - 1) as nat);
    }
}

pub proof fn lemma_digit_char_val(d: nat)
    requires
        d < 10,
    ensures
        is_digit(digit_char(d)),
        digit_val(digit_char(d)) == d,
{
}

/// Every character of a canonical representation is a digit.
pub proof fn lemma_dec_rep_digits(n: nat)
    ensures
        dec_rep(n).len() >= 1,
        forall|i: int| 0 <= i < dec_rep(n).len() ==> is_digit(#[trigger] dec_rep(n)[i]),
    decreases n,
{
    if n < 10 {
        lemma_digit_char_val(n);
    } else {
        lemma_dec_rep_digits(n / 10);
        lemma_digit_char_val(n % 10);
        assert forall|i: int| 0 <= i < dec_rep(n).len() implies is_digit(#[trigger] dec_rep(n)[i]) by {
            if i < dec_rep(n / 10).len() {
                assert(dec_rep(n)[i] == dec_rep(n / 10)[i]);
            } else {
                assert(dec_rep(n)[i] == digit_char(n % 10));
            }
        }
    }
}

/// A canonical representation has no leading zero unless it is "0" itself.
pub proof fn lemma_dec_rep_no_leading_zero(n: nat)
    requires
        n >= 1,
    ensures
        dec_rep(n)[0] != '0',
    decreases n,
{
    if n >= 10 {
        lemma_dec_rep_no_leading_zero(n / 10);
        lemma_dec_rep_digits(n / 10);
        assert(dec_rep(n)[0] == dec_rep(n / 10)[0]);
    }
}

/// Values below ten to the `k` take at most `k` digits.
pub proof fn lemma_dec_rep_len(n: nat, k: nat)
    requires
        k >= 1,
        n < pow10(k),
    ensures
        dec_rep(n).len() <= k,
    decreases k,
{
    if n >= 10 {
        assert(pow10(k) == 10 * pow10((k - 1) as nat));
        lemma_dec_rep_len(n / 10, (k - 1) as nat);
    }
}

/// Scanning a canonical representation yields the number it denotes.
pub proof fn lemma_seq_val_of_rep(n: nat)
    ensures
        seq_val(dec_rep(n)) == n,
    decreases n,
{
    if n < 10 {
        lemma_digit_char_val(n);
        let s = dec_rep(n);
        assert(s =~= seq![digit_char(n)]);
        assert(s.drop_last() =~= Seq::<char>::empty());
        assert(seq_val(s) == seq_val(s.drop_last()) * 10 + digit_val(s.last()));
        assert(seq_val(s.drop_last()) == 0);
        assert(s.last() == digit_char(n));
    } else {
        lemma_seq_val_of_rep(n / 10);
        lemma_digit_char_val(n % 10);
        let s = dec_rep(n);
        assert(s =~= dec_rep(n / 10).push(digit_char(n % 10)));
        assert(s.drop_last() =~= dec_rep(n / 10));
        assert(s.last() == digit_char(n % 10));
        assert(seq_val(s) == seq_val(s.drop_last()) * 10 + digit_val(s.last()));
        assert(n == (n / 10) * 10 + n % 10) by (nonlinear_arith);
    }
}

} // verus!
