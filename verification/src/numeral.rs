//! Decimal numerals.
//!
//! The canonical decimal numeral of an unsigned value: no sign, no
//! leading zero, `"0"` for zero.  Used by the textual payload encoding.

use vstd::prelude::*;

verus! {

/// The value of a digit character; `-1` for any other character.
pub open spec fn digit_val(c: char) -> int {
    if c == '0' {
        0
    } else if c == '1' {
        1
    } else if c == '2' {
        2
    } else if c == '3' {
        3
    } else if c == '4' {
        4
    } else if c == '5' {
        5
    } else if c == '6' {
        6
    } else if c == '7' {
        7
    } else if c == '8' {
        8
    } else if c == '9' {
        9
    } else {
        -1
    }
}

/// Whether `c` is a decimal digit.
pub open spec fn is_digit(c: char) -> bool {
    digit_val(c) >= 0
}

/// The digit character of a value below ten.
pub open spec fn digit_char(d: int) -> char {
    if d == 0 {
        '0'
    } else if d == 1 {
        '1'
    } else if d == 2 {
        '2'
    } else if d == 3 {
        '3'
    } else if d == 4 {
        '4'
    } else if d == 5 {
        '5'
    } else if d == 6 {
        '6'
    } else if d == 7 {
        '7'
    } else if d == 8 {
        '8'
    } else {
        '9'
    }
}

/// The canonical decimal numeral of `n`.
pub open spec fn dec_chars(n: nat) -> Seq<char>
    decreases n,
{
    if n < 10 {
        seq![digit_char(n as int)]
    } else {
        dec_chars(n / 10) + seq![digit_char((n % 10) as int)]
    }
}

/// The value of a digit string read as a decimal numeral.
pub open spec fn dec_val(s: Seq<char>) -> int
    decreases s.len(),
{
    if s.len() == 0 {
        0
    } else {
        dec_val(s.drop_last()) * 10 + digit_val(s.last())
    }
}

/// Every character of a canonical numeral is a digit.
pub proof fn lemma_dec_chars_digits(n: nat)
    ensures
        dec_chars(n).len() >= 1,
        forall|i: int| 0 <= i < dec_chars(n).len() ==> is_digit(#[trigger] dec_chars(n)[i]),
    decreases n,
{
    if n >= 10 {
        lemma_dec_chars_digits(n / 10);
    }
}

/// Reading the canonical numeral of `n` yields `n`.
pub proof fn lemma_dec_val_of_chars(n: nat)
    ensures
        dec_val(dec_chars(n)) == n,
    decreases n,
{
    if n < 10 {
        assert(dec_chars(n).len() == 1);
        assert(dec_chars(n).drop_last() =~= Seq::<char>::empty());
        assert(dec_val(Seq::<char>::empty()) == 0);
    } else {
        lemma_dec_val_of_chars(n / 10);
        let s = dec_chars(n / 10) + seq![digit_char((n % 10) as int)];
        assert(s.drop_last() =~= dec_chars(n / 10));
        assert(s.last() == digit_char((n % 10) as int));
    }
}

/// The canonical numeral starts with `'0'` only for zero itself.
pub proof fn lemma_dec_chars_leading(n: nat)
    ensures
        dec_chars(n)[0] == '0' <==> n == 0,
    decreases n,
{
    if n >= 10 {
        lemma_dec_chars_leading(n / 10);
        lemma_dec_chars_digits(n / 10);
        assert(dec_chars(n)[0] == dec_chars(n / 10)[0]);
    }
}

/// A non-empty digit string without a leading zero is the canonical
/// numeral of its value.
pub proof fn lemma_dec_canonical(s: Seq<char>)
    requires
        s.len() >= 1,
        forall|i: int| 0 <= i < s.len() ==> is_digit(#[trigger] s[i]),
        s.len() > 1 ==> s[0] != '0',
    ensures
        dec_val(s) >= 0,
        s == dec_chars(dec_val(s) as nat),
    decreases s.len(),
{
    lemma_dec_val_nonneg(s);
    if s.len() == 1 {
        assert(s.drop_last() =~= Seq::<char>::empty());
        assert(dec_val(Seq::<char>::empty()) == 0);
        assert(dec_val(s) == digit_val(s[0]));
        assert(s =~= seq![digit_char(dec_val(s))]);
    } else {
        let p = s.drop_last();
        assert(forall|i: int| 0 <= i < p.len() ==> is_digit(#[trigger] p[i]));
        assert(p[0] == s[0]);
        lemma_dec_canonical(p);
        lemma_dec_val_nonneg(p);
        lemma_dec_val_positive(p);
        let n = dec_val(s);
        assert(n == dec_val(p) * 10 + digit_val(s.last()));
        assert(0 <= digit_val(s.last()) <= 9);
        assert(dec_val(p) >= 1);
        assert(n >= 10);
        assert(n / 10 == dec_val(p) && n % 10 == digit_val(s.last())) by (nonlinear_arith)
            requires
                n == dec_val(p) * 10 + digit_val(s.last()),
                0 <= digit_val(s.last()) <= 9,
                dec_val(p) >= 0,
        ;
        assert(digit_char((n % 10) as int) == s.last());
        assert(s =~= p + seq![s.last()]);
    }
}

/// A digit string's value is never negative.
pub proof fn lemma_dec_val_nonneg(s: Seq<char>)
    requires
        forall|i: int| 0 <= i < s.len() ==> is_digit(#[trigger] s[i]),
    ensures
        dec_val(s) >= 0,
    decreases s.len(),
{
    if s.len() > 0 {
        let p = s.drop_last();
        assert(forall|i: int| 0 <= i < p.len() ==> is_digit(#[trigger] p[i]));
        lemma_dec_val_nonneg(p);
    }
}

/// A digit string that does not start with `'0'` has a positive value.
pub proof fn lemma_dec_val_positive(s: Seq<char>)
    requires
        s.len() >= 1,
        forall|i: int| 0 <= i < s.len() ==> is_digit(#[trigger] s[i]),
        s[0] != '0',
    ensures
        dec_val(s) >= 1,
    decreases s.len(),
{
    let p = s.drop_last();
    if s.len() == 1 {
        assert(digit_val(s[0]) >= 1);
    } else {
        assert(forall|i: int| 0 <= i < p.len() ==> is_digit(#[trigger] p[i]));
        assert(p[0] == s[0]);
        lemma_dec_val_positive(p);
    }
}

/// The value of each prefix of a digit string is at most the whole
/// string's value.
pub proof fn lemma_dec_val_prefix(s: Seq<char>, i: int)
    requires
        0 <= i <= s.len(),
        forall|j: int| 0 <= j < s.len() ==> is_digit(#[trigger] s[j]),
    ensures
        dec_val(s.take(i)) <= dec_val(s),
    decreases s.len() - i,
{
    if i < s.len() {
        lemma_dec_val_prefix(s, i + 1);
        let a = s.take(i);
        let b = s.take(i + 1);
        assert(b.drop_last() =~= a);
        assert(b.last() == s[i]);
        assert(forall|j: int| 0 <= j < a.len() ==> is_digit(#[trigger] a[j]));
        lemma_dec_val_nonneg(a);
        assert(dec_val(b) == dec_val(a) * 10 + digit_val(s[i]));
        assert(dec_val(a) <= dec_val(a) * 10) by (nonlinear_arith)
            requires
                dec_val(a) >= 0,
        ;
    } else {
        assert(s.take(i) =~= s);
    }
}

/// The one-character string holding a digit.
pub fn digit_str(d: u64) -> (r: &'static str)
    requires
        d < 10,
    ensures
        r@ == seq![digit_char(d as int)],
{
    proof {
        reveal_strlit("0");
        reveal_strlit("1");
        reveal_strlit("2");
        reveal_strlit("3");
        reveal_strlit("4");
        reveal_strlit("5");
        reveal_strlit("6");
        reveal_strlit("7");
        reveal_strlit("8");
        reveal_strlit("9");
    }
    match d {
        0 => "0",
        1 => "1",
        2 => "2",
        3 => "3",
        4 => "4",
        5 => "5",
        6 => "6",
        7 => "7",
        8 => "8",
        _ => {
            assert(d == 9);
            "9"
        },
    }
}

/// Appends the canonical decimal numeral of `n`.
pub fn append_dec(out: &mut String, n: u64)
    ensures
        final(out)@ == old(out)@ + dec_chars(n as nat),
    decreases n,
{
    if n < 10 {
        out.append(digit_str(n));
    } else {
        let ghost before = out@;
        append_dec(out, n / 10);
        out.append(digit_str(n % 10));
        proof {
            assert((before + dec_chars((n / 10) as nat)) + seq![digit_char((n % 10) as int)]
                =~= before + (dec_chars((n / 10) as nat) + seq![digit_char((n % 10) as int)]));
        }
    }
}

} // verus!
