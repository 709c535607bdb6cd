//! Decimal and zero-padded renderings of integers, built character by
//! character.

use vstd::prelude::*;

verus! {

/// The decimal digit character for `d` (`0 <= d < 10`).
pub open spec fn digit(d: int) -> char {
    if d == 0 {
        '0'
    } else if d == 1 {
        '1'
    } else if d == 2 {
        '2'
    } else if d == 3 {
        '3'
    } else if d == 4 {
        '4'
    } else if d == 5 {
        '5'
    } else if d == 6 {
        '6'
    } else if d == 7 {
        '7'
    } else if d == 8 {
        '8'
    } else {
        '9'
    }
}

/// Decimal digits of a natural number, without leading zeros.
pub open spec fn nat_text(n: nat) -> Seq<char>
    decreases n,
{
    if n < 10 {
        seq![digit(n as int)]
    } else {
        nat_text(n / 10).push(digit((n % 10) as int))
    }
}

/// Decimal text of an integer, with a leading `-` when it is negative.
pub open spec fn int_text(i: int) -> Seq<char> {
    if i < 0 {
        seq!['-'] + nat_text((-i) as nat)
    } else {
        nat_text(i as nat)
    }
}

/// `s` right-aligned in a field of width 2 filled with `'0'`.
pub open spec fn pad2(s: Seq<char>) -> Seq<char> {
    if s.len() < 2 {
        Seq::new((2 - s.len()) as nat, |i: int| '0') + s
    } else {
        s
    }
}

/// Two-digit zero-padded decimal text of `n`.
pub open spec fn two_digits(n: nat) -> Seq<char> {
    pad2(nat_text(n))
}

/// Appends `c` to `s`.
#[verifier::external_body]
pub(crate) fn push_char(s: &mut String, c: char)
    ensures
        final(s)@ == old(s)@.push(c),
{
    s.push(c);
}

/// The digit character of `d`.
pub fn digit_char(d: u64) -> (c: char)
    requires
        d < 10,
    ensures
        c == digit(d as int),
{
    match d {
        0 => '0',
        1 => '1',
        2 => '2',
        3 => '3',
        4 => '4',
        5 => '5',
        6 => '6',
        7 => '7',
        8 => '8',
        _ => '9',
    }
}

/// Appends the decimal digits of `n`.
pub fn push_nat(s: &mut String, n: u64)
    ensures
        final(s)@ == old(s)@ + nat_text(n as nat),
    decreases n,
{
    if n >= 10 {
        push_nat(s, n / 10);
        push_char(s, digit_char(n % 10));
    } else {
        push_char(s, digit_char(n));
    }
}

/// Appends the decimal text of `i`, with `-` in front when it is negative.
pub fn push_int(s: &mut String, i: i64)
    ensures
        final(s)@ == old(s)@ + int_text(i as int),
{
    if i < 0 {
        push_char(s, '-');
        let wide: i128 = i as i128;
        let magnitude: u64 = (-wide) as u64;
        push_nat(s, magnitude);
        assert(old(s)@ + int_text(i as int) =~= old(s)@.push('-') + nat_text(magnitude as nat));
    } else {
        push_nat(s, i as u64);
    }
}

/// Appends `n` as at least two digits, zero-padded on the left.
pub fn push_two_digits(s: &mut String, n: u64)
    ensures
        final(s)@ == old(s)@ + two_digits(n as nat),
{
    if n < 10 {
        push_char(s, '0');
        push_char(s, digit_char(n));
        assert(nat_text(n as nat) =~= seq![digit(n as int)]);
        assert(old(s)@ + two_digits(n as nat) =~= old(s)@.push('0').push(digit(n as int)));
    } else {
        proof {
            lemma_nat_text_len_ge_2(n as nat);
        }
        push_nat(s, n);
    }
}

/// Appends `i` (as Rust's `{:0>2}` renders an integer): its decimal text,
/// padded with `'0'` on the left to width 2.
pub fn push_int_pad2(s: &mut String, i: i64)
    ensures
        final(s)@ == old(s)@ + pad2(int_text(i as int)),
{
    if 0 <= i && i < 10 {
        push_char(s, '0');
        push_char(s, digit_char(i as u64));
        assert(int_text(i as int) =~= seq![digit(i as int)]);
        assert(old(s)@ + pad2(int_text(i as int)) =~= old(s)@.push('0').push(digit(i as int)));
    } else {
        proof {
            if i >= 10 {
                lemma_nat_text_len_ge_2(i as nat);
            } else {
                lemma_nat_text_nonempty((-i) as nat);
            }
        }
        push_int(s, i);
    }
}

/// Digits of a number of at least 10 are at least two characters.
pub proof fn lemma_nat_text_len_ge_2(n: nat)
    requires
        n >= 10,
    ensures
        nat_text(n).len() >= 2,
{
    lemma_nat_text_nonempty(n / 10);
}

/// A natural number always has at least one digit.
pub proof fn lemma_nat_text_nonempty(n: nat)
    ensures
        nat_text(n).len() >= 1,
    decreases n,
{
    if n >= 10 {
        lemma_nat_text_nonempty(n / 10);
    }
}

/// Each character of a number's decimal text is a digit, from `'0'` to
/// `'9'`.
pub proof fn nat_text_is_digits(n: nat)
    ensures
        forall|j: int| 0 <= j < nat_text(n).len() ==> '0' <= #[trigger] nat_text(n)[j] <= '9',
    decreases n,
{
    if n >= 10 {
        nat_text_is_digits(n / 10);
        let t = nat_text(n);
        assert forall|j: int| 0 <= j < t.len() implies '0' <= #[trigger] t[j] <= '9' by {
            if j < t.len() - 1 {
                assert(t[j] == nat_text(n / 10)[j]);
            }
        }
    }
}

/// Different digits are different characters.
pub proof fn digit_injective(a: int, b: int)
    requires
        0 <= a < 10,
        0 <= b < 10,
        digit(a) == digit(b),
    ensures
        a == b,
{
}

/// Different numbers have different decimal texts.
pub proof fn nat_text_injective(a: nat, b: nat)
    requires
        nat_text(a) == nat_text(b),
    ensures
        a == b,
    decreases a,
{
    if a < 10 && b < 10 {
        assert(nat_text(a)[0] == digit(a as int));
        assert(nat_text(b)[0] == digit(b as int));
        digit_injective(a as int, b as int);
    } else if a < 10 {
        lemma_nat_text_len_ge_2(b);
    } else if b < 10 {
        lemma_nat_text_len_ge_2(a);
    } else {
        let ta = nat_text(a);
        let tb = nat_text(b);
        assert(ta.last() == digit((a % 10) as int));
        assert(tb.last() == digit((b % 10) as int));
        digit_injective((a % 10) as int, (b % 10) as int);
        assert(ta.drop_last() =~= nat_text(a / 10));
        assert(tb.drop_last() =~= nat_text(b / 10));
        nat_text_injective(a / 10, b / 10);
    }
}

/// Different integers have different decimal texts; past its first
/// character, an integer's text holds digits only.
pub proof fn int_text_injective(a: int, b: int)
    requires
        int_text(a) == int_text(b),
    ensures
        a == b,
{
    lemma_nat_text_nonempty(if a < 0 { (-a) as nat } else { a as nat });
    lemma_nat_text_nonempty(if b < 0 { (-b) as nat } else { b as nat });
    if a < 0 && b < 0 {
        assert(int_text(a).drop_first() =~= nat_text((-a) as nat));
        assert(int_text(b).drop_first() =~= nat_text((-b) as nat));
        nat_text_injective((-a) as nat, (-b) as nat);
    } else if a < 0 {
        nat_text_is_digits(b as nat);
        assert(int_text(b)[0] == nat_text(b as nat)[0]);
    } else if b < 0 {
        nat_text_is_digits(a as nat);
        assert(int_text(a)[0] == nat_text(a as nat)[0]);
    } else {
        nat_text_injective(a as nat, b as nat);
    }
}

/// An integer's text is never empty, and from its second character on it
/// holds digits only.
pub proof fn int_text_tail_is_digits(i: int)
    ensures
        int_text(i).len() >= 1,
        forall|j: int| 1 <= j < int_text(i).len() ==> '0' <= #[trigger] int_text(i)[j] <= '9',
{
    if i < 0 {
        nat_text_is_digits((-i) as nat);
        lemma_nat_text_nonempty((-i) as nat);
        let t = int_text(i);
        assert forall|j: int| 1 <= j < t.len() implies '0' <= #[trigger] t[j] <= '9' by {
            assert(t[j] == nat_text((-i) as nat)[j - 1]);
        }
    } else {
        nat_text_is_digits(i as nat);
        lemma_nat_text_nonempty(i as nat);
    }
}

/// A text made of a common start, an integer, a separator that is not a
/// digit, and a rest, gives back the integer and the rest.
pub proof fn number_then_separator(p: Seq<char>, a: int, b: int, sep: char, ra: Seq<char>, rb: Seq<char>)
    requires
        !('0' <= sep <= '9'),
        p + int_text(a) + seq![sep] + ra == p + int_text(b) + seq![sep] + rb,
    ensures
        a == b,
        ra == rb,
{
    int_text_tail_is_digits(a);
    int_text_tail_is_digits(b);
    let ta = int_text(a);
    let tb = int_text(b);
    let x = p + ta + seq![sep] + ra;
    let y = p + tb + seq![sep] + rb;
    if ta.len() < tb.len() {
        assert(x[(p.len() + ta.len()) as int] == sep);
        assert(y[(p.len() + ta.len()) as int] == tb[ta.len() as int]);
    } else if tb.len() < ta.len() {
        assert(y[(p.len() + tb.len()) as int] == sep);
        assert(x[(p.len() + tb.len()) as int] == ta[tb.len() as int]);
    }
    assert(ta.len() == tb.len());
    assert(ta =~= x.subrange(p.len() as int, (p.len() + ta.len()) as int));
    assert(tb =~= y.subrange(p.len() as int, (p.len() + tb.len()) as int));
    int_text_injective(a, b);
    assert(ra =~= x.skip((p.len() + ta.len() + 1) as int));
    assert(rb =~= y.skip((p.len() + tb.len() + 1) as int));
}

/// A text made of a common start, a natural number and a common end gives
/// back the number.
pub proof fn number_between(q: Seq<char>, a: nat, b: nat, l: Seq<char>)
    requires
        q + nat_text(a) + l == q + nat_text(b) + l,
    ensures
        a == b,
{
    let x = q + nat_text(a) + l;
    assert(x.len() == (q + nat_text(b) + l).len());
    assert(nat_text(a).len() == nat_text(b).len());
    assert(nat_text(a) =~= x.subrange(q.len() as int, (q.len() + nat_text(a).len()) as int));
    assert(nat_text(b) =~= (q + nat_text(b) + l).subrange(q.len() as int, (q.len() + nat_text(b).len()) as int));
    nat_text_injective(a, b);
}

} // verus!
