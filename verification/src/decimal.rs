//! Decimal rendering of integers, as used in file names and record keys.

use vstd::prelude::*;
use vstd::string::*;

verus! {

/// The character of one decimal digit.
pub open spec fn digit_char(d: int) -> char {
    if d == 0 {
        '0'
    } else if d == 1 {
        '1'
    } else if d == 2 {
        '2'
    } else if d == 3 {
        '3'
    } else if d == 4 {
        '4'
    } else if d == 5 {
        '5'
    } else if d == 6 {
        '6'
    } else if d == 7 {
        '7'
    } else if d == 8 {
        '8'
    } else {
        '9'
    }
}

/// Whether `c` is one of `'0'` to `'9'`.
pub open spec fn is_digit(c: char) -> bool {
    exists|d: int| 0 <= d < 10 && #[trigger] digit_char(d) == c
}

/// Whether every character of `s` is a decimal digit.
pub open spec fn all_digits(s: Seq<char>) -> bool {
    forall|i: int| 0 <= i < s.len() ==> is_digit(#[trigger] s[i])
}

/// The decimal digits of a natural number, most significant first, without
/// leading zeros (zero itself is `"0"`).
pub open spec fn decimal_nat(n: nat) -> Seq<char>
    decreases n,
{
    if n < 10 {
        seq![digit_char(n as int)]
    } else {
        decimal_nat(n / 10).push(digit_char((n % 10) as int))
    }
}

/// The decimal text of an integer: a minus sign for negative numbers, then
/// the digits of the magnitude.
pub open spec fn decimal_int(i: int) -> Seq<char> {
    if i < 0 {
        seq!['-'] + decimal_nat((-i) as nat)
    } else {
        decimal_nat(i as nat)
    }
}

/// The digits of a number are digits, and there is at least one; a number of
/// two or more digits is ten or more.
pub proof fn lemma_decimal_nat_shape(n: nat)
    ensures
        decimal_nat(n).len() >= 1,
        all_digits(decimal_nat(n)),
        n >= 10 <==> decimal_nat(n).len() >= 2,
    decreases n,
{
    if n < 10 {
        assert(is_digit(digit_char(n as int)));
    } else {
        lemma_decimal_nat_shape(n / 10);
        let head = decimal_nat(n / 10);
        let last = digit_char((n % 10) as int);
        assert(is_digit(last));
        assert forall|i: int| 0 <= i < head.push(last).len() implies is_digit(
            #[trigger] head.push(last)[i],
        ) by {
            if i < head.len() {
                assert(head.push(last)[i] == head[i]);
            }
        }
    }
}

/// Different digits have different characters.
pub proof fn lemma_digit_char_injective(a: int, b: int)
    requires
        0 <= a < 10,
        0 <= b < 10,
        digit_char(a) == digit_char(b),
    ensures
        a == b,
{
}

/// Different numbers have different decimal digits.
pub proof fn lemma_decimal_nat_injective(a: nat, b: nat)
    requires
        decimal_nat(a) == decimal_nat(b),
    ensures
        a == b,
    decreases a,
{
    lemma_decimal_nat_shape(a);
    lemma_decimal_nat_shape(b);
    if a < 10 {
        assert(decimal_nat(a)[0] == digit_char(a as int));
        assert(decimal_nat(b)[0] == digit_char(b as int));
        lemma_digit_char_injective(a as int, b as int);
    } else {
        let ha = decimal_nat(a / 10);
        let hb = decimal_nat(b / 10);
        let la = digit_char((a % 10) as int);
        let lb = digit_char((b % 10) as int);
        assert(ha.push(la) == hb.push(lb));
        assert(ha.push(la).last() == la);
        assert(hb.push(lb).last() == lb);
        assert(ha =~= ha.push(la).drop_last());
        assert(hb =~= hb.push(lb).drop_last());
        lemma_digit_char_injective((a % 10) as int, (b % 10) as int);
        lemma_decimal_nat_injective(a / 10, b / 10);
    }
}

/// The minus sign is no digit.
pub proof fn lemma_minus_is_no_digit()
    ensures
        !is_digit('-'),
{
}

/// A common ending can be struck from two equal texts.
pub proof fn lemma_strike_ending(a: Seq<char>, b: Seq<char>, ending: Seq<char>)
    requires
        a + ending == b + ending,
    ensures
        a == b,
{
    assert((a + ending).len() == a.len() + ending.len());
    assert((b + ending).len() == b.len() + ending.len());
    assert(a =~= (a + ending).subrange(0, a.len() as int));
    assert(b =~= (b + ending).subrange(0, b.len() as int));
}

/// A text that ends in digits, behind a character that is no digit, splits
/// into the two parts in one way only.
pub proof fn lemma_digit_ending_unique(
    front_a: Seq<char>,
    digits_a: Seq<char>,
    front_b: Seq<char>,
    digits_b: Seq<char>,
)
    requires
        front_a + digits_a == front_b + digits_b,
        all_digits(digits_a),
        all_digits(digits_b),
        front_a.len() > 0,
        front_b.len() > 0,
        !is_digit(front_a.last()),
        !is_digit(front_b.last()),
    ensures
        front_a == front_b,
        digits_a == digits_b,
{
    let whole = front_a + digits_a;
    assert(whole.len() == front_a.len() + digits_a.len());
    assert((front_b + digits_b).len() == front_b.len() + digits_b.len());
    if front_a.len() < front_b.len() {
        let at = front_b.len() - 1;
        assert((front_b + digits_b)[at] == front_b.last());
        assert(whole[at] == digits_a[at - front_a.len()]);
        assert(is_digit(digits_a[at - front_a.len()]));
    } else if front_b.len() < front_a.len() {
        let at = front_a.len() - 1;
        assert(whole[at] == front_a.last());
        assert((front_b + digits_b)[at] == digits_b[at - front_b.len()]);
        assert(is_digit(digits_b[at - front_b.len()]));
    } else {
        assert(front_a =~= whole.subrange(0, front_a.len() as int));
        assert(front_b =~= (front_b + digits_b).subrange(0, front_b.len() as int));
        assert(digits_a =~= whole.subrange(front_a.len() as int, whole.len() as int));
        assert(digits_b =~= (front_b + digits_b).subrange(
            front_b.len() as int,
            whole.len() as int,
        ));
    }
}

/// Two texts that end in the decimal texts of two integers, each behind the
/// letter `L`, are equal only if the integers are.
pub proof fn lemma_number_ending_unique(front_a: Seq<char>, a: int, front_b: Seq<char>, b: int)
    requires
        front_a + seq!['L'] + decimal_int(a) == front_b + seq!['L'] + decimal_int(b),
    ensures
        a == b,
{
    let ma: nat = if a < 0 { (-a) as nat } else { a as nat };
    let mb: nat = if b < 0 { (-b) as nat } else { b as nat };
    let pa = if a < 0 { front_a + seq!['L'] + seq!['-'] } else { front_a + seq!['L'] };
    let pb = if b < 0 { front_b + seq!['L'] + seq!['-'] } else { front_b + seq!['L'] };
    lemma_decimal_nat_shape(ma);
    lemma_decimal_nat_shape(mb);
    lemma_minus_is_no_digit();
    assert(!is_digit('L'));
    assert(pa + decimal_nat(ma) =~= front_a + seq!['L'] + decimal_int(a));
    assert(pb + decimal_nat(mb) =~= front_b + seq!['L'] + decimal_int(b));
    lemma_digit_ending_unique(pa, decimal_nat(ma), pb, decimal_nat(mb));
    lemma_decimal_nat_injective(ma, mb);
    assert(pa.last() == pb.last());
}

/// The text of one decimal digit.
fn digit_text(d: u64) -> (text: &'static str)
    requires
        d < 10,
    ensures
        text@ == seq![digit_char(d as int)],
{
    proof {
        reveal_strlit("0");
        reveal_strlit("1");
        reveal_strlit("2");
        reveal_strlit("3");
        reveal_strlit("4");
        reveal_strlit("5");
        reveal_strlit("6");
        reveal_strlit("7");
        reveal_strlit("8");
        reveal_strlit("9");
    }
    let text = if d == 0 {
        "0"
    } else if d == 1 {
        "1"
    } else if d == 2 {
        "2"
    } else if d == 3 {
        "3"
    } else if d == 4 {
        "4"
    } else if d == 5 {
        "5"
    } else if d == 6 {
        "6"
    } else if d == 7 {
        "7"
    } else if d == 8 {
        "8"
    } else {
        "9"
    };
    assert(text@ =~= seq![digit_char(d as int)]);
    text
}

/// Appends the decimal digits of `n` to `out`.
pub fn push_decimal(out: &mut String, n: u64)
    ensures
        final(out)@ == old(out)@ + decimal_nat(n as nat),
    decreases n,
{
    if n >= 10 {
        push_decimal(out, n / 10);
    }
    out.append(digit_text(n % 10));
    assert(final(out)@ =~= old(out)@ + decimal_nat(n as nat));
}

/// Appends the decimal text of the signed number `n` to `out`.
pub fn push_signed_decimal(out: &mut String, n: i64)
    ensures
        final(out)@ == old(out)@ + decimal_int(n as int),
{
    if n < 0 {
        out.append("-");
        proof {
            reveal_strlit("-");
        }
        let magnitude: u64 = if n == i64::MIN {
            9223372036854775808u64
        } else {
            (-n) as u64
        };
        push_decimal(out, magnitude);
        assert(final(out)@ =~= old(out)@ + decimal_int(n as int));
    } else {
        push_decimal(out, n as u64);
    }
}

} // verus!
