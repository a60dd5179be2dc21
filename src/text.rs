//! Decimal text for integers, in both directions.
use vstd::prelude::*;

verus! {

pub open spec fn digit_char(d: int) -> char {
    if d == 0 {
        '0'
    } else if d == 1 {
        '1'
    } else if d == 2 {
        '2'
    } else if d == 3 {
        '3'
    } else if d == 4 {
        '4'
    } else if d == 5 {
        '5'
    } else if d == 6 {
        '6'
    } else if d == 7 {
        '7'
    } else if d == 8 {
        '8'
    } else {
        '9'
    }
}

pub open spec fn is_digit(c: char) -> bool {
    '0' <= c <= '9'
}

pub open spec fn digit_value(c: char) -> int {
    c as int - '0' as int
}

/// The digits of a natural number, most significant first, without leading
/// zeros.
pub open spec fn nat_digits(n: nat) -> Seq<char>
    decreases n,
{
    if n < 10 {
        seq![digit_char(n as int)]
    } else {
        nat_digits(n / 10).push(digit_char((n % 10) as int))
    }
}

/// The decimal text of an integer: a minus sign for negatives, then digits.
pub open spec fn decimal(n: int) -> Seq<char> {
    if n < 0 {
        seq!['-'] + nat_digits((-n) as nat)
    } else {
        nat_digits(n as nat)
    }
}

pub open spec fn all_digits(s: Seq<char>) -> bool {
    s.len() > 0 && forall|i: int| 0 <= i < s.len() ==> is_digit(#[trigger] s[i])
}

/// The number that a string of digits denotes.
pub open spec fn digits_value(s: Seq<char>) -> int
    decreases s.len(),
{
    if s.len() == 0 {
        0
    } else {
        10 * digits_value(s.drop_last()) + digit_value(s.last())
    }
}

/// The integer that text in Rust's decimal integer syntax denotes: an
/// optional `+` or `-` sign followed by at least one ASCII digit.
pub open spec fn decimal_value(s: Seq<char>) -> Option<int> {
    if s.len() > 0 && s[0] == '-' && all_digits(s.skip(1)) {
        Some(-digits_value(s.skip(1)))
    } else if s.len() > 0 && s[0] == '+' && all_digits(s.skip(1)) {
        Some(digits_value(s.skip(1)))
    } else if all_digits(s) {
        Some(digits_value(s))
    } else {
        None
    }
}

proof fn lemma_digit_char(d: int)
    requires
        0 <= d < 10,
    ensures
        is_digit(digit_char(d)),
        digit_value(digit_char(d)) == d,
{
}

/// The digits of `n` are digits, and they denote `n`.
pub proof fn lemma_nat_digits(n: nat)
    ensures
        all_digits(nat_digits(n)),
        digits_value(nat_digits(n)) == n,
    decreases n,
{
    if n < 10 {
        lemma_digit_char(n as int);
        assert(nat_digits(n).drop_last() =~= Seq::<char>::empty());
        assert(digits_value(nat_digits(n)) == 10 * digits_value(nat_digits(n).drop_last())
            + digit_value(nat_digits(n).last()));
    } else {
        lemma_nat_digits(n / 10);
        lemma_digit_char((n % 10) as int);
        let s = nat_digits(n);
        assert(s.drop_last() =~= nat_digits(n / 10));
        assert(s.last() == digit_char((n % 10) as int));
        assert(digits_value(s) == 10 * digits_value(s.drop_last()) + digit_value(s.last()));
        assert(n == 10 * (n / 10) + n % 10);
        assert forall|i: int| 0 <= i < s.len() implies is_digit(#[trigger] s[i]) by {
            if i < s.len() - 1 {
                assert(s[i] == nat_digits(n / 10)[i]);
            }
        }
    }
}

/// Reading back the decimal text of an integer gives that integer.
pub proof fn lemma_decimal_round_trip(n: int)
    ensures
        decimal_value(decimal(n)) == Some(n),
        decimal(n).len() > 0,
        decimal(n)[0] == '-' || is_digit(decimal(n)[0]),
{
    if n < 0 {
        let d = nat_digits((-n) as nat);
        lemma_nat_digits((-n) as nat);
        assert(decimal(n).skip(1) =~= d);
        assert(!is_digit('-'));
    } else {
        let d = nat_digits(n as nat);
        lemma_nat_digits(n as nat);
        assert(is_digit(d[0]));
    }
}

fn digit_str(d: u64) -> (r: &'static str)
    requires
        d < 10,
    ensures
        r@ == seq![digit_char(d as int)],
{
    proof {
        reveal_strlit("0");
        reveal_strlit("1");
        reveal_strlit("2");
        reveal_strlit("3");
        reveal_strlit("4");
        reveal_strlit("5");
        reveal_strlit("6");
        reveal_strlit("7");
        reveal_strlit("8");
        reveal_strlit("9");
    }
    if d == 0 {
        "0"
    } else if d == 1 {
        "1"
    } else if d == 2 {
        "2"
    } else if d == 3 {
        "3"
    } else if d == 4 {
        "4"
    } else if d == 5 {
        "5"
    } else if d == 6 {
        "6"
    } else if d == 7 {
        "7"
    } else if d == 8 {
        "8"
    } else {
        "9"
    }
}

/// Appends the digits of `n`.
pub fn push_nat_digits(out: &mut String, n: u64)
    ensures
        final(out)@ == old(out)@ + nat_digits(n as nat),
    decreases n,
{
    if n >= 10 {
        push_nat_digits(out, n / 10);
    }
    out.append(digit_str(n % 10));
    proof {
        if n >= 10 {
            assert(nat_digits(n as nat) == nat_digits((n / 10) as nat).push(digit_char((n % 10) as int)));
        }
    }
    assert(final(out)@ =~= old(out)@ + nat_digits(n as nat));
}

/// Appends the decimal text of `n`.
pub fn push_decimal(out: &mut String, n: i64)
    ensures
        final(out)@ == old(out)@ + decimal(n as int),
{
    if n < 0 {
        out.append("-");
        proof {
            reveal_strlit("-");
        }
        let m: u64 = if n == i64::MIN {
            9223372036854775808u64
        } else {
            (-n) as u64
        };
        push_nat_digits(out, m);
        assert(final(out)@ =~= old(out)@ + decimal(n as int));
    } else {
        push_nat_digits(out, n as u64);
    }
}

/// The decimal text of `n`.
pub fn decimal_string(n: i64) -> (r: String)
    ensures
        r@ == decimal(n as int),
{
    let mut s = String::new();
    push_decimal(&mut s, n);
    assert(s@ =~= decimal(n as int));
    s
}

} // verus!
