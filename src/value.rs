//! The tagged value representation shared by generated code and runtime.
use vstd::prelude::*;

use crate::text::{all_digits, decimal, decimal_value, digit_value, digits_value, is_digit, push_decimal};

verus! {

/// Smallest integer a program can hold.
pub const INT_MIN: i64 = -4611686018427387904;

/// Largest integer a program can hold.
pub const INT_MAX: i64 = 4611686018427387903;

/// The tagged representation of `false`.
pub const FALSE_VAL: i64 = 3;

/// The tagged representation of `true`.
pub const TRUE_VAL: i64 = 7;

/// The tagged representation of the empty tuple.
pub const NIL_VAL: i64 = 1;

pub open spec fn in_range(n: int) -> bool {
    INT_MIN <= n <= INT_MAX
}

/// What a tagged word stands for.
pub enum Value {
    Int(i64),
    Bool(bool),
    Nil,
    /// A tuple whose header word lives at this byte address.
    Tuple(i64),
}

/// A word that follows the tagging rules.
pub open spec fn is_tagged(v: i64) -> bool {
    v % 2 == 0 || v == FALSE_VAL || v == TRUE_VAL || v % 8 == 1
}

pub open spec fn decode(v: i64) -> Value {
    if v % 2 == 0 {
        Value::Int((v / 2) as i64)
    } else if v == TRUE_VAL {
        Value::Bool(true)
    } else if v == FALSE_VAL {
        Value::Bool(false)
    } else if v == NIL_VAL {
        Value::Nil
    } else {
        Value::Tuple((v - 1) as i64)
    }
}

/// A value that has a tagged word: integers in range, and tuple addresses
/// that are 8-byte aligned (other than the null address).
pub open spec fn encodable(x: Value) -> bool {
    match x {
        Value::Int(n) => in_range(n as int),
        Value::Tuple(a) => a % 8 == 0 && a != 0 && a < i64::MAX,
        _ => true,
    }
}

pub open spec fn encode(x: Value) -> int {
    match x {
        Value::Int(n) => 2 * n,
        Value::Bool(b) => if b { TRUE_VAL as int } else { FALSE_VAL as int },
        Value::Nil => NIL_VAL as int,
        Value::Tuple(a) => a + 1,
    }
}

/// Decoding a tagged word and encoding the result gives the word back, and
/// encoding a value gives a tagged word that decodes to that value.
pub proof fn lemma_tag_round_trip(v: i64, x: Value)
    ensures
        is_tagged(v) ==> encode(decode(v)) == v as int,
        is_tagged(v) ==> encodable(decode(v)),
        encodable(x) ==> i64::MIN <= encode(x) <= i64::MAX,
        encodable(x) ==> is_tagged(encode(x) as i64),
        encodable(x) ==> decode(encode(x) as i64) == x,
{
}

/// What `add`, `sub` or `imul` leave in a register: the exact result, or
/// `None` where the processor sets the overflow flag.
pub open spec fn machine_result(r: int) -> Option<i64> {
    if i64::MIN <= r <= i64::MAX {
        Some(r as i64)
    } else {
        None
    }
}

/// Tagged arithmetic as generated code performs it. For `+` and `-` the
/// tagged operands are added or subtracted as they are; for `*` the left
/// operand is first shifted right by one. In each case the machine result is
/// the tagged true result when that lies in range, and an overflow otherwise.
pub proof fn lemma_arith_faithful(a: i64, b: i64)
    requires
        in_range(a as int),
        in_range(b as int),
    ensures
        machine_result(2 * a + 2 * b) == if in_range(a + b) {
            Some((2 * (a + b)) as i64)
        } else {
            None::<i64>
        },
        machine_result(2 * a - 2 * b) == if in_range(a - b) {
            Some((2 * (a - b)) as i64)
        } else {
            None::<i64>
        },
        (2 * a) / 2 == a,
        machine_result(((2 * a) / 2) * (2 * b)) == if in_range(a * b) {
            Some((2 * (a * b)) as i64)
        } else {
            None::<i64>
        },
{
    assert((2 * a) / 2 == a);
    assert(a * (2 * b) == 2 * (a * b)) by (nonlinear_arith);
}

/// The word that the runtime hands to a program for its command-line
/// argument: `true`, `false`, or a decimal integer in range.
pub open spec fn input_spec(s: Seq<char>) -> Option<i64> {
    if s == "true"@ {
        Some(TRUE_VAL)
    } else if s == "false"@ {
        Some(FALSE_VAL)
    } else {
        match decimal_value(s) {
            Some(n) => if in_range(n) {
                Some((2 * n) as i64)
            } else {
                None
            },
            None => None,
        }
    }
}

/// The text of the error that the runtime reports for an error code.
pub open spec fn error_text(code: i64) -> Seq<char> {
    if code == 1 {
        "invalid argument"@
    } else if code == 2 {
        "overflow"@
    } else if code == 3 {
        "index out of range"@
    } else {
        "error code "@ + decimal(code as int)
    }
}

/// The whole line that the runtime writes to stderr for an error code.
pub open spec fn error_line(code: i64) -> Seq<char> {
    "an error ocurred "@ + error_text(code)
}

proof fn lemma_digits_prefix(t: Seq<char>, k: int)
    requires
        0 <= k <= t.len(),
        forall|i: int| 0 <= i < t.len() ==> is_digit(#[trigger] t[i]),
    ensures
        digits_value(t) >= digits_value(t.take(k)) >= 0,
    decreases t.len(),
{
    if t.len() > 0 {
        if k == t.len() {
            assert(t.take(k) =~= t);
            lemma_digits_prefix(t.drop_last(), k - 1);
        } else {
            lemma_digits_prefix(t.drop_last(), k);
            assert(t.drop_last().take(k) =~= t.take(k));
        }
    } else {
        assert(t.take(k) =~= t);
    }
}

/// Whether two strings hold the same characters.
pub fn str_equal(a: &str, b: &str) -> (r: bool)
    ensures
        r == (a@ == b@),
{
    let n = a.unicode_len();
    if n != b.unicode_len() {
        return false;
    }
    let mut i: usize = 0;
    while i < n
        invariant
            n == a@.len(),
            n == b@.len(),
            i <= n,
            forall|j: int| 0 <= j < i ==> a@[j] == b@[j],
        decreases n - i,
    {
        if a.get_char(i) != b.get_char(i) {
            return false;
        }
        i = i + 1;
    }
    assert(a@ =~= b@);
    true
}

/// Reads the digits of `s` from `start` on: their value, where all of them
/// are digits and the value is at most 2^62.
fn read_digits(s: &str, start: usize) -> (r: Option<u64>)
    requires
        start <= s@.len(),
    ensures
        r matches Some(v) ==> all_digits(s@.skip(start as int)) && v as int == digits_value(
            s@.skip(start as int),
        ) && v <= 4611686018427387904,
        r is None ==> !(all_digits(s@.skip(start as int)) && digits_value(s@.skip(start as int))
            <= 4611686018427387904),
{
    let n = s.unicode_len();
    let ghost t = s@.skip(start as int);
    if start == n {
        return None;
    }
    let mut acc: u64 = 0;
    let mut i: usize = start;
    while i < n
        invariant
            n == s@.len(),
            start < n,
            t == s@.skip(start as int),
            start <= i <= n,
            forall|j: int| 0 <= j < i - start ==> is_digit(#[trigger] t[j]),
            acc as int == digits_value(t.take(i - start)),
            acc <= 4611686018427387904,
        decreases n - i,
    {
        let c = s.get_char(i);
        if !('0' <= c && c <= '9') {
            assert(t[i - start] == c);
            return None;
        }
        let d = (c as u32 - '0' as u32) as u128;
        let nv: u128 = acc as u128 * 10 + d;
        proof {
            let p = t.take(i + 1 - start);
            assert(p.drop_last() =~= t.take(i - start));
            assert(p.last() == c);
            assert(digits_value(p) == 10 * digits_value(p.drop_last()) + digit_value(p.last()));
        }
        if nv > 4611686018427387904 {
            proof {
                if all_digits(t) {
                    lemma_digits_prefix(t, i + 1 - start);
                }
            }
            return None;
        }
        acc = nv as u64;
        i = i + 1;
    }
    assert(t.take(n - start) =~= t);
    Some(acc)
}

/// The tagged word for a command-line argument, or `None` where the runtime
/// refuses it.
pub fn input_value(input: &str) -> (r: Option<i64>)
    ensures
        r == input_spec(input@),
{
    if str_equal(input, "true") {
        return Some(TRUE_VAL);
    }
    if str_equal(input, "false") {
        return Some(FALSE_VAL);
    }
    let n = input.unicode_len();
    if n == 0 {
        return None;
    }
    let c = input.get_char(0);
    let negative = c == '-';
    let start: usize = if c == '-' || c == '+' {
        1
    } else {
        0
    };
    proof {
        assert(!is_digit('-') && !is_digit('+'));
        if start == 0 {
            assert(input@.skip(0) =~= input@);
        }
    }
    match read_digits(input, start) {
        Some(v) => {
            let w = v as i64;
            if negative {
                Some(-w - w)
            } else if v <= 4611686018427387903 {
                Some(w + w)
            } else {
                None
            }
        },
        None => None,
    }
}

/// The tagged word for a command-line argument that the runtime accepts.
pub fn parse_input(input: &str) -> (r: i64)
    requires
        input_spec(input@) is Some,
    ensures
        input_spec(input@) == Some(r),
{
    match input_value(input) {
        Some(v) => v,
        None => 0,
    }
}

/// The text of the error for an error code.
pub fn error_message(code: i64) -> (r: String)
    ensures
        r@ == error_text(code),
{
    if code == 1 {
        String::from_str("invalid argument")
    } else if code == 2 {
        String::from_str("overflow")
    } else if code == 3 {
        String::from_str("index out of range")
    } else {
        let mut s = String::from_str("error code ");
        push_decimal(&mut s, code);
        s
    }
}

/// The line that the runtime writes to stderr before it exits on an error.
pub fn error_report(code: i64) -> (r: String)
    ensures
        r@ == error_line(code),
{
    let mut s = String::from_str("an error ocurred ");
    let m = error_message(code);
    s.append(m.as_str());
    s
}

} // verus!
