//! Decimal integers as ASCII text: the form in which the wire protocol writes
//! lengths and counts, and in which the store keeps its counters.

use vstd::prelude::*;
use vstd::string::*;
use vstd::utf8::*;

use crate::text::{ascii_text, lemma_ascii_encode};

verus! {

/// The ASCII code of `'-'`.
pub const MINUS: u8 = 45;

/// The ASCII code of `'+'`.
pub const PLUS: u8 = 43;

/// The byte is one of the digits `0` to `9`.
pub open spec fn is_digit(b: u8) -> bool {
    48 <= b <= 57
}

/// Every byte is a digit.
pub open spec fn all_digits(s: Seq<u8>) -> bool {
    forall|i: int| 0 <= i < s.len() ==> is_digit(#[trigger] s[i])
}

/// The number that a string of digits denotes, most significant digit first.
pub open spec fn digits_value(s: Seq<u8>) -> nat
    decreases s.len(),
{
    if s.len() == 0 {
        0
    } else {
        digits_value(s.drop_last()) * 10 + (s.last() - 48) as nat
    }
}

/// The integer that a decimal text denotes: an optional sign followed by one
/// or more digits. Anything else denotes nothing.
pub open spec fn decimal_value(s: Seq<u8>) -> Option<int> {
    if s.len() > 0 && (s[0] == 45 || s[0] == 43) {
        let body = s.subrange(1, s.len() as int);
        if body.len() > 0 && all_digits(body) {
            if s[0] == 45 {
                Some(-(digits_value(body) as int))
            } else {
                Some(digits_value(body) as int)
            }
        } else {
            None
        }
    } else if s.len() > 0 && all_digits(s) {
        Some(digits_value(s) as int)
    } else {
        None
    }
}

/// What `parse_i32` returns: the denoted integer, if there is one and it fits.
pub open spec fn i32_value(s: Seq<u8>) -> Option<i32> {
    match decimal_value(s) {
        Some(v) => if i32::MIN <= v <= i32::MAX {
            Some(v as i32)
        } else {
            None
        },
        None => None,
    }
}

/// The digits of a natural number, most significant first, without padding.
pub open spec fn nat_digits(n: nat) -> Seq<u8>
    decreases n,
{
    if n < 10 {
        seq![(48 + n) as u8]
    } else {
        nat_digits(n / 10).push((48 + n % 10) as u8)
    }
}

/// The canonical decimal text of an integer, as bytes.
pub open spec fn decimal_bytes(n: int) -> Seq<u8> {
    if n < 0 {
        seq![45u8] + nat_digits((-n) as nat)
    } else {
        nat_digits(n as nat)
    }
}

/// The canonical decimal text of an integer.
pub open spec fn decimal_text(n: int) -> Seq<char> {
    ascii_text(decimal_bytes(n))
}

/// The first digits of a number denote no more than all of them.
pub proof fn lemma_digits_value_prefix(s: Seq<u8>, k: int)
    requires
        0 <= k <= s.len(),
    ensures
        digits_value(s.subrange(0, k)) <= digits_value(s),
    decreases s.len() - k,
{
    if k < s.len() {
        lemma_digits_value_prefix(s, k + 1);
        let t = s.subrange(0, k + 1);
        assert(t.drop_last() =~= s.subrange(0, k));
    } else {
        assert(s.subrange(0, k) =~= s);
    }
}

/// The digits of a number are digits, at least one, and denote the number.
pub proof fn lemma_nat_digits(n: nat)
    ensures
        nat_digits(n).len() > 0,
        all_digits(nat_digits(n)),
        digits_value(nat_digits(n)) == n,
    decreases n,
{
    if n < 10 {
        let s = nat_digits(n);
        assert(s.drop_last() =~= Seq::<u8>::empty());
        assert(digits_value(s.drop_last()) == 0);
    } else {
        lemma_nat_digits(n / 10);
        let s = nat_digits(n);
        assert(s.drop_last() =~= nat_digits(n / 10));
        assert(s.last() == (48 + n % 10) as u8);
    }
}

/// Reading back the canonical text of an integer gives that integer.
pub proof fn lemma_decimal_round_trip(n: int)
    ensures
        decimal_value(decimal_bytes(n)) == Some(n),
{
    if n < 0 {
        let m = (-n) as nat;
        lemma_nat_digits(m);
        let s = decimal_bytes(n);
        assert(s.subrange(1, s.len() as int) =~= nat_digits(m));
    } else {
        lemma_nat_digits(n as nat);
    }
}

/// The bytes of a canonical decimal text are its digits and its sign; none of
/// them is a carriage return.
pub proof fn lemma_decimal_text_bytes(n: int)
    ensures
        encode_utf8(decimal_text(n)) == decimal_bytes(n),
        forall|j: int| 0 <= j < decimal_bytes(n).len() ==> decimal_bytes(n)[j] != 13,
        decimal_bytes(n).len() > 0,
{
    let d = decimal_bytes(n);
    if n < 0 {
        lemma_nat_digits((-n) as nat);
        let digits = nat_digits((-n) as nat);
        assert forall|j: int| 0 <= j < d.len() implies d[j] < 128 && d[j] != 13 by {
            if j > 0 {
                assert(d[j] == digits[j - 1]);
            }
        }
    } else {
        lemma_nat_digits(n as nat);
    }
    lemma_ascii_encode(d);
}

/// The text that the store keeps for a count reads back as that count.
pub proof fn lemma_text_round_trip(n: i32)
    ensures
        i32_value(encode_utf8(decimal_text(n as int))) == Some(n),
{
    lemma_decimal_text_bytes(n as int);
    lemma_decimal_round_trip(n as int);
}

/// Parses a signed decimal integer: an optional `+` or `-`, then one or more
/// digits, the whole within the range of `i32`.
pub fn parse_i32(s: &[u8]) -> (r: Option<i32>)
    ensures
        r == i32_value(s@),
{
    let n: usize = s.len();
    if n == 0 {
        return None;
    }
    let negative: bool = s[0] == MINUS;
    let start: usize = if s[0] == MINUS || s[0] == PLUS {
        1
    } else {
        0
    };
    if start == n {
        return None;
    }
    let ghost body = s@.subrange(start as int, n as int);
    let mut acc: i64 = 0;
    let mut i: usize = start;
    while i < n
        invariant
            start <= i <= n,
            0 < n == s@.len(),
            negative == (s@[0] == 45),
            start == if s@[0] == 45 || s@[0] == 43 { 1usize } else { 0usize },
            body == s@.subrange(start as int, n as int),
            all_digits(body.subrange(0, i - start)),
            acc == digits_value(body.subrange(0, i - start)),
            0 <= acc <= 2147483648,
        decreases n - i,
    {
        let b: u8 = s[i];
        if b < 48 || b > 57 {
            assert(!is_digit(body[i - start]));
            assert(start == 0 ==> body =~= s@);
            return None;
        }
        let ghost prev = body.subrange(0, i - start);
        let ghost next = body.subrange(0, i - start + 1);
        assert(next.drop_last() =~= prev);
        assert(next.last() == b);
        let d: i64 = (b - 48) as i64;
        let wide: i64 = acc * 10 + d;
        if wide > 2147483648 {
            proof {
                assert(start == 0 ==> body =~= s@);
                if all_digits(body) {
                    lemma_digits_value_prefix(body, i - start + 1);
                }
            }
            return None;
        }
        acc = wide;
        i = i + 1;
    }
    assert(body.subrange(0, n - start) =~= body);
    if start == 0 {
        assert(body =~= s@);
    }
    if negative {
        Some((-acc) as i32)
    } else if acc <= 2147483647 {
        Some(acc as i32)
    } else {
        None
    }
}

/// The one-character text of a decimal digit.
fn digit_str(d: u8) -> (r: &'static str)
    requires
        d < 10,
    ensures
        r@ == seq![(48 + d) as u8 as char],
{
    proof {
        reveal_strlit("0");
        reveal_strlit("1");
        reveal_strlit("2");
        reveal_strlit("3");
        reveal_strlit("4");
        reveal_strlit("5");
        reveal_strlit("6");
        reveal_strlit("7");
        reveal_strlit("8");
        reveal_strlit("9");
    }
    let r: &'static str = match d {
        0 => "0",
        1 => "1",
        2 => "2",
        3 => "3",
        4 => "4",
        5 => "5",
        6 => "6",
        7 => "7",
        8 => "8",
        _ => "9",
    };
    assert(r@ =~= seq![(48 + d) as u8 as char]);
    r
}

/// Appends the digits of `n` to `out`.
fn push_digits(out: &mut String, n: u64)
    ensures
        final(out)@ == old(out)@ + ascii_text(nat_digits(n as nat)),
    decreases n,
{
    if n >= 10 {
        push_digits(out, n / 10);
    }
    out.append(digit_str((n % 10) as u8));
    proof {
        let last = seq![(48 + n % 10) as u8 as char];
        if n >= 10 {
            assert(ascii_text(nat_digits(n as nat)) =~= ascii_text(nat_digits((n / 10) as nat))
                + last);
        } else {
            assert(ascii_text(nat_digits(n as nat)) =~= last);
        }
    }
}

/// The canonical decimal text of an unsigned integer.
pub fn unsigned_text(n: u64) -> (r: String)
    ensures
        r@ == decimal_text(n as int),
{
    let mut out = String::new();
    push_digits(&mut out, n);
    assert(out@ =~= decimal_text(n as int));
    out
}

/// The canonical decimal text of a signed integer.
pub fn signed_text(n: i32) -> (r: String)
    ensures
        r@ == decimal_text(n as int),
{
    let mut out = String::new();
    if n < 0 {
        proof {
            reveal_strlit("-");
        }
        out.append("-");
        let magnitude: u64 = (-(n as i64)) as u64;
        push_digits(&mut out, magnitude);
        assert(out@ =~= decimal_text(n as int));
    } else {
        push_digits(&mut out, n as u64);
        assert(out@ =~= decimal_text(n as int));
    }
    out
}

} // verus!
