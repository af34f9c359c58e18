//! Decimal text of unsigned integers: printing (`u64::to_string`) and
//! reading (`u64::from_str`).
use vstd::prelude::*;

use crate::text;

verus! {

/// `c` is an ASCII digit.
pub open spec fn is_digit(c: char) -> bool {
    48 <= (c as u32) <= 57
}

/// The character of digit `d` (`d < 10`).
pub open spec fn digit_char(d: nat) -> char {
    ((d + 48) as u8) as char
}

/// The value of a text of decimal digits (0 for the empty text).
pub open spec fn digits_value(s: Seq<char>) -> nat
    decreases s.len(),
{
    if s.len() == 0 {
        0
    } else {
        digits_value(s.drop_last()) * 10 + ((s.last() as u32) - 48) as nat
    }
}

/// The text is nonempty and made of digits only.
pub open spec fn all_digits(s: Seq<char>) -> bool {
    s.len() > 0 && forall|i: int| 0 <= i < s.len() ==> is_digit(#[trigger] s[i])
}

/// What `u64::from_str` accepts: an optional `+`, then one or more digits
/// whose value fits in a `u64`.
pub open spec fn spec_parse_u64(s: Seq<char>) -> Option<u64> {
    let d = if s.len() > 0 && s[0] == '+' {
        s.drop_first()
    } else {
        s
    };
    if all_digits(d) && digits_value(d) <= u64::MAX {
        Some(digits_value(d) as u64)
    } else {
        None
    }
}

/// The shortest decimal text of `n` (`u64::to_string`).
pub open spec fn decimal(n: nat) -> Seq<char>
    decreases n,
{
    if n < 10 {
        seq![digit_char(n)]
    } else {
        decimal(n / 10).push(digit_char(n % 10))
    }
}

fn digit_to_char(d: u64) -> (c: char)
    requires
        d < 10,
    ensures
        c == digit_char(d as nat),
        c as u32 == d + 48,
{
    let b: u8 = (d + 48) as u8;
    b as char
}

fn decimal_chars(n: u64) -> (out: Vec<char>)
    ensures
        out@ == decimal(n as nat),
    decreases n,
{
    if n < 10 {
        let v = vec![digit_to_char(n)];
        assert(v@ =~= decimal(n as nat));
        v
    } else {
        let mut v = decimal_chars(n / 10);
        v.push(digit_to_char(n % 10));
        v
    }
}

/// The decimal text of `n`.
pub fn u64_to_decimal(n: u64) -> (out: String)
    ensures
        out@ == decimal(n as nat),
{
    text::string_from(&decimal_chars(n))
}

proof fn lemma_digits_prefix_le(s: Seq<char>, j: int)
    requires
        0 <= j <= s.len(),
    ensures
        digits_value(s.take(j)) <= digits_value(s),
    decreases s.len(),
{
    if j < s.len() {
        lemma_digits_prefix_le(s.drop_last(), j);
        assert(s.drop_last().take(j) =~= s.take(j));
    } else {
        assert(s.take(j) =~= s);
    }
}

/// Reads a `u64` as `u64::from_str` does; `None` where it returns an error.
pub fn parse_u64(s: &Vec<char>) -> (r: Option<u64>)
    ensures
        r == spec_parse_u64(s@),
{
    let start: usize = if s.len() > 0 && s[0] == '+' {
        1
    } else {
        0
    };
    let ghost d = if s@.len() > 0 && s@[0] == '+' {
        s@.drop_first()
    } else {
        s@
    };
    assert(d =~= s@.skip(start as int));
    if start >= s.len() {
        return None;
    }
    let mut acc: u64 = 0;
    let mut i: usize = start;
    assert(d.take(0) =~= Seq::<char>::empty());
    while i < s.len()
        invariant
            start <= i <= s.len(),
            d == s@.skip(start as int),
            d == (if s@.len() > 0 && s@[0] == '+' {
                s@.drop_first()
            } else {
                s@
            }),
            acc as nat == digits_value(d.take(i - start)),
            forall|k: int| 0 <= k < i - start ==> is_digit(#[trigger] d[k]),
        decreases s.len() - i,
    {
        let c = s[i];
        let u = c as u32;
        assert(d[i - start] == c);
        if u < 48 || u > 57 {
            assert(!is_digit(d[i - start]));
            return None;
        }
        let dv: u64 = (u - 48) as u64;
        assert(d.take(i - start + 1).drop_last() =~= d.take(i - start));
        assert(digits_value(d.take(i - start + 1)) == digits_value(d.take(i - start)) * 10 + dv);
        if acc > (u64::MAX - dv) / 10 {
            assert(digits_value(d.take(i - start + 1)) > u64::MAX) by (nonlinear_arith)
                requires
                    acc > (u64::MAX - dv) / 10,
                    digits_value(d.take(i - start + 1)) == acc * 10 + dv,
                    dv < 10,
            ;
            proof {
                lemma_digits_prefix_le(d, i - start + 1);
            }
            return None;
        }
        assert(acc * 10 + dv <= u64::MAX) by (nonlinear_arith)
            requires
                acc <= (u64::MAX - dv) / 10,
                dv < 10,
        ;
        acc = acc * 10 + dv;
        i = i + 1;
    }
    assert(d.take(i - start) =~= d);
    Some(acc)
}

proof fn lemma_digit_char(d: nat)
    requires
        d < 10,
    ensures
        digit_char(d) as u32 == d + 48,
        is_digit(digit_char(d)),
{
    let b = (d + 48) as u8;
    assert(b == d + 48);
    assert((b as char) as u32 == b);
}

/// Reading back the decimal text of a number gives the number.
pub proof fn lemma_parse_decimal(n: u64)
    ensures
        spec_parse_u64(decimal(n as nat)) == Some(n),
{
    lemma_decimal_digits(n as nat);
    let s = decimal(n as nat);
    assert(s[0] != '+') by {
        assert(is_digit(s[0]));
    }
}

/// The decimal text of `n` is made of digits, and its value is `n`.
pub proof fn lemma_decimal_digits(n: nat)
    ensures
        all_digits(decimal(n)),
        digits_value(decimal(n)) == n,
    decreases n,
{
    if n < 10 {
        lemma_digit_char(n);
        let s = decimal(n);
        assert(s.drop_last() =~= Seq::<char>::empty());
        assert(digits_value(s.drop_last()) == 0);
        assert(s.last() == digit_char(n));
        assert(digits_value(s) == digits_value(s.drop_last()) * 10 + ((s.last() as u32) - 48) as nat);
    } else {
        lemma_decimal_digits(n / 10);
        lemma_digit_char(n % 10);
        assert(n == (n / 10) * 10 + n % 10);
        let s = decimal(n);
        assert(s.drop_last() =~= decimal(n / 10));
        assert(s.last() == digit_char(n % 10));
        assert(digits_value(s) == digits_value(s.drop_last()) * 10 + ((s.last() as u32) - 48) as nat);
        assert forall|i: int| 0 <= i < s.len() implies is_digit(#[trigger] s[i]) by {
            if i < s.len() - 1 {
                assert(s[i] == decimal(n / 10)[i]);
            }
        }
    }
}

/// The decimal text of a signed number (`i64::to_string`).
pub open spec fn signed_decimal(n: int) -> Seq<char> {
    if n < 0 {
        seq!['-'] + decimal((-n) as nat)
    } else {
        decimal(n as nat)
    }
}

/// The decimal text of `n`.
pub fn i64_to_decimal(n: i64) -> (out: String)
    ensures
        out@ == signed_decimal(n as int),
{
    if n < 0 {
        let m: u64 = if n == i64::MIN {
            9223372036854775808u64
        } else {
            (-n) as u64
        };
        let mut s = String::new();
        text::string_push(&mut s, '-');
        let d = decimal_chars(m);
        text::push_chars(&mut s, &d);
        assert(s@ =~= signed_decimal(n as int));
        s
    } else {
        u64_to_decimal(n as u64)
    }
}

/// The signed number an integer text names, when it fits in an `i64`:
/// an optional `-` followed by one or more digits.
pub open spec fn spec_parse_i64(s: Seq<char>) -> Option<i64> {
    if s.len() > 0 && s[0] == '-' {
        let d = s.drop_first();
        if all_digits(d) && digits_value(d) <= 9223372036854775808 {
            Some((0 - digits_value(d)) as i64)
        } else {
            None
        }
    } else if all_digits(s) && digits_value(s) <= i64::MAX {
        Some(digits_value(s) as i64)
    } else {
        None
    }
}

/// The value of a text of digits, when it is at most `limit`.
fn digits_at_most(s: &Vec<char>, start: usize, limit: u64) -> (r: Option<u64>)
    requires
        start <= s.len(),
    ensures
        match r {
            Some(v) => all_digits(s@.skip(start as int)) && v == digits_value(s@.skip(start as int))
                && v <= limit,
            None => !(all_digits(s@.skip(start as int)) && digits_value(s@.skip(start as int))
                <= limit),
        },
{
    let ghost d = s@.skip(start as int);
    if start >= s.len() {
        return None;
    }
    let mut acc: u64 = 0;
    let mut i: usize = start;
    assert(d.take(0) =~= Seq::<char>::empty());
    while i < s.len()
        invariant
            start <= i <= s.len(),
            d == s@.skip(start as int),
            acc as nat == digits_value(d.take(i - start)),
            acc <= limit,
            forall|k: int| 0 <= k < i - start ==> is_digit(#[trigger] d[k]),
        decreases s.len() - i,
    {
        let c = s[i];
        let u = c as u32;
        assert(d[i - start] == c);
        if u < 48 || u > 57 {
            assert(!is_digit(d[i - start]));
            return None;
        }
        let dv: u64 = (u - 48) as u64;
        assert(d.take(i - start + 1).drop_last() =~= d.take(i - start));
        assert(digits_value(d.take(i - start + 1)) == digits_value(d.take(i - start)) * 10 + dv);
        if dv > limit || acc > (limit - dv) / 10 {
            assert(digits_value(d.take(i - start + 1)) > limit) by (nonlinear_arith)
                requires
                    dv > limit || acc > (limit - dv) / 10,
                    digits_value(d.take(i - start + 1)) == acc * 10 + dv,
                    dv < 10,
            ;
            proof {
                lemma_digits_prefix_le(d, i - start + 1);
            }
            return None;
        }
        assert(acc * 10 + dv <= limit) by (nonlinear_arith)
            requires
                acc <= (limit - dv) / 10,
                dv <= limit,
        ;
        acc = acc * 10 + dv;
        i = i + 1;
    }
    assert(d.take(i - start) =~= d);
    Some(acc)
}

/// Reads a signed integer text (see `spec_parse_i64`).
pub fn parse_i64(s: &Vec<char>) -> (r: Option<i64>)
    ensures
        r == spec_parse_i64(s@),
{
    if s.len() > 0 && s[0] == '-' {
        assert(s@.skip(1) =~= s@.drop_first());
        match digits_at_most(s, 1, 9223372036854775808u64) {
            Some(v) => {
                if v == 9223372036854775808u64 {
                    Some(i64::MIN)
                } else {
                    Some(-(v as i64))
                }
            },
            None => None,
        }
    } else {
        assert(s@.skip(0) =~= s@);
        match digits_at_most(s, 0, 9223372036854775807u64) {
            Some(v) => Some(v as i64),
            None => None,
        }
    }
}

} // verus!
