//! Decimal integers as text: reading a number from characters and writing one
//! out.
use crate::text::chars_of;
use vstd::prelude::*;
use vstd::string::*;

verus! {

/// `c` is one of the ten ASCII digits.
pub open spec fn is_digit(c: char) -> bool {
    '0' <= c && c <= '9'
}

/// The digit that stands for `d`, for `d` from 0 to 9.
pub open spec fn digit_char(d: int) -> char {
    if d == 0 {
        '0'
    } else if d == 1 {
        '1'
    } else if d == 2 {
        '2'
    } else if d == 3 {
        '3'
    } else if d == 4 {
        '4'
    } else if d == 5 {
        '5'
    } else if d == 6 {
        '6'
    } else if d == 7 {
        '7'
    } else if d == 8 {
        '8'
    } else {
        '9'
    }
}

/// Every character of `s` is a digit.
pub open spec fn all_digits(s: Seq<char>) -> bool {
    forall|i: int| 0 <= i < s.len() ==> is_digit(#[trigger] s[i])
}

/// The number that a sequence of digits writes in base ten; 0 for none.
pub open spec fn digits_value(s: Seq<char>) -> int
    decreases s.len(),
{
    if s.len() == 0 {
        0
    } else {
        digits_value(s.drop_last()) * 10 + (s.last() as int - '0' as int)
    }
}

/// The number that `s` writes: an optional `+` or `-`, then one or more
/// digits and nothing else, with a value that an `isize` holds. `None` for any
/// other text.
pub open spec fn parsed_int(s: Seq<char>) -> Option<int> {
    let signed = s.len() > 0 && (s[0] == '-' || s[0] == '+');
    let digits = if signed {
        s.skip(1)
    } else {
        s
    };
    let value = if s.len() > 0 && s[0] == '-' {
        -digits_value(digits)
    } else {
        digits_value(digits)
    };
    if digits.len() > 0 && all_digits(digits) && isize::MIN <= value <= isize::MAX {
        Some(value)
    } else {
        None
    }
}

/// The digits of `n` in base ten, without leading zeros.
pub open spec fn nat_text(n: nat) -> Seq<char>
    decreases n,
{
    if n < 10 {
        seq![digit_char(n as int)]
    } else {
        nat_text(n / 10) + seq![digit_char((n % 10) as int)]
    }
}

/// The number `i` in base ten, with a leading `-` when it is negative.
pub open spec fn int_text(i: int) -> Seq<char> {
    if i < 0 {
        seq!['-'] + nat_text((-i) as nat)
    } else {
        nat_text(i as nat)
    }
}

/// The value of the digit `c`.
fn digit_value(c: char) -> (d: i128)
    requires
        is_digit(c),
    ensures
        d == c as int - '0' as int,
        0 <= d <= 9,
{
    if c == '0' {
        0
    } else if c == '1' {
        1
    } else if c == '2' {
        2
    } else if c == '3' {
        3
    } else if c == '4' {
        4
    } else if c == '5' {
        5
    } else if c == '6' {
        6
    } else if c == '7' {
        7
    } else if c == '8' {
        8
    } else {
        9
    }
}

/// The number that the characters of `chars` from `from` up to `to` write, as
/// `str::parse::<isize>` reads it.
pub fn parse_int(chars: &Vec<char>, from: usize, to: usize) -> (r: Option<isize>)
    requires
        from <= to <= chars.len(),
    ensures
        match r {
            Some(v) => parsed_int(chars@.subrange(from as int, to as int)) == Some(v as int),
            None => parsed_int(chars@.subrange(from as int, to as int)) is None,
        },
{
    let ghost s = chars@.subrange(from as int, to as int);
    if from == to {
        return None;
    }
    let first = chars[from];
    assert(first == s[0]);
    let negative = first == '-';
    let start: usize = if first == '-' || first == '+' {
        from + 1
    } else {
        from
    };
    let ghost digits = chars@.subrange(start as int, to as int);
    proof {
        if start == from {
            assert(digits =~= s);
        } else {
            assert(digits =~= s.skip(1));
        }
    }
    if start == to {
        return None;
    }
    let bound: i128 = if negative {
        isize::MAX as i128 + 1
    } else {
        isize::MAX as i128
    };
    let mut acc: i128 = 0;
    let mut i: usize = start;
    while i < to
        invariant
            start <= i <= to <= chars.len(),
            from <= to,
            digits == chars@.subrange(start as int, to as int),
            !all_digits(digits) ==> parsed_int(chars@.subrange(from as int, to as int)) is None,
            all_digits(digits.take(i - start)),
            0 <= bound <= isize::MAX + 1,
            0 <= acc <= bound + 1,
            acc == if digits_value(digits.take(i - start)) <= bound {
                digits_value(digits.take(i - start))
            } else {
                bound + 1
            },
        decreases to - i,
    {
        let c = chars[i];
        assert(c == digits[i - start]);
        if !(c >= '0' && c <= '9') {
            return None;
        }
        let d = digit_value(c);
        proof {
            let next = digits.take(i - start + 1);
            assert(next.drop_last() =~= digits.take(i - start));
            assert(next.last() == c);
        }
        acc = acc * 10 + d;
        if acc > bound {
            acc = bound + 1;
        }
        i += 1;
    }
    assert(digits.take(to - start) =~= digits);
    if acc > bound {
        return None;
    }
    if negative {
        Some((-acc) as isize)
    } else {
        Some(acc as isize)
    }
}

/// The number that `text` writes, as `str::parse::<isize>` reads it.
pub fn parse_number(text: &str) -> (r: Option<isize>)
    ensures
        match r {
            Some(v) => parsed_int(text@) == Some(v as int),
            None => parsed_int(text@) is None,
        },
{
    let chars = chars_of(text);
    assert(chars@.subrange(0, chars@.len() as int) =~= text@);
    parse_int(&chars, 0, chars.len())
}

/// The one-character text of the digit `d`.
fn digit_str(d: u8) -> (r: &'static str)
    requires
        d < 10,
    ensures
        r@ == seq![digit_char(d as int)],
{
    proof {
        reveal_strlit("0");
        reveal_strlit("1");
        reveal_strlit("2");
        reveal_strlit("3");
        reveal_strlit("4");
        reveal_strlit("5");
        reveal_strlit("6");
        reveal_strlit("7");
        reveal_strlit("8");
        reveal_strlit("9");
    }
    let r = if d == 0 {
        "0"
    } else if d == 1 {
        "1"
    } else if d == 2 {
        "2"
    } else if d == 3 {
        "3"
    } else if d == 4 {
        "4"
    } else if d == 5 {
        "5"
    } else if d == 6 {
        "6"
    } else if d == 7 {
        "7"
    } else if d == 8 {
        "8"
    } else {
        "9"
    };
    assert(r@ =~= seq![digit_char(d as int)]);
    r
}

/// Appends the digits of `n` to `out`.
fn append_nat(out: &mut String, n: u128)
    ensures
        final(out)@ == old(out)@ + nat_text(n as nat),
    decreases n,
{
    if n >= 10 {
        append_nat(out, n / 10);
    }
    out.append(digit_str((n % 10) as u8));
    assert(out@ =~= old(out)@ + nat_text(n as nat));
}

/// The number `i` written in base ten.
pub fn int_to_string(i: isize) -> (r: String)
    ensures
        r@ == int_text(i as int),
{
    let mut out = String::new();
    if i < 0 {
        proof {
            reveal_strlit("-");
        }
        out.append("-");
        assert(out@ =~= seq!['-']);
        let magnitude: u128 = (-(i as i128)) as u128;
        append_nat(&mut out, magnitude);
    } else {
        append_nat(&mut out, i as u128);
        assert(out@ =~= nat_text(i as nat));
    }
    out
}

} // verus!
