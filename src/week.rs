use vstd::prelude::*;

verus! {

/// The decimal digit characters, in order of value.
pub open spec fn digit_chars() -> Seq<char> {
    seq!['0', '1', '2', '3', '4', '5', '6', '7', '8', '9']
}

/// The character of the decimal digit `d`.
pub open spec fn digit_char(d: nat) -> char
    recommends
        d < 10,
{
    digit_chars()[d as int]
}

/// The decimal text of a week number, without leading zeros.
pub open spec fn decimal(n: u8) -> Seq<char> {
    if n < 10 {
        seq![digit_char(n as nat)]
    } else if n < 100 {
        seq![digit_char((n / 10) as nat), digit_char((n % 10) as nat)]
    } else {
        seq![
            digit_char((n / 100) as nat),
            digit_char((n / 10 % 10) as nat),
            digit_char((n % 10) as nat),
        ]
    }
}

pub open spec fn is_digit(c: char) -> bool {
    '0' <= c && c <= '9'
}

pub open spec fn digit_value(c: char) -> nat {
    (c as u32 - '0' as u32) as nat
}

/// The value of a string of decimal digits, most significant first.
pub open spec fn digits_value(s: Seq<char>) -> nat
    decreases s.len(),
{
    if s.len() == 0 {
        0
    } else {
        digits_value(s.drop_last()) * 10 + digit_value(s.last())
    }
}

/// A name with one leading `+` taken off, if it has one.
pub open spec fn unsigned_digits(s: Seq<char>) -> Seq<char> {
    if s.len() > 0 && s[0] == '+' {
        s.drop_first()
    } else {
        s
    }
}

/// The week number that a name reads as: an optional `+`, then one or more
/// decimal digits whose value is at most 255.
pub open spec fn week_number(s: Seq<char>) -> Option<u8> {
    let d = unsigned_digits(s);
    if d.len() > 0 && (forall|i: int| 0 <= i < d.len() ==> is_digit(#[trigger] d[i]))
        && digits_value(d) <= 255 {
        Some(digits_value(d) as u8)
    } else {
        None
    }
}

fn digit_text(d: u8) -> (r: &'static str)
    requires
        d < 10,
    ensures
        r@ == seq![digit_char(d as nat)],
{
    let r = match d {
        0 => "0",
        1 => "1",
        2 => "2",
        3 => "3",
        4 => "4",
        5 => "5",
        6 => "6",
        7 => "7",
        8 => "8",
        _ => "9",
    };
    proof {
        reveal_strlit("0");
        reveal_strlit("1");
        reveal_strlit("2");
        reveal_strlit("3");
        reveal_strlit("4");
        reveal_strlit("5");
        reveal_strlit("6");
        reveal_strlit("7");
        reveal_strlit("8");
        reveal_strlit("9");
        assert(r@ =~= seq![digit_char(d as nat)]);
    }
    r
}

/// The decimal text of `week`, as a partition file is named.
pub fn week_name(week: u8) -> (r: String)
    ensures
        r@ == decimal(week),
{
    let mut s = String::new();
    if week >= 100 {
        s.append(digit_text(week / 100));
    }
    if week >= 10 {
        s.append(digit_text(week / 10 % 10));
    }
    s.append(digit_text(week % 10));
    assert(s@ =~= decimal(week));
    s
}

/// The week number that a directory entry's name reads as, if any.
pub fn parse_week(name: &str) -> (r: Option<u8>)
    ensures
        r == week_number(name@),
{
    let n = name.unicode_len();
    let ghost d = unsigned_digits(name@);
    let mut start: usize = 0;
    if n > 0 && name.get_char(0) == '+' {
        start = 1;
    }
    assert(d =~= name@.skip(start as int));
    if start == n {
        return None;
    }
    let mut i: usize = start;
    let mut acc: u32 = 0;
    while i < n
        invariant
            start <= i <= n,
            n == name@.len(),
            d == name@.skip(start as int),
            d == unsigned_digits(name@),
            forall|k: int| 0 <= k < i - start ==> is_digit(#[trigger] d[k]),
            acc <= 256,
            acc == if digits_value(d.take(i - start)) < 256 {
                digits_value(d.take(i - start))
            } else {
                256
            },
        decreases n - i,
    {
        let c = name.get_char(i);
        if !('0' <= c && c <= '9') {
            assert(d[i - start] == c);
            assert(!is_digit(d[i - start]));
            return None;
        }
        let v = (c as u32) - ('0' as u32);
        proof {
            let t = d.take(i - start + 1);
            assert(t.drop_last() =~= d.take(i - start));
            assert(t.last() == c);
        }
        if acc * 10 + v >= 256 {
            acc = 256;
        } else {
            acc = acc * 10 + v;
        }
        i += 1;
    }
    assert(d.take(n - start) =~= d);
    if acc <= 255 {
        Some(acc as u8)
    } else {
        None
    }
}

} // verus!
