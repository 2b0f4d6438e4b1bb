//! Numbers as text: decimal and hexadecimal digits, read and written.
use crate::text::chars_of;
use vstd::prelude::*;
use vstd::string::*;

verus! {

/// Is `c` one of the ten decimal digits?
pub open spec fn is_dec(c: char) -> bool {
    '0' <= c <= '9'
}

/// Is `c` one of the ten decimal digits?
pub fn is_digit(c: char) -> (r: bool)
    ensures
        r == is_dec(c),
{
    '0' <= c && c <= '9'
}

/// The decimal digit of `d`.
pub open spec fn dec_char(d: int) -> char
    recommends
        0 <= d < 10,
{
    (d + 48) as char
}

/// `n` in decimal, without leading zeros.
pub open spec fn decimal(n: nat) -> Seq<char>
    decreases n,
{
    if n < 10 {
        seq![dec_char(n as int)]
    } else {
        decimal(n / 10).push(dec_char((n % 10) as int))
    }
}

/// `n` in decimal.
pub fn to_decimal(n: u64) -> (r: String)
    ensures
        r@ == decimal(n as nat),
    decreases n,
{
    let d: u64 = n % 10;
    let c = (48 + d as u8) as char;
    assert(c == dec_char(d as int));
    if n < 10 {
        let mut s = String::new();
        s.push(c);
        assert(s@ =~= seq![dec_char(n as int)]);
        s
    } else {
        let mut s = to_decimal(n / 10);
        s.push(c);
        s
    }
}

/// Are there only decimal digits in `s`?
pub open spec fn all_dec(s: Seq<char>) -> bool {
    forall|i: int| 0 <= i < s.len() ==> is_dec(#[trigger] s[i])
}

/// The number that the decimal digits of `s` write.
pub open spec fn dec_value(s: Seq<char>) -> int
    decreases s.len(),
{
    if s.len() == 0 {
        0
    } else {
        10 * dec_value(s.drop_last()) + (s.last() as int - 48)
    }
}

/// The unsigned number that `s` writes: decimal digits, after an optional plus sign.
pub open spec fn unsigned_value(s: Seq<char>) -> Option<int> {
    let t = if s.len() > 0 && s[0] == '+' {
        s.drop_first()
    } else {
        s
    };
    if t.len() > 0 && all_dec(t) {
        Some(dec_value(t))
    } else {
        None
    }
}

/// Reading more digits never makes a number smaller.
proof fn lemma_dec_value_grows(s: Seq<char>, n: int)
    requires
        all_dec(s),
        0 <= n <= s.len(),
    ensures
        0 <= dec_value(s.take(n)) <= dec_value(s),
    decreases s.len(),
{
    if n == s.len() {
        assert(s.take(n) =~= s);
        if s.len() > 0 {
            assert(is_dec(s[s.len() - 1]));
            assert forall|i: int| 0 <= i < s.len() - 1 implies is_dec(
                #[trigger] s.drop_last()[i],
            ) by {
                assert(is_dec(s[i]));
            }
            lemma_dec_value_grows(s.drop_last(), n - 1);
            assert(s.drop_last().take(n - 1) =~= s.drop_last());
        }
    } else {
        assert(is_dec(s[s.len() - 1]));
        assert forall|i: int| 0 <= i < s.len() - 1 implies is_dec(#[trigger] s.drop_last()[i]) by {
            assert(is_dec(s[i]));
        }
        lemma_dec_value_grows(s.drop_last(), n);
        assert(s.drop_last().take(n) =~= s.take(n));
    }
}

/// The number that the digits `cs[from..]` write, if there are any, there is
/// nothing else, and it is at most `max`.
fn digits_from(cs: &Vec<char>, from: usize, max: u64) -> (r: Option<u64>)
    requires
        from <= cs@.len(),
    ensures
        ({
            let t = cs@.skip(from as int);
            match r {
                Some(v) => t.len() > 0 && all_dec(t) && dec_value(t) == v && v <= max,
                None => !(t.len() > 0 && all_dec(t) && dec_value(t) <= max),
            }
        }),
{
    let ghost t = cs@.skip(from as int);
    if from == cs.len() {
        return None;
    }
    let mut value: u64 = 0;
    let mut i: usize = from;
    assert(t.take(0) =~= Seq::<char>::empty());
    while i < cs.len()
        invariant
            from <= i <= cs@.len(),
            t == cs@.skip(from as int),
            value <= max,
            all_dec(t.take(i - from)),
            dec_value(t.take(i - from)) == value,
        decreases cs.len() - i,
    {
        let c = cs[i];
        assert(c == t[i - from]);
        if !is_digit(c) {
            return None;
        }
        let d: u128 = (c as u32 - 48) as u128;
        let next: u128 = 10 * (value as u128) + d;
        proof {
            let u = t.take(i - from + 1);
            assert(u.drop_last() =~= t.take(i - from));
            assert(u.last() == c);
            assert(dec_value(u) == next);
            assert forall|j: int| 0 <= j < u.len() implies is_dec(#[trigger] u[j]) by {
                if j < i - from {
                    assert(t.take(i - from)[j] == u[j]);
                }
            }
        }
        if next > max as u128 {
            proof {
                if all_dec(t) {
                    lemma_dec_value_grows(t, i - from + 1);
                }
            }
            return None;
        }
        value = next as u64;
        i += 1;
    }
    assert(t.take(i - from) =~= t);
    Some(value)
}

/// The unsigned number that `s` writes, where it is at most `max`.
pub fn parse_unsigned(s: &str, max: u64) -> (r: Option<u64>)
    ensures
        match r {
            Some(v) => unsigned_value(s@) == Some(v as int) && v <= max,
            None => unsigned_value(s@) is None || unsigned_value(s@)->0 > max,
        },
{
    let cs = chars_of(s);
    if cs.len() > 0 && cs[0] == '+' {
        assert(s@.skip(1) =~= s@.drop_first());
        digits_from(&cs, 1, max)
    } else {
        assert(s@.skip(0) =~= s@);
        digits_from(&cs, 0, max)
    }
}

/// The lower-case hexadecimal digit of `d`.
pub open spec fn hex_lower(d: int) -> char
    recommends
        0 <= d < 16,
{
    if d < 10 {
        (d + 48) as char
    } else {
        (d + 87) as char
    }
}

/// The upper-case hexadecimal digit of `d`.
pub open spec fn hex_upper(d: int) -> char
    recommends
        0 <= d < 16,
{
    if d < 10 {
        (d + 48) as char
    } else {
        (d + 55) as char
    }
}

/// The lower-case hexadecimal digit of `d`.
pub fn hex_lower_digit(d: u8) -> (c: char)
    requires
        d < 16,
    ensures
        c == hex_lower(d as int),
{
    if d < 10 {
        (d + 48) as char
    } else {
        (d + 87) as char
    }
}

/// The upper-case hexadecimal digit of `d`.
pub fn hex_upper_digit(d: u8) -> (c: char)
    requires
        d < 16,
    ensures
        c == hex_upper(d as int),
{
    if d < 10 {
        (d + 48) as char
    } else {
        (d + 55) as char
    }
}

/// The value of a hexadecimal digit, in either case.
pub open spec fn hex_value(c: u8) -> Option<int> {
    if 48 <= c <= 57 {
        Some(c - 48)
    } else if 65 <= c <= 70 {
        Some(c - 55)
    } else if 97 <= c <= 102 {
        Some(c - 87)
    } else {
        None
    }
}

/// The value of a hexadecimal digit, in either case.
pub fn hex_digit(c: u8) -> (r: Option<u8>)
    ensures
        match r {
            Some(v) => hex_value(c) == Some(v as int) && v < 16,
            None => hex_value(c) is None,
        },
{
    if 48 <= c && c <= 57 {
        Some(c - 48)
    } else if 65 <= c && c <= 70 {
        Some(c - 55)
    } else if 97 <= c && c <= 102 {
        Some(c - 87)
    } else {
        None
    }
}

/// The digits of a number, read back, give the number.
pub proof fn law_decimal_reads_back(n: nat)
    ensures
        decimal(n).len() > 0,
        all_dec(decimal(n)),
        dec_value(decimal(n)) == n,
        unsigned_value(decimal(n)) == Some(n as int),
    decreases n,
{
    if n < 10 {
        assert(decimal(n).drop_last() =~= Seq::<char>::empty());
        assert(dec_value(decimal(n).drop_last()) == 0);
    } else {
        law_decimal_reads_back(n / 10);
        assert(decimal(n).drop_last() =~= decimal(n / 10));
        assert forall|i: int| 0 <= i < decimal(n).len() implies is_dec(#[trigger] decimal(n)[i]) by {
            if i < decimal(n / 10).len() {
                assert(decimal(n)[i] == decimal(n / 10)[i]);
            }
        }
    }
    assert(is_dec(decimal(n)[0]));
}

/// A hexadecimal digit, in either case, has the value that it was written for, and the
/// digits of two values differ.
pub proof fn law_hex_digits_read_back(d: int, e: int)
    requires
        0 <= d < 16,
        0 <= e < 16,
    ensures
        hex_value(hex_lower(d) as u8) == Some(d),
        hex_value(hex_upper(d) as u8) == Some(d),
        hex_lower(d) == hex_lower(e) ==> d == e,
        '0' <= hex_lower(d) <= '9' || 'a' <= hex_lower(d) <= 'f',
        '0' <= hex_upper(d) <= '9' || 'A' <= hex_upper(d) <= 'F',
{
}

} // verus!
