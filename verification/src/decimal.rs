//! Decimal digit strings: rendering and parsing of the integer fields that a
//! plot name carries.

use vstd::prelude::*;

verus! {

/// The digit character of a value below ten.
pub open spec fn digit_char(d: int) -> char {
    if d == 0 {
        '0'
    } else if d == 1 {
        '1'
    } else if d == 2 {
        '2'
    } else if d == 3 {
        '3'
    } else if d == 4 {
        '4'
    } else if d == 5 {
        '5'
    } else if d == 6 {
        '6'
    } else if d == 7 {
        '7'
    } else if d == 8 {
        '8'
    } else {
        '9'
    }
}

/// Whether `c` is a decimal digit character.
pub open spec fn is_digit(c: char) -> bool {
    48 <= c as u32 && c as u32 <= 57
}

/// The numeric value of a digit character.
pub open spec fn digit_val(c: char) -> int {
    c as u32 - 48
}

/// Whether every character of `s` is a digit.
pub open spec fn all_digits(s: Seq<char>) -> bool {
    forall|i: int| 0 <= i < s.len() ==> is_digit(#[trigger] s[i])
}

/// The value of a digit string, most significant digit first.
pub open spec fn dec_val(s: Seq<char>) -> int
    decreases s.len(),
{
    if s.len() == 0 {
        0
    } else {
        dec_val(s.drop_last()) * 10 + digit_val(s.last())
    }
}

/// The canonical decimal rendering of `n`: no sign, a single `'0'` for zero,
/// otherwise no leading zero.
pub open spec fn dec_str(n: nat) -> Seq<char>
    decreases n,
{
    if n < 10 {
        seq![digit_char(n as int)]
    } else {
        dec_str(n / 10) + seq![digit_char((n % 10) as int)]
    }
}

/// Every character of a rendering is a digit, and there is at least one.
pub proof fn lemma_dec_str_digits(n: nat)
    ensures
        all_digits(dec_str(n)),
        dec_str(n).len() >= 1,
    decreases n,
{
    if n < 10 {
        assert(is_digit(digit_char(n as int)));
    } else {
        lemma_dec_str_digits(n / 10);
        assert(is_digit(digit_char((n % 10) as int)));
        assert forall|i: int| 0 <= i < dec_str(n).len() implies is_digit(
            #[trigger] dec_str(n)[i],
        ) by {
            if i < dec_str(n / 10).len() {
                assert(dec_str(n)[i] == dec_str(n / 10)[i]);
            }
        }
    }
}

/// Rendering then evaluating gives the value back: the decimal printer and
/// the decimal reader are inverse.
pub proof fn lemma_dec_str_val(n: nat)
    ensures
        dec_val(dec_str(n)) == n,
    decreases n,
{
    if n < 10 {
        assert(dec_str(n) =~= seq![digit_char(n as int)]);
        assert(dec_str(n).drop_last() =~= Seq::<char>::empty());
        assert(dec_val(dec_str(n)) == dec_val(dec_str(n).drop_last()) * 10 + digit_val(
            dec_str(n).last(),
        ));
        assert(digit_val(digit_char(n as int)) == n);
    } else {
        lemma_dec_str_val(n / 10);
        assert(dec_str(n).len() > 0);
        assert(dec_val(dec_str(n)) == dec_val(dec_str(n).drop_last()) * 10 + digit_val(
            dec_str(n).last(),
        ));
        assert(dec_str(n).drop_last() =~= dec_str(n / 10));
        assert(dec_str(n).last() == digit_char((n % 10) as int));
        assert(digit_val(digit_char((n % 10) as int)) == n % 10);
        assert((n / 10) * 10 + n % 10 == n);
    }
}

/// The value of a digit string is not negative.
pub proof fn lemma_dec_val_nonneg(s: Seq<char>)
    requires
        all_digits(s),
    ensures
        dec_val(s) >= 0,
    decreases s.len(),
{
    if s.len() > 0 {
        lemma_dec_val_nonneg(s.drop_last());
    }
}

/// A prefix of a digit string never exceeds the whole string in value.
pub proof fn lemma_dec_val_prefix_le(s: Seq<char>, j: int)
    requires
        all_digits(s),
        0 <= j <= s.len(),
    ensures
        dec_val(s.take(j)) <= dec_val(s),
    decreases s.len(),
{
    if j == s.len() {
        assert(s.take(j) =~= s);
    } else {
        assert(s.drop_last() =~= s.take(s.len() - 1));
        lemma_dec_val_prefix_le(s.drop_last(), j);
        assert(s.drop_last().take(j) =~= s.take(j));
        lemma_dec_val_nonneg(s.drop_last());
    }
}

/// The one-character string of a digit value.
fn digit_string(d: u64) -> (r: String)
    requires
        d < 10,
    ensures
        r@ == seq![digit_char(d as int)],
{
    let r: &str = if d == 0 {
        "0"
    } else if d == 1 {
        "1"
    } else if d == 2 {
        "2"
    } else if d == 3 {
        "3"
    } else if d == 4 {
        "4"
    } else if d == 5 {
        "5"
    } else if d == 6 {
        "6"
    } else if d == 7 {
        "7"
    } else if d == 8 {
        "8"
    } else {
        "9"
    };
    proof {
        reveal_strlit("0");
        reveal_strlit("1");
        reveal_strlit("2");
        reveal_strlit("3");
        reveal_strlit("4");
        reveal_strlit("5");
        reveal_strlit("6");
        reveal_strlit("7");
        reveal_strlit("8");
        reveal_strlit("9");
        assert(r@ =~= seq![digit_char(d as int)]);
    }
    r.to_owned()
}

/// Renders `n` in decimal, exactly as `u64::to_string` does.
pub fn u64_to_string(n: u64) -> (r: String)
    ensures
        r@ == dec_str(n as nat),
    decreases n,
{
    if n < 10 {
        digit_string(n)
    } else {
        let mut s = u64_to_string(n / 10);
        let d = digit_string(n % 10);
        s.append(d.as_str());
        proof {
            assert((n as nat) / 10 == (n / 10) as nat);
            assert((n as nat) % 10 == (n % 10) as nat);
            assert(s@ =~= dec_str(n as nat));
        }
        s
    }
}

/// A rendered value is itself a well-formed unsigned field and parses back
/// to the value it came from: rendering and parsing are inverse.
pub proof fn lemma_render_parse_round_trip(n: u64)
    ensures
        valid_u64_str(dec_str(n as nat)),
        u64_str_val(dec_str(n as nat)) == n,
{
    lemma_dec_str_digits(n as nat);
    lemma_dec_str_val(n as nat);
    assert(is_digit(dec_str(n as nat)[0]));
    assert(dec_str(n as nat)[0] != '+' && dec_str(n as nat)[0] != '-');
    assert(field_digits(dec_str(n as nat)) == dec_str(n as nat));
}

/// The digit part of a decimal field: the text after an optional sign.
pub open spec fn field_digits(s: Seq<char>) -> Seq<char> {
    if s.len() > 0 && (s[0] == '+' || s[0] == '-') {
        s.skip(1)
    } else {
        s
    }
}

/// Whether `s` is a field that parses as a `u64`: an optional `'+'`, then
/// one or more digits, with a value that fits.
pub open spec fn valid_u64_str(s: Seq<char>) -> bool {
    &&& (s.len() == 0 || s[0] != '-')
    &&& field_digits(s).len() > 0
    &&& all_digits(field_digits(s))
    &&& dec_val(field_digits(s)) <= u64::MAX
}

/// The value of a `u64` field.
pub open spec fn u64_str_val(s: Seq<char>) -> int {
    dec_val(field_digits(s))
}

/// Whether `s` is a field that parses as an `i64`: an optional sign, then
/// one or more digits, with a value that fits.
pub open spec fn valid_i64_str(s: Seq<char>) -> bool {
    &&& field_digits(s).len() > 0
    &&& all_digits(field_digits(s))
    &&& if s.len() > 0 && s[0] == '-' {
        dec_val(field_digits(s)) <= 0x8000_0000_0000_0000
    } else {
        dec_val(field_digits(s)) <= i64::MAX
    }
}

/// The value of an `i64` field.
pub open spec fn i64_str_val(s: Seq<char>) -> int {
    if s.len() > 0 && s[0] == '-' {
        -dec_val(field_digits(s))
    } else {
        dec_val(field_digits(s))
    }
}

/// Scans the characters of `s` from `start` on as a digit string, accepting
/// values up to `limit`.
fn parse_digits(s: &str, start: usize, limit: u64) -> (r: Option<u64>)
    requires
        start <= s@.len(),
    ensures
        match r {
            Some(v) => {
                &&& s@.skip(start as int).len() > 0
                &&& all_digits(s@.skip(start as int))
                &&& v == dec_val(s@.skip(start as int))
                &&& v <= limit
            },
            None => !{
                &&& s@.skip(start as int).len() > 0
                &&& all_digits(s@.skip(start as int))
                &&& dec_val(s@.skip(start as int)) <= limit
            },
        },
{
    let ghost d = s@.skip(start as int);
    let len = s.unicode_len();
    if start == len {
        return None;
    }
    let mut acc: u64 = 0;
    let mut i: usize = start;
    while i < len
        invariant
            start <= i <= len,
            len == s@.len(),
            d == s@.skip(start as int),
            all_digits(d.take(i - start)),
            acc == dec_val(d.take(i - start)),
            acc <= limit,
        decreases len - i,
    {
        let c = s.get_char(i);
        let cu: u32 = c as u32;
        proof {
            assert(d[i - start] == s@[i as int]);
        }
        if cu < 48 || cu > 57 {
            proof {
                assert(!is_digit(d[i - start]));
            }
            return None;
        }
        let dv: u64 = (cu - 48) as u64;
        let wide: u128 = acc as u128 * 10 + dv as u128;
        proof {
            assert(d.take(i - start + 1).drop_last() =~= d.take(i - start));
            assert(d.take(i - start + 1).last() == d[i - start]);
            assert(dec_val(d.take(i - start + 1)) == acc * 10 + dv);
        }
        if wide > limit as u128 {
            proof {
                if all_digits(d) && dec_val(d) <= limit {
                    lemma_dec_val_prefix_le(d, i - start + 1);
                }
            }
            return None;
        }
        proof {
            assert(wide <= u64::MAX as u128);
        }
        acc = wide as u64;
        i = i + 1;
    }
    proof {
        assert(d.take(len - start) =~= d);
    }
    Some(acc)
}

/// Parses an unsigned decimal field, accepting exactly what
/// `str::parse::<u64>` accepts.
pub fn parse_u64(s: &str) -> (r: Option<u64>)
    ensures
        r is Some <==> valid_u64_str(s@),
        r is Some ==> r.unwrap() == u64_str_val(s@),
{
    let len = s.unicode_len();
    let mut start: usize = 0;
    if len > 0 {
        let c = s.get_char(0);
        if c == '-' {
            return None;
        }
        if c == '+' {
            start = 1;
        }
    }
    proof {
        assert(field_digits(s@) =~= s@.skip(start as int));
    }
    parse_digits(s, start, u64::MAX)
}

/// Parses a signed decimal field, accepting exactly what
/// `str::parse::<i64>` accepts.
pub fn parse_i64(s: &str) -> (r: Option<i64>)
    ensures
        r is Some <==> valid_i64_str(s@),
        r is Some ==> r.unwrap() == i64_str_val(s@),
{
    let len = s.unicode_len();
    let mut neg = false;
    let mut start: usize = 0;
    if len > 0 {
        let c = s.get_char(0);
        if c == '-' {
            neg = true;
            start = 1;
        } else if c == '+' {
            start = 1;
        }
    }
    let limit: u64 = if neg {
        0x8000_0000_0000_0000
    } else {
        0x7FFF_FFFF_FFFF_FFFF
    };
    proof {
        assert(field_digits(s@) =~= s@.skip(start as int));
    }
    match parse_digits(s, start, limit) {
        None => None,
        Some(mag) => {
            if neg {
                if mag == 0x8000_0000_0000_0000 {
                    Some(i64::MIN)
                } else {
                    Some(-(mag as i64))
                }
            } else {
                Some(mag as i64)
            }
        },
    }
}

} // verus!
