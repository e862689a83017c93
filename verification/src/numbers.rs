//! Integers as text: the counters live in the string store, so the
//! handler reads a stored value as a signed 64-bit integer and writes the
//! stepped counter back as text.

use vstd::prelude::*;
use vstd::string::StrSliceExecFns;
use vstd::string::StringExecFns;

verus! {

/// A decimal digit.
pub open spec fn is_digit(c: char) -> bool {
    '0' <= c && c <= '9'
}

/// The value of a decimal digit.
pub open spec fn digit_val(c: char) -> int {
    c as int - '0' as int
}

/// The digit character of a value below ten.
pub open spec fn digit_char(d: int) -> char {
    ((d + 48) as u8) as char
}

/// The value of a sequence of decimal digits.
pub open spec fn digits_val(s: Seq<char>) -> int
    decreases s.len(),
{
    if s.len() == 0 {
        0
    } else {
        digits_val(s.drop_last()) * 10 + digit_val(s.last())
    }
}

/// Text that reads as an integer: one or more digits, with an optional
/// leading minus sign.
pub open spec fn is_int_text(s: Seq<char>) -> bool {
    if s.len() == 0 {
        false
    } else if s[0] == '-' {
        s.len() >= 2 && (forall|i: int| 1 <= i < s.len() ==> is_digit(s[i]))
    } else {
        forall|i: int| 0 <= i < s.len() ==> is_digit(s[i])
    }
}

/// The integer an integer text stands for.
pub open spec fn int_text_val(s: Seq<char>) -> int {
    if s.len() > 0 && s[0] == '-' {
        -digits_val(s.drop_first())
    } else {
        digits_val(s)
    }
}

/// Fits a signed 64-bit integer.
pub open spec fn in_i64_range(v: int) -> bool {
    i64::MIN <= v <= i64::MAX
}

/// The shortest decimal digits of a value, most significant first.
pub open spec fn nat_chars(v: int) -> Seq<char>
    decreases v,
{
    if v < 10 {
        seq![digit_char(if v < 0 { 0 } else { v })]
    } else {
        nat_chars(v / 10).push(digit_char(v % 10))
    }
}

/// The decimal text of a signed 64-bit value.
pub open spec fn i64_chars(v: int) -> Seq<char> {
    if v < 0 {
        seq!['-'] + nat_chars(-v)
    } else {
        nat_chars(v)
    }
}

/// Reads `s` as a signed 64-bit integer: digits with an optional leading
/// minus sign, rejecting anything else and values out of range.
pub fn parse_i64(s: &str) -> (r: Option<i64>)
    ensures
        r == if is_int_text(s@) && in_i64_range(int_text_val(s@)) {
            Some(int_text_val(s@) as i64)
        } else {
            None::<i64>
        },
{
    let len = s.unicode_len();
    if len == 0 {
        return None;
    }
    let neg = s.get_char(0) == '-';
    let start: usize = if neg {
        1
    } else {
        0
    };
    if neg && len == 1 {
        return None;
    }
    let ghost digits = s@.subrange(start as int, len as int);
    let mut acc: u128 = 0;
    let mut i: usize = start;
    while i < len
        invariant
            len == s@.len(),
            start <= i <= len,
            start == if neg { 1int } else { 0int },
            neg == (s@[0] == '-'),
            digits == s@.subrange(start as int, len as int),
            forall|j: int| start <= j < i ==> is_digit(s@[j]),
            digits_val(s@.subrange(start as int, i as int)) <= 0x8000000000000000 ==> acc
                == digits_val(s@.subrange(start as int, i as int)),
            digits_val(s@.subrange(start as int, i as int)) > 0x8000000000000000 ==> acc
                > 0x8000000000000000,
            acc <= 0xffffffffffffffffffff,
            digits_val(s@.subrange(start as int, i as int)) >= 0,
        decreases len - i,
    {
        let c = s.get_char(i);
        if !('0' <= c && c <= '9') {
            proof {
                assert(!is_int_text(s@)) by {
                    if is_int_text(s@) {
                        assert(is_digit(s@[i as int]));
                    }
                }
            }
            return None;
        }
        let d: u128 = (c as u32 as u128) - 48;
        let ghost prefix = s@.subrange(start as int, i as int);
        let ghost next_prefix = s@.subrange(start as int, i + 1);
        proof {
            assert(next_prefix.drop_last() =~= prefix);
            assert(next_prefix.last() == s@[i as int]);
        }
        if acc <= 0x8000000000000000 {
            acc = acc * 10 + d;
        }
        proof {
            assert(digits_val(next_prefix) == digits_val(prefix) * 10 + digit_val(s@[i as int]));
        }
        i += 1;
    }
    proof {
        assert(s@.subrange(start as int, len as int) == digits);
        assert(is_int_text(s@));
        if neg {
            assert(s@.drop_first() =~= digits);
            assert(int_text_val(s@) == -digits_val(digits));
        } else {
            assert(s@.subrange(0, len as int) =~= s@);
            assert(int_text_val(s@) == digits_val(digits));
        }
        assert(digits_val(digits) <= 0x8000000000000000 ==> acc == digits_val(digits));
        assert(digits_val(digits) > 0x8000000000000000 ==> acc > 0x8000000000000000);
    }
    if neg {
        if acc > 0x8000000000000000 {
            return None;
        }
        if acc == 0x8000000000000000 {
            return Some(i64::MIN);
        }
        let v: i64 = -(acc as i64);
        Some(v)
    } else {
        if acc > 0x7fffffffffffffff {
            return None;
        }
        Some(acc as i64)
    }
}

/// A digit below ten as text.
fn digit_str(d: u8) -> (r: &'static str)
    requires
        d < 10,
    ensures
        r@ == seq![digit_char(d as int)],
{
    proof {
        reveal_strlit("0");
        reveal_strlit("1");
        reveal_strlit("2");
        reveal_strlit("3");
        reveal_strlit("4");
        reveal_strlit("5");
        reveal_strlit("6");
        reveal_strlit("7");
        reveal_strlit("8");
        reveal_strlit("9");
    }
    match d {
        0 => "0",
        1 => "1",
        2 => "2",
        3 => "3",
        4 => "4",
        5 => "5",
        6 => "6",
        7 => "7",
        8 => "8",
        _ => {
            proof {
                assert(d == 9);
            }
            "9"
        },
    }
}

/// Digits rendered as their characters.
pub open spec fn digit_seq(ds: Seq<u8>) -> Seq<char> {
    ds.map_values(|d: u8| digit_char(d as int))
}

/// Writes an unsigned 64-bit integer as decimal text.
#[verifier::rlimit(50)]
pub fn u64_to_string(value: u64) -> (r: String)
    ensures
        r@ == nat_chars(value as int),
{
    let mut m: u64 = value;
    let ghost orig: int = m as int;
    let mut digits: Vec<u8> = Vec::new();
    loop
        invariant_except_break
            digits@.len() == 0 ==> m as int == orig,
            digits@.len() > 0 ==> m > 0 && nat_chars(orig) =~= nat_chars(m as int) + digit_seq(
                digits@,
            ).reverse(),
        invariant
            orig >= 0,
            forall|j: int| 0 <= j < digits@.len() ==> (#[trigger] digits@[j]) < 10,
        ensures
            digits@.len() > 0,
            nat_chars(orig) =~= digit_seq(digits@).reverse(),
        decreases m,
    {
        let d: u8 = (m % 10) as u8;
        let next = m / 10;
        let ghost prev_digits = digits@;
        let ghost m_old: int = m as int;
        proof {
            if prev_digits.len() == 0 {
                assert(nat_chars(m_old) + digit_seq(prev_digits).reverse() =~= nat_chars(m_old));
            }
            assert(nat_chars(orig) =~= nat_chars(m_old) + digit_seq(prev_digits).reverse());
        }
        digits.push(d);
        proof {
            assert(digit_seq(digits@) =~= digit_seq(prev_digits).push(digit_char(d as int)));
            assert(digit_seq(digits@).reverse() =~= seq![digit_char(d as int)] + digit_seq(
                prev_digits,
            ).reverse());
            if m_old >= 10 {
                assert(nat_chars(m_old) == nat_chars(m_old / 10).push(digit_char(m_old % 10)));
                assert(nat_chars(m_old / 10) + (seq![digit_char(d as int)] + digit_seq(
                    prev_digits,
                ).reverse()) =~= (nat_chars(m_old / 10).push(digit_char(d as int))) + digit_seq(
                    prev_digits,
                ).reverse());
                assert(nat_chars(orig) =~= nat_chars(m_old / 10) + digit_seq(digits@).reverse());
            } else {
                assert(nat_chars(m_old) =~= seq![digit_char(d as int)]);
                assert(nat_chars(orig) =~= digit_seq(digits@).reverse());
            }
        }
        m = next;
        if m == 0 {
            break;
        }
    }
    let mut out = String::new();
    let ghost rendered = digit_seq(digits@).reverse();
    proof {
        assert(out@ =~= rendered.take(0));
    }
    let n = digits.len();
    let mut i: usize = 0;
    while i < n
        invariant
            n == digits@.len(),
            i <= n,
            forall|j: int| 0 <= j < digits@.len() ==> (#[trigger] digits@[j]) < 10,
            rendered == digit_seq(digits@).reverse(),
            out@ == rendered.take(i as int),
        decreases n - i,
    {
        out.append(digit_str(digits[n - 1 - i]));
        proof {
            assert(rendered[i as int] == digit_seq(digits@)[n - 1 - i]);
            assert(rendered.take(i + 1) =~= rendered.take(i as int).push(rendered[i as int]));
            assert(rendered.take(i as int) + seq![digit_char(digits@[n - 1 - i] as int)]
                =~= rendered.take(i + 1));
        }
        i += 1;
    }
    proof {
        assert(rendered.take(n as int) =~= rendered);
        assert(nat_chars(orig) =~= rendered);
    }
    out
}

/// Writes a signed 64-bit integer as decimal text.
pub fn i64_to_string(v: i64) -> (r: String)
    ensures
        r@ == i64_chars(v as int),
{
    if v < 0 {
        let m: u64 = (-(v as i128)) as u64;
        let mut out = "-".to_owned();
        proof {
            reveal_strlit("-");
            assert("-"@ =~= seq!['-']);
        }
        let rendered = u64_to_string(m);
        out.append(rendered.as_str());
        proof {
            assert(i64_chars(v as int) == seq!['-'] + nat_chars(m as int));
        }
        out
    } else {
        u64_to_string(v as u64)
    }
}

/// A counter one above `v`, held at the top of the range.
pub open spec fn incremented(v: int) -> int {
    if v >= i64::MAX {
        i64::MAX as int
    } else {
        v + 1
    }
}

/// A counter one below `v`, held at the bottom of the range.
pub open spec fn decremented(v: int) -> int {
    if v <= i64::MIN {
        i64::MIN as int
    } else {
        v - 1
    }
}

} // verus!
