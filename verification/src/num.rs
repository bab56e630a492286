use vstd::prelude::*;
use crate::chars::{is_digit_char, digit_val, is_hex_char, hex_val};

verus! {

// ---------------------------------------------------------------------------
// Decimal rendering of integers.
// ---------------------------------------------------------------------------

pub open spec fn digit_char(d: int) -> char {
    (d + '0' as int) as char
}

/// The decimal digits of a non-negative integer, most significant first.
pub open spec fn dec_digits(n: int) -> Seq<char>
    decreases n,
{
    if n < 10 {
        seq![digit_char(n)]
    } else {
        dec_digits(n / 10) + seq![digit_char(n % 10)]
    }
}

/// The decimal rendering of an integer, with a leading minus sign when
/// negative.
pub open spec fn dec_int(n: int) -> Seq<char> {
    if n < 0 {
        seq!['-'] + dec_digits(-n)
    } else {
        dec_digits(n)
    }
}

fn push_dec_digits(n: u128, out: &mut Vec<char>)
    ensures
        final(out)@ == old(out)@ + dec_digits(n as int),
    decreases n,
{
    if n < 10 {
        out.push(((n as u8) + 48) as char);
    } else {
        push_dec_digits(n / 10, out);
        out.push((((n % 10) as u8) + 48) as char);
        proof {
            assert(out@ =~= old(out)@ + dec_digits(n as int));
        }
    }
}

/// Append the decimal rendering of a signed integer to `out`.
pub fn push_dec_i128(n: i128, out: &mut Vec<char>)
    ensures
        final(out)@ == old(out)@ + dec_int(n as int),
{
    if n < 0 {
        out.push('-');
        let mag: u128 = ((-(n + 1)) as u128) + 1;
        assert(mag == -(n as int));
        push_dec_digits(mag, out);
        proof {
            assert(out@ =~= old(out)@ + dec_int(n as int));
        }
    } else {
        push_dec_digits(n as u128, out);
    }
}

/// Append the decimal rendering of an unsigned integer to `out`.
pub fn push_dec_u128(n: u128, out: &mut Vec<char>)
    ensures
        final(out)@ == old(out)@ + dec_int(n as int),
{
    push_dec_digits(n, out);
}

// ---------------------------------------------------------------------------
// Decimal parsing (the grammar of str::parse for the integer types:
// an optional sign followed by one or more digits, within range).
// ---------------------------------------------------------------------------

pub open spec fn all_digits(s: Seq<char>) -> bool {
    forall|i: int| 0 <= i < s.len() ==> is_digit_char(s[i])
}

/// The value of a digit string, most significant digit first.
pub open spec fn digits_val(s: Seq<char>) -> int
    decreases s.len(),
{
    if s.len() == 0 {
        0
    } else {
        digits_val(s.drop_last()) * 10 + digit_val(s.last())
    }
}

/// The signed integer a token denotes, if it consists of an optional sign
/// followed by at least one decimal digit; range is not checked here.
pub open spec fn parse_int_val(s: Seq<char>) -> Option<int> {
    if s.len() > 0 && (s[0] == '+' || s[0] == '-') {
        let rest = s.subrange(1, s.len() as int);
        if rest.len() > 0 && all_digits(rest) {
            Some(
                if s[0] == '-' {
                    -digits_val(rest)
                } else {
                    digits_val(rest)
                },
            )
        } else {
            None
        }
    } else {
        if s.len() > 0 && all_digits(s) {
            Some(digits_val(s))
        } else {
            None
        }
    }
}

/// What `str::parse::<isize>` accepts and returns.
pub open spec fn parse_isize_spec(s: Seq<char>) -> Option<isize> {
    match parse_int_val(s) {
        Some(v) => if isize::MIN <= v <= isize::MAX {
            Some(v as isize)
        } else {
            None
        },
        None => None,
    }
}

proof fn lemma_digits_val_nonneg(s: Seq<char>)
    requires
        all_digits(s),
    ensures
        digits_val(s) >= 0,
    decreases s.len(),
{
    if s.len() > 0 {
        assert(all_digits(s.drop_last()));
        lemma_digits_val_nonneg(s.drop_last());
    }
}

proof fn lemma_digits_val_step(s: Seq<char>, i: int)
    requires
        0 <= i < s.len(),
    ensures
        digits_val(s.subrange(0, i + 1)) == digits_val(s.subrange(0, i)) * 10 + digit_val(s[i]),
{
    let p = s.subrange(0, i + 1);
    assert(p.drop_last() =~= s.subrange(0, i));
    assert(p.last() == s[i]);
}

proof fn lemma_digits_val_grows(s: Seq<char>, i: int)
    requires
        0 <= i <= s.len(),
        all_digits(s),
    ensures
        digits_val(s) >= digits_val(s.subrange(0, i)),
    decreases s.len() - i,
{
    assert(forall|k: int| 0 <= k < s.subrange(0, i).len() ==> is_digit_char(s.subrange(0, i)[k]));
    lemma_digits_val_nonneg(s.subrange(0, i));
    if i < s.len() {
        lemma_digits_val_step(s, i);
        lemma_digits_val_grows(s, i + 1);
        assert(digit_val(s[i]) >= 0);
        assert(digits_val(s.subrange(0, i + 1)) >= digits_val(s.subrange(0, i)));
    } else {
        assert(s.subrange(0, i) =~= s);
    }
}

/// Parse the characters of `t` as a pointer-sized signed integer, exactly as
/// `str::parse::<isize>` would.
#[verifier::rlimit(50)]
pub fn parse_isize_chars(t: &Vec<char>) -> (r: Option<isize>)
    ensures
        r == parse_isize_spec(t@),
{
    let n = t.len();
    if n == 0 {
        return None;
    }
    let neg = t[0] == '-';
    let signed = neg || t[0] == '+';
    let start: usize = if signed {
        1
    } else {
        0
    };
    if start >= n {
        return None;
    }
    let ghost digits: Seq<char> = if signed {
        t@.subrange(1, n as int)
    } else {
        t@
    };
    let limit: i128 = if neg {
        (isize::MAX as i128) + 1
    } else {
        isize::MAX as i128
    };
    let mut acc: i128 = 0;
    let mut i: usize = start;
    while i < n
        invariant
            start <= i <= n,
            n == t@.len(),
            start == if signed { 1int } else { 0int },
            digits == if signed { t@.subrange(1, n as int) } else { t@ },
            neg == (t@[0] == '-'),
            signed == (t@[0] == '-' || t@[0] == '+'),
            limit == if neg { (isize::MAX as int) + 1 } else { isize::MAX as int },
            forall|k: int| 0 <= k < i - start ==> is_digit_char(digits[k]),
            acc == digits_val(digits.subrange(0, i - start)),
            0 <= acc <= limit,
        decreases n - i,
    {
        let c = t[i];
        if !('0' <= c && c <= '9') {
            assert(!is_digit_char(digits[i - start]));
            return None;
        }
        proof {
            lemma_digits_val_step(digits, i - start);
        }
        let d: i128 = (c as u8 - 48) as i128;
        assert(d == digit_val(digits[i - start]));
        if acc > (limit - d) / 10 {
            // The value can only grow with further digits, so it is out of
            // range no matter what follows.
            proof {
                assert(acc * 10 + d > limit) by (nonlinear_arith)
                    requires
                        acc > (limit - d) / 10,
                        0 <= d <= 9,
                        0 <= acc,
                        limit >= 1,
                ;
                let pre = digits.subrange(0, i - start + 1);
                assert(forall|k: int| 0 <= k < pre.len() ==> is_digit_char(pre[k]));
                assert(digits_val(pre) > limit);
                if forall|k: int| 0 <= k < digits.len() ==> is_digit_char(digits[k]) {
                    lemma_digits_val_grows(digits, i - start + 1);
                    assert(digits.subrange(0, digits.len() as int) =~= digits);
                    assert(digits_val(digits) > limit);
                    assert(isize::MIN == -(isize::MAX as int) - 1);
                    if neg {
                        assert(parse_int_val(t@) == Some(-digits_val(digits)));
                        assert(-digits_val(digits) < isize::MIN as int);
                    } else {
                        assert(parse_int_val(t@) == Some(digits_val(digits)));
                    }
                    assert(parse_isize_spec(t@) is None);
                } else {
                    assert(exists|k: int|
                        0 <= k < digits.len() && !is_digit_char(digits[k]));
                    assert(parse_int_val(t@) is None);
                }
            }
            return None;
        }
        assert(acc * 10 + d <= limit) by (nonlinear_arith)
            requires
                acc <= (limit - d) / 10,
                0 <= d <= 9,
                0 <= acc,
                limit >= 1,
        ;
        acc = acc * 10 + d;
        i = i + 1;
    }
    proof {
        assert(digits.subrange(0, n - start) =~= digits);
        assert(parse_int_val(t@) matches Some(v) && v == if neg {
            -digits_val(digits)
        } else {
            digits_val(digits)
        });
    }
    if neg {
        let v: i128 = -acc;
        assert(isize::MIN <= v <= isize::MAX);
        Some(v as isize)
    } else {
        Some(acc as isize)
    }
}

// ---------------------------------------------------------------------------
// Hexadecimal parsing with the grammar of u32::from_str_radix(.., 16):
// an optional single sign, then one or more hex digits; a minus sign is
// only accepted when the value is zero.
// ---------------------------------------------------------------------------

pub open spec fn all_hex(s: Seq<char>) -> bool {
    forall|i: int| 0 <= i < s.len() ==> is_hex_char(s[i])
}

pub open spec fn hex_val_seq(s: Seq<char>) -> int
    decreases s.len(),
{
    if s.len() == 0 {
        0
    } else {
        hex_val_seq(s.drop_last()) * 16 + hex_val(s.last())
    }
}

/// What `u32::from_str_radix(s, 16)` accepts and returns.
pub open spec fn parse_hex_u32_spec(s: Seq<char>) -> Option<int> {
    let digits = if s.len() > 0 && (s[0] == '+' || s[0] == '-') {
        s.subrange(1, s.len() as int)
    } else {
        s
    };
    if digits.len() > 0 && all_hex(digits) {
        let v = hex_val_seq(digits);
        if v < 0x1_0000_0000 && (s.len() > 0 && s[0] == '-' ==> v == 0) {
            Some(v)
        } else {
            None
        }
    } else {
        None
    }
}

proof fn lemma_hex_val_step(s: Seq<char>, i: int)
    requires
        0 <= i < s.len(),
    ensures
        hex_val_seq(s.subrange(0, i + 1)) == hex_val_seq(s.subrange(0, i)) * 16 + hex_val(s[i]),
{
    let p = s.subrange(0, i + 1);
    assert(p.drop_last() =~= s.subrange(0, i));
    assert(p.last() == s[i]);
}

proof fn lemma_hex_val_nonneg(s: Seq<char>)
    requires
        all_hex(s),
    ensures
        hex_val_seq(s) >= 0,
    decreases s.len(),
{
    if s.len() > 0 {
        assert(all_hex(s.drop_last()));
        lemma_hex_val_nonneg(s.drop_last());
    }
}

proof fn lemma_hex_val_grows(s: Seq<char>, i: int)
    requires
        0 <= i <= s.len(),
        all_hex(s),
    ensures
        hex_val_seq(s) >= hex_val_seq(s.subrange(0, i)),
    decreases s.len() - i,
{
    assert(forall|k: int| 0 <= k < s.subrange(0, i).len() ==> is_hex_char(s.subrange(0, i)[k]));
    lemma_hex_val_nonneg(s.subrange(0, i));
    if i < s.len() {
        lemma_hex_val_step(s, i);
        lemma_hex_val_grows(s, i + 1);
        assert(hex_val(s[i]) >= 0);
    } else {
        assert(s.subrange(0, i) =~= s);
    }
}

/// Parse hexadecimal characters exactly as `u32::from_str_radix(.., 16)`.
#[verifier::rlimit(50)]
pub fn parse_hex_u32_chars(t: &Vec<char>) -> (r: Option<u32>)
    ensures
        match r {
            Some(v) => parse_hex_u32_spec(t@) == Some(v as int),
            None => parse_hex_u32_spec(t@) is None,
        },
{
    let n = t.len();
    if n == 0 {
        return None;
    }
    let neg = t[0] == '-';
    let signed = neg || t[0] == '+';
    let start: usize = if signed {
        1
    } else {
        0
    };
    if start >= n {
        return None;
    }
    let ghost digits: Seq<char> = if signed {
        t@.subrange(1, n as int)
    } else {
        t@
    };
    let mut acc: u64 = 0;
    let mut i: usize = start;
    while i < n
        invariant
            start <= i <= n,
            n == t@.len(),
            start == if signed { 1int } else { 0int },
            digits == if signed { t@.subrange(1, n as int) } else { t@ },
            neg == (t@[0] == '-'),
            signed ==> (t@[0] == '-' || t@[0] == '+'),
            !signed ==> !(t@[0] == '-' || t@[0] == '+'),
            forall|k: int| 0 <= k < i - start ==> is_hex_char(digits[k]),
            acc == hex_val_seq(digits.subrange(0, i - start)),
            0 <= acc < 0x1_0000_0000,
        decreases n - i,
    {
        let c = t[i];
        let d: u64 = if '0' <= c && c <= '9' {
            (c as u8 - 48) as u64
        } else if 'a' <= c && c <= 'f' {
            (c as u8 - 97 + 10) as u64
        } else if 'A' <= c && c <= 'F' {
            (c as u8 - 65 + 10) as u64
        } else {
            assert(!is_hex_char(digits[i - start]));
            return None;
        };
        assert(d == hex_val(digits[i - start]));
        proof {
            lemma_hex_val_step(digits, i - start);
        }
        if acc > (0xFFFF_FFFFu64 - d) / 16 {
            proof {
                assert(acc * 16 + d > 0xFFFF_FFFF) by (nonlinear_arith)
                    requires
                        acc > (0xFFFF_FFFFu64 - d) / 16,
                        0 <= d <= 15,
                        0 <= acc,
                ;
                let pre = digits.subrange(0, i - start + 1);
                assert(forall|k: int| 0 <= k < pre.len() ==> is_hex_char(pre[k]));
                assert(hex_val_seq(pre) > 0xFFFF_FFFF);
                if forall|k: int| 0 <= k < digits.len() ==> is_hex_char(digits[k]) {
                    lemma_hex_val_grows(digits, i - start + 1);
                }
            }
            return None;
        }
        assert(acc * 16 + d <= 0xFFFF_FFFF) by (nonlinear_arith)
            requires
                acc <= (0xFFFF_FFFFu64 - d) / 16,
                0 <= d <= 15,
                0 <= acc,
        ;
        acc = acc * 16 + d;
        i = i + 1;
    }
    proof {
        assert(digits.subrange(0, n - start) =~= digits);
    }
    if neg && acc != 0 {
        return None;
    }
    Some(acc as u32)
}

} // verus!
