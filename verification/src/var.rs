use vstd::prelude::*;
use vstd::string::{StringSliceAdditionalSpecFns, StrSliceExecFns};
use crate::chars::{str_chars, chars_to_string, lower_seq, to_lower_vec, to_upper_char, upper_seq, is_space, sub_vec};
use crate::model::{spec_sv, spec_svq, JVal};
use crate::types::{Type, Wrap};
use crate::model::{spec_decode, spec_decode_at, spec_esc, spec_u2c, strip2};
use crate::num::parse_hex_u32_chars;

verus! {

// ---------------------------------------------------------------------------
// The escape codec.
// ---------------------------------------------------------------------------

/// The scalar denoted by the four characters after a `\u` escape.
pub fn unicode_to_char(unicode: &str) -> (r: Option<char>)
    ensures
        r == spec_u2c(unicode@),
{
    let t = str_chars(unicode);
    u2c_chars(&t)
}

pub(crate) fn u2c_chars(t: &Vec<char>) -> (r: Option<char>)
    ensures
        r == spec_u2c(t@),
{
    let u1 = strip2_chars(t, '\\', 'u');
    let mut u2: Vec<char> = Vec::new();
    let mut i: usize = 0;
    while i < u1.len()
        invariant
            i <= u1@.len(),
            u2@ == upper_seq(u1@.take(i as int)),
        decreases u1@.len() - i,
    {
        u2.push(to_upper_char(u1[i]));
        proof {
            assert(u1@.take(i + 1 as int).drop_last() =~= u1@.take(i as int));
            assert(u2@ =~= upper_seq(u1@.take(i + 1 as int)));
        }
        i = i + 1;
    }
    proof {
        assert(u1@.take(u1@.len() as int) =~= u1@);
    }
    let u3 = strip2_chars(&u2, '\\', 'U');
    match parse_hex_u32_chars(&u3) {
        Some(code) => {
            if code < 0xD800 || (0xE000 <= code && code < 0x110000) {
                let c = char::from_u32(code);
                match c {
                    Some(c) => Some(c),
                    None => None,
                }
            } else {
                None
            }
        },
        None => None,
    }
}

fn strip2_chars(t: &Vec<char>, a: char, b: char) -> (r: Vec<char>)
    ensures
        r@ == strip2(t@, a, b),
    decreases t@.len(),
{
    proof {
        assert(t@.subrange(0, t@.len() as int) =~= t@);
    }
    let mut k: usize = 0;
    while k < t.len() && k + 1 < t.len() && t[k] == a && t[k + 1] == b
        invariant
            k <= t@.len(),
            strip2(t@, a, b) == strip2(t@.subrange(k as int, t@.len() as int), a, b),
        decreases t@.len() - k,
    {
        proof {
            let cur = t@.subrange(k as int, t@.len() as int);
            assert(cur[0] == a && cur[1] == b);
            assert(cur.len() >= 2);
            assert(cur.subrange(2, cur.len() as int) =~= t@.subrange(
                k + 2 as int,
                t@.len() as int,
            ));
            assert(strip2(cur, a, b) == strip2(cur.subrange(2, cur.len() as int), a, b));
        }
        k = k + 2;
    }
    let mut r: Vec<char> = Vec::new();
    let mut i: usize = k;
    while i < t.len()
        invariant
            k <= i <= t@.len(),
            r@ == t@.subrange(k as int, i as int),
        decreases t@.len() - i,
    {
        r.push(t[i]);
        proof {
            assert(r@ =~= t@.subrange(k as int, i + 1 as int));
        }
        i = i + 1;
    }
    proof {
        let cur = t@.subrange(k as int, t@.len() as int);
        assert(r@ =~= cur);
        if cur.len() >= 2 && cur[0] == a && cur[1] == b {
            assert(t@[k as int] == a && t@[k + 1 as int] == b);
            assert(false);
        }
        assert(strip2(cur, a, b) == cur);
    }
    r
}

/// Decode the raw characters of a quoted run into the literal string value.
/// The decode never fails; malformed escapes produce partial output.
pub fn decode_json(js: String) -> (r: Option<String>)
    ensures
        r matches Some(d) && d@ == spec_decode(js@),
{
    let t = str_chars(js.as_str());
    let mut out: Vec<char> = Vec::new();
    decode_chars(&t, 0, &mut out);
    Some(chars_to_string(&out))
}

/// Append the decoded form of `s[i..]` to `out`.
pub(crate) fn decode_chars(s: &Vec<char>, i: usize, out: &mut Vec<char>)
    ensures
        final(out)@ == old(out)@ + spec_decode_at(s@, i as int),
    decreases s@.len() - i, 1int,
{
    if i >= s.len() {
        proof {
            assert(out@ =~= old(out)@ + spec_decode_at(s@, i as int));
        }
        return ;
    }
    let c = s[i];
    if c == '\\' {
        esc_chars(s, i + 1, out);
    } else {
        out.push(c);
        decode_chars(s, i + 1, out);
        proof {
            assert(out@ =~= old(out)@ + spec_decode_at(s@, i as int));
        }
    }
}

fn esc_chars(s: &Vec<char>, j: usize, out: &mut Vec<char>)
    ensures
        final(out)@ == old(out)@ + spec_esc(s@, j as int),
    decreases s@.len() - j, 0int,
{
    if j >= s.len() {
        proof {
            assert(out@ =~= old(out)@ + spec_esc(s@, j as int));
        }
        return ;
    }
    let c = s[j];
    if c == '"' || c == '\'' || c == '/' || c == '\\' {
        out.push(c);
        decode_chars(s, j + 1, out);
        proof {
            assert(out@ =~= old(out)@ + spec_esc(s@, j as int));
        }
    } else if c == 'b' || c == 'f' || c == 'n' || c == 'r' || c == 't' {
        out.push('\\');
        out.push(c);
        decode_chars(s, j + 1, out);
        proof {
            assert(out@ =~= old(out)@ + spec_esc(s@, j as int));
        }
    } else if c == 'u' {
        if s.len() >= 5 && j <= s.len() - 5 {
            let mut hex: Vec<char> = Vec::new();
            hex.push(s[j + 1]);
            hex.push(s[j + 2]);
            hex.push(s[j + 3]);
            hex.push(s[j + 4]);
            proof {
                assert(hex@ =~= s@.subrange(j + 1 as int, j + 5 as int));
            }
            match u2c_chars(&hex) {
                Some(d) => {
                    out.push(d);
                },
                None => {},
            }
            decode_chars(s, j + 5, out);
            proof {
                assert(out@ =~= old(out)@ + spec_esc(s@, j as int));
            }
        } else {
            decode_chars(s, j + 1, out);
            proof {
                assert(out@ =~= old(out)@ + spec_esc(s@, j as int));
            }
        }
    } else {
        decode_chars(s, j + 1, out);
        proof {
            assert(out@ =~= old(out)@ + spec_esc(s@, j as int));
        }
    }
}

// ---------------------------------------------------------------------------
// The generic value scanner.
// ---------------------------------------------------------------------------

/// Scan one value beginning at `start`: a quoted string, a nested object
/// or list, or an unquoted token handed to type inference.  On success the
/// cursor cell receives the offset of the last character consumed (backed
/// up by one before a structural terminator).
pub fn parse_js_value(json: String, start: isize, end_ref: &mut Wrap<isize>) -> (r: Option<Type>)
    requires
        0 <= start,
        json@.len() <= isize::MAX as int,
    ensures
        ({
            let sp = spec_sv(json@, start as int, None, false);
            match (r, sp) {
                (Some(t), Some(p)) => t@ == p.0 && final(end_ref).0 as int == p.1,
                (None, None) => *final(end_ref) == *old(end_ref),
                _ => false,
            }
        }),
{
    let cv = str_chars(json.as_str());
    let (t, e) = scan_value(&cv, start as usize, None, false);
    match t {
        Some(v) => {
            end_ref.0 = e as isize;
            Some(v)
        },
        None => None,
    }
}

/// The value scanner over raw characters.  `wb` is where an unquoted token
/// began; `sb` records a skipped stray closing bracket.
pub(crate) fn scan_value(s: &Vec<char>, i: usize, wb: Option<usize>, sb: bool) -> (r: (
    Option<Type>,
    usize,
))
    requires
        wb matches Some(w) ==> w < i,
    ensures
        ({
            let wv = match wb {
                Some(w) => Some(w as int),
                None => None,
            };
            let sp = spec_sv(s@, i as int, wv, sb);
            match (r.0, sp) {
                (Some(t), Some(p)) => t@ == p.0 && r.1 < s@.len() && r.1 as int == p.1,
                (None, None) => true,
                _ => false,
            }
        }),
    decreases 0int, s@.len(), s@.len() - i, 3int,
{
    if i >= s.len() {
        return (None, 0);
    }
    let c = s[i];
    if c == '\'' || c == '"' {
        if wb.is_some() {
            return (None, 0);
        }
        return scan_quote_value(s, i + 1, c, i + 1);
    }
    if c == '{' {
        if wb.is_some() || sb {
            return (None, 0);
        }
        let (o, er) = crate::object::obj_top(s, i, false);
        return match o {
            Some(o) => {
                let e: usize = match er {
                    Some(e) => e,
                    None => 0,
                };
                (Some(Type::JsonObject(o)), e)
            },
            None => (None, 0),
        };
    }
    if c == '[' {
        if wb.is_some() || sb {
            return (None, 0);
        }
        let (l, e) = crate::list::list_top(s, i, false);
        return match l {
            Some(l) => (Some(Type::JsonList(l)), e),
            None => (None, 0),
        };
    }
    if is_space(c) || c == ',' || c == '}' || c == ']' {
        match wb {
            None => {
                if c == ',' || c == '}' {
                    return (None, 0);
                }
                return scan_value(s, i + 1, None, if c == ']' {
                    true
                } else {
                    sb
                });
            },
            Some(w) => {
                let sub = sub_vec(s, w, i);
                proof {
                    assert(sub@.len() < s@.len());
                }
                let t = crate::types::parse_type_chars(&sub);
                return match t {
                    Some(v) => (Some(v), i - 1),
                    None => (None, 0),
                };
            },
        }
    }
    let nwb = match wb {
        Some(w) => Some(w),
        None => Some(i),
    };
    scan_value(s, i + 1, nwb, sb)
}

/// Inside a quoted string value: everything to the matching quote is raw
/// string text, the opposite quote is literal, a backslash skips one
/// character.
fn scan_quote_value(s: &Vec<char>, i: usize, q: char, w: usize) -> (r: (Option<Type>, usize))
    requires
        w <= i,
    ensures
        ({
            let sp = spec_svq(s@, i as int, q, w as int);
            match (r.0, sp) {
                (Some(t), Some(p)) => t@ == p.0 && r.1 < s@.len() && r.1 as int == p.1,
                (None, None) => true,
                _ => false,
            }
        }),
    decreases 0int, s@.len(), s@.len() - i, 0int,
{
    if i >= s.len() {
        return (None, 0);
    }
    let c = s[i];
    if c == '\'' || c == '"' {
        if c != q {
            return scan_quote_value(s, i + 1, q, w);
        }
        let sub = sub_vec(s, w, i);
        let mut d: Vec<char> = Vec::new();
        decode_chars(&sub, 0, &mut d);
        return (Some(Type::String(chars_to_string(&d))), i);
    }
    if c == '\\' {
        let ni: usize = if s.len() - i >= 2 {
            i + 2
        } else {
            s.len()
        };
        return scan_quote_value(s, ni, q, w);
    }
    scan_quote_value(s, i + 1, q, w)
}

// ---------------------------------------------------------------------------
// The tolerant scalar classifier for raw number-ish tokens.
// ---------------------------------------------------------------------------

/// Two texts are equal ignoring ASCII case.
pub open spec fn eq_ic(a: Seq<char>, b: Seq<char>) -> bool {
    lower_seq(a) == lower_seq(b)
}

/// What `parse_js_value_number` returns: the keywords case-insensitively,
/// a float for any dotted token, `None` for the null forms and for tokens
/// that fit no number.
pub open spec fn spec_parse_number_token(s: Seq<char>) -> Option<JVal> {
    if eq_ic(s, seq!['t', 'r', 'u', 'e']) {
        Some(JVal::Bool(true))
    } else if eq_ic(s, seq!['f', 'a', 'l', 's', 'e']) {
        Some(JVal::Bool(false))
    } else if crate::decimal::contains_char(s, '.') {
        Some(JVal::F64(crate::decimal::canon_float(lower_seq(s))))
    } else if eq_ic(s, seq!['n', 'u', 'l', 'l']) || eq_ic(s, seq!['n', 'a', 'n']) {
        None
    } else {
        match crate::num::parse_isize_spec(s) {
            Some(v) => Some(JVal::ISize(v)),
            None => None,
        }
    }
}

/// Classify a token that should denote a number, boolean or null.  A
/// dotted token must fit the float grammar, as the classification reads
/// the float text unchecked.
pub fn parse_js_value_number(value: String) -> (r: Option<Type>)
    requires
        crate::decimal::contains_char(value@, '.') ==> crate::decimal::is_float_text(
            lower_seq(value@),
        ),
    ensures
        match (r, spec_parse_number_token(value@)) {
            (Some(t), Some(jv)) => t@ == jv,
            (None, None) => true,
            _ => false,
        },
{
    let cv = str_chars(value.as_str());
    let low = to_lower_vec(&cv);
    let kw_true: Vec<char> = vec!['t', 'r', 'u', 'e'];
    let kw_false: Vec<char> = vec!['f', 'a', 'l', 's', 'e'];
    let kw_null: Vec<char> = vec!['n', 'u', 'l', 'l'];
    let kw_nan: Vec<char> = vec!['n', 'a', 'n'];
    proof {
        lemma_lower_keywords();
        assert(kw_true@ =~= seq!['t', 'r', 'u', 'e']);
        assert(kw_false@ =~= seq!['f', 'a', 'l', 's', 'e']);
        assert(kw_null@ =~= seq!['n', 'u', 'l', 'l']);
        assert(kw_nan@ =~= seq!['n', 'a', 'n']);
        assert(low@.subrange(0, low@.len() as int) =~= low@);
    }
    if crate::decimal::eq_range(&low, 0, low.len(), &kw_true) {
        return Some(Type::Boolean(true));
    }
    if crate::decimal::eq_range(&low, 0, low.len(), &kw_false) {
        return Some(Type::Boolean(false));
    }
    proof {
        crate::decimal::lemma_contains_first_idx(cv@, '.');
    }
    match crate::decimal::find_first(&cv, '.') {
        Some(_) => {
            let canon = crate::decimal::canon_float_chars(&low);
            return Some(Type::F64(chars_to_string(&canon)));
        },
        None => {},
    }
    if crate::decimal::eq_range(&low, 0, low.len(), &kw_null) || crate::decimal::eq_range(
        &low,
        0,
        low.len(),
        &kw_nan,
    ) {
        return None;
    }
    match crate::num::parse_isize_chars(&cv) {
        Some(v) => Some(Type::ISIZE(v)),
        None => None,
    }
}

/// Folding a lower-case keyword changes nothing.
proof fn lemma_lower_keywords()
    ensures
        lower_seq(seq!['t', 'r', 'u', 'e']) =~= seq!['t', 'r', 'u', 'e'],
        lower_seq(seq!['f', 'a', 'l', 's', 'e']) =~= seq!['f', 'a', 'l', 's', 'e'],
        lower_seq(seq!['n', 'u', 'l', 'l']) =~= seq!['n', 'u', 'l', 'l'],
        lower_seq(seq!['n', 'a', 'n']) =~= seq!['n', 'a', 'n'],
{
}

// ---------------------------------------------------------------------------
// Character-positional string helpers.
// ---------------------------------------------------------------------------

/// Whether the characters of `s` starting at `i` spell `pat`, where `bl`
/// caps how many characters are compared (the search takes its window from
/// the pattern's byte length).
pub open spec fn match_at(s: Seq<char>, pat: Seq<char>, bl: int, i: int) -> bool {
    s.subrange(
        i,
        if i + bl <= s.len() {
            i + bl
        } else {
            s.len() as int
        },
    ) == pat
}

pub open spec fn idx_from(s: Seq<char>, pat: Seq<char>, bl: int, i: int) -> Option<int>
    decreases s.len() - i,
{
    if i < 0 || i >= s.len() {
        None
    } else if match_at(s, pat, bl, i) {
        Some(i)
    } else {
        idx_from(s, pat, bl, i + 1)
    }
}

proof fn lemma_idx_from(s: Seq<char>, pat: Seq<char>, bl: int, i: int)
    requires
        0 <= i,
    ensures
        match idx_from(s, pat, bl, i) {
            Some(j) => i <= j < s.len() && match_at(s, pat, bl, j) && forall|k: int|
                i <= k < j ==> !match_at(s, pat, bl, k),
            None => forall|k: int| i <= k < s.len() ==> !match_at(s, pat, bl, k),
        },
    decreases s.len() - i,
{
    if 0 <= i < s.len() && !match_at(s, pat, bl, i) {
        lemma_idx_from(s, pat, bl, i + 1);
    }
}

/// Character-positional operations over owned strings.
pub trait StringExt: View<V = Seq<char>> {
    /// The characters between two offsets; reversed offsets give the empty
    /// string.
    fn substring(&self, start: isize, end: isize) -> (r: String)
        requires
            start < end ==> 0 <= start && end <= self@.len(),
        ensures
            r@ == if start < end {
                self@.subrange(start as int, end as int)
            } else {
                Seq::<char>::empty()
            },
    ;

    /// The character at an offset.
    fn char_at(&self, index: isize) -> (r: char)
        requires
            0 <= index < self@.len(),
        ensures
            r == self@[index as int],
    ;

    /// Equality up to ASCII case.
    fn equals_ignore_case(&self, other: &str) -> (r: bool)
        ensures
            r == eq_ic(self@, other@),
    ;

    /// The first offset where `other` occurs, comparing as many characters
    /// as `other` has bytes.
    fn index_of(&self, other: &str) -> (r: Option<isize>)
        requires
            other@.len() > 0,
            self@.len() <= isize::MAX as int,
        ensures
            match r {
                Some(i) => 0 <= i && idx_from(
                    self@,
                    other@,
                    (other.spec_bytes().len() as usize) as int,
                    0,
                ) == Some(i as int),
                None => idx_from(self@, other@, (other.spec_bytes().len() as usize) as int, 0)
                    is None,
            },
    ;
}

impl StringExt for String {
    fn substring(&self, start: isize, end: isize) -> (r: String) {
        if start >= end {
            let empty: Vec<char> = Vec::new();
            return chars_to_string(&empty);
        }
        let cv = str_chars(self.as_str());
        let sub = sub_vec(&cv, start as usize, end as usize);
        chars_to_string(&sub)
    }

    fn char_at(&self, index: isize) -> (r: char) {
        self.as_str().get_char(index as usize)
    }

    fn equals_ignore_case(&self, other: &str) -> (r: bool) {
        let a = str_chars(self.as_str());
        let b = str_chars(other);
        let la = to_lower_vec(&a);
        let lb = to_lower_vec(&b);
        proof {
            assert(la@.subrange(0, la@.len() as int) =~= la@);
        }
        crate::decimal::eq_range(&la, 0, la.len(), &lb)
    }

    fn index_of(&self, other: &str) -> (r: Option<isize>) {
        let cv = str_chars(self.as_str());
        let pat = str_chars(other);
        let bl = other.len();
        let n = cv.len();
        proof {
            lemma_idx_from(cv@, pat@, bl as int, 0);
        }
        let mut i: usize = 0;
        while i < n
            invariant
                i <= n,
                n == cv@.len(),
                cv@ == self@,
                pat@ == other@,
                bl == (other.spec_bytes().len() as usize),
                n <= isize::MAX as int,
                forall|k: int| 0 <= k < i ==> !match_at(cv@, pat@, bl as int, k),
            decreases n - i,
        {
            let window: usize = if bl <= n - i {
                bl
            } else {
                n - i
            };
            let hit = if window == pat.len() {
                crate::decimal::eq_range(&cv, i, i + window, &pat)
            } else {
                proof {
                    assert(cv@.subrange(
                        i as int,
                        if i + bl <= cv@.len() {
                            i + bl as int
                        } else {
                            cv@.len() as int
                        },
                    ).len() != pat@.len());
                }
                false
            };
            if hit {
                proof {
                    lemma_idx_from(cv@, pat@, bl as int, 0);
                    assert(match_at(cv@, pat@, bl as int, i as int));
                    match idx_from(cv@, pat@, bl as int, 0) {
                        Some(j) => {
                            if j < i {
                                assert(!match_at(cv@, pat@, bl as int, j));
                            }
                        },
                        None => {
                            assert(!match_at(cv@, pat@, bl as int, i as int));
                        },
                    }
                }
                return Some(i as isize);
            }
            i = i + 1;
        }
        proof {
            lemma_idx_from(cv@, pat@, bl as int, 0);
            match idx_from(cv@, pat@, bl as int, 0) {
                Some(j) => {
                    assert(!match_at(cv@, pat@, bl as int, j));
                },
                None => {},
            }
        }
        None
    }
}

} // verus!
