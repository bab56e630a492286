use vstd::prelude::*;
use crate::chars::{is_space_char, is_digit_char, digit_val, lower_char, lower_seq, trim_seq, trim_start_seq, trim_end_seq};
use crate::decimal::{contains_char, is_float_text, canon_float};
use crate::model::{JVal, spec_get, spec_decode, spec_decode_at, spec_parse_type, spec_render, spec_render_pair, spec_render_pairs, spec_sv, spec_svq};
use crate::num::{all_digits, dec_digits, dec_int, digit_char, digits_val, parse_int_val, parse_isize_spec};

verus! {

// ---------------------------------------------------------------------------
// Laws of the value model: what holds of every input, proved once over the
// specification functions that the executable contracts are stated in.
// ---------------------------------------------------------------------------

/// Trimming changes nothing when a text neither starts nor ends in
/// whitespace.
proof fn lemma_trim_id(s: Seq<char>)
    requires
        s.len() > 0,
        !is_space_char(s[0]),
        !is_space_char(s.last()),
    ensures
        trim_seq(s) == s,
{
    assert(trim_start_seq(s) == s);
    assert(trim_end_seq(s) == s);
}

/// Case folding changes nothing when a text has no upper-case ASCII
/// letter.
proof fn lemma_lower_id(s: Seq<char>)
    requires
        forall|i: int| 0 <= i < s.len() ==> lower_char(s[i]) == s[i],
    ensures
        lower_seq(s) == s,
{
    assert(lower_seq(s) =~= s);
}

/// The decimal digits of a non-negative integer: all digits, denoting the
/// integer itself.
proof fn lemma_dec_digits(m: int)
    requires
        m >= 0,
    ensures
        dec_digits(m).len() >= 1,
        all_digits(dec_digits(m)),
        digits_val(dec_digits(m)) == m,
    decreases m,
{
    if m < 10 {
        assert(digit_char(m) as int == m + 48);
        assert(is_digit_char(digit_char(m)));
        assert(digit_val(digit_char(m)) == m);
        assert(dec_digits(m) =~= seq![digit_char(m)]);
        assert(seq![digit_char(m)].last() == digit_char(m));
        assert(dec_digits(m).drop_last() =~= Seq::<char>::empty());
        assert(digits_val(Seq::<char>::empty()) == 0);
        assert(digits_val(dec_digits(m)) == digit_val(digit_char(m)));
    } else {
        assert(digit_char(m % 10) as int == m % 10 + 48);
        assert(digit_val(digit_char(m % 10)) == m % 10);
        lemma_dec_digits(m / 10);
        let a = dec_digits(m / 10);
        let c = digit_char(m % 10);
        assert(is_digit_char(c));
        assert((a + seq![c]).drop_last() =~= a);
        assert((a + seq![c]).last() == c);
        assert(digits_val(a + seq![c]) == digits_val(a) * 10 + digit_val(c));
        assert(forall|i: int| 0 <= i < a.len() ==> (a + seq![c])[i] == a[i]);
    }
}

/// A text of digits is not a keyword, has no dot and no brace, and does
/// not fold or trim.
proof fn lemma_digits_inert(s: Seq<char>)
    requires
        s.len() > 0,
        all_digits(s),
    ensures
        trim_seq(s) == s,
        lower_seq(s) == s,
        !contains_char(s, '.'),
        s != seq!['t', 'r', 'u', 'e'],
        s != seq!['f', 'a', 'l', 's', 'e'],
        s != seq!['n', 'u', 'l', 'l'],
        s != seq!['n', 'a', 'n'],
        s[0] != '{' && s[0] != '[' && s[0] != '+' && s[0] != '-',
{
    assert(is_digit_char(s[0]));
    assert(is_digit_char(s.last()));
    lemma_trim_id(s);
    assert(forall|i: int| 0 <= i < s.len() ==> lower_char(s[i]) == s[i]);
    lemma_lower_id(s);
    if contains_char(s, '.') {
        let i = choose|i: int| 0 <= i < s.len() && s[i] == '.';
        assert(is_digit_char(s[i]));
    }
    if s == seq!['t', 'r', 'u', 'e'] {
        assert(s[0] == 't');
    }
    if s == seq!['f', 'a', 'l', 's', 'e'] {
        assert(s[0] == 'f');
    }
    if s == seq!['n', 'u', 'l', 'l'] {
        assert(s[0] == 'n');
    }
    if s == seq!['n', 'a', 'n'] {
        assert(s[0] == 'n');
    }
}

/// Numeric overflow boundary: a digit token beyond the pointer-sized
/// integer range degrades to a string value rather than an integer, so it
/// round-trips as text.
pub proof fn lemma_overflow_digits_stay_text(s: Seq<char>)
    requires
        s.len() > 0,
        all_digits(s),
        digits_val(s) > isize::MAX as int,
    ensures
        spec_parse_type(s) == Some(JVal::Str(s)),
{
    lemma_digits_inert(s);
    assert(parse_int_val(s) == Some(digits_val(s)));
    assert(parse_isize_spec(s) is None);
}

/// Round trip of pointer-sized integers: rendering and re-classifying
/// gives back the value.
pub proof fn lemma_round_trip_isize(n: isize)
    ensures
        spec_parse_type(spec_render(JVal::ISize(n))) == Some(JVal::ISize(n)),
{
    let s = dec_int(n as int);
    if n >= 0 {
        lemma_dec_digits(n as int);
        lemma_digits_inert(s);
        assert(parse_int_val(s) == Some(digits_val(s)));
        assert(parse_isize_spec(s) == Some(n));
    } else {
        let a = dec_digits(-(n as int));
        lemma_dec_digits(-(n as int));
        assert(s =~= seq!['-'] + a);
        assert(s[0] == '-');
        assert(s.last() == a.last());
        assert(is_digit_char(a.last()));
        lemma_trim_id(s);
        assert(forall|i: int| 0 <= i < s.len() ==> lower_char(s[i]) == s[i]);
        lemma_lower_id(s);
        if contains_char(s, '.') {
            let i = choose|i: int| 0 <= i < s.len() && s[i] == '.';
            if i > 0 {
                assert(is_digit_char(a[i - 1]));
            }
        }
        if s == seq!['t', 'r', 'u', 'e'] {
            assert(s[0] == 't');
        }
        if s == seq!['f', 'a', 'l', 's', 'e'] {
            assert(s[0] == 'f');
        }
        if s == seq!['n', 'u', 'l', 'l'] {
            assert(s[0] == 'n');
        }
        if s == seq!['n', 'a', 'n'] {
            assert(s[0] == 'n');
        }
        let rest = s.subrange(1, s.len() as int);
        assert(rest =~= a);
        assert(parse_int_val(s) == Some(-digits_val(a)));
        assert(parse_isize_spec(s) == Some(n));
    }
}

/// Round trip of booleans and null: their renderings re-classify to the
/// same value.
pub proof fn lemma_round_trip_keywords()
    ensures
        spec_parse_type(spec_render(JVal::Bool(true))) == Some(JVal::Bool(true)),
        spec_parse_type(spec_render(JVal::Bool(false))) == Some(JVal::Bool(false)),
        spec_parse_type(spec_render(JVal::Null)) == Some(JVal::Null),
{
    let t = seq!['t', 'r', 'u', 'e'];
    let f = seq!['f', 'a', 'l', 's', 'e'];
    let n = seq!['n', 'u', 'l', 'l'];
    lemma_trim_id(t);
    lemma_trim_id(f);
    lemma_trim_id(n);
    assert(forall|i: int| 0 <= i < t.len() ==> lower_char(t[i]) == t[i]);
    assert(forall|i: int| 0 <= i < f.len() ==> lower_char(f[i]) == f[i]);
    assert(forall|i: int| 0 <= i < n.len() ==> lower_char(n[i]) == n[i]);
    lemma_lower_id(t);
    lemma_lower_id(f);
    lemma_lower_id(n);
    if f == t {
        assert(f.len() == t.len());
    }
    if n == t {
        assert(n[0] == 't');
    }
    if n == f {
        assert(n.len() == f.len());
    }
}

/// Round trip of floats in canonical text: the rendering of a float value
/// as the parser produces it re-classifies to the same value.  The inputs
/// left out are the non-canonical spellings, which the parse itself
/// collapses.
pub proof fn lemma_round_trip_float(t: Seq<char>)
    requires
        t.len() > 0,
        !is_space_char(t[0]),
        !is_space_char(t.last()),
        forall|i: int| 0 <= i < t.len() ==> lower_char(t[i]) == t[i],
        contains_char(t, '.'),
        is_float_text(t),
        canon_float(t) == t,
    ensures
        spec_parse_type(spec_render(JVal::F64(t))) == Some(JVal::F64(t)),
{
    lemma_trim_id(t);
    lemma_lower_id(t);
    let i = choose|i: int| 0 <= i < t.len() && t[i] == '.';
    if t == seq!['t', 'r', 'u', 'e'] {
        assert(t[i] == '.');
        assert(false);
    }
    if t == seq!['f', 'a', 'l', 's', 'e'] {
        assert(t[i] == '.');
        assert(false);
    }
    if t == seq!['n', 'u', 'l', 'l'] {
        assert(t[i] == '.');
        assert(false);
    }
    if t == seq!['n', 'a', 'n'] {
        assert(t[i] == '.');
        assert(false);
    }
}

/// Round trip of floats as the parser produces them: a dotted,
/// exponent-free token inside the float grammar classifies to a canonical
/// float value, and rendering that value re-classifies to it exactly.
pub proof fn lemma_round_trip_float_parsed(low: Seq<char>)
    requires
        contains_char(low, '.'),
        is_float_text(low),
        !contains_char(low, 'e'),
    ensures
        spec_parse_type(spec_render(JVal::F64(canon_float(low)))) == Some(
            JVal::F64(canon_float(low)),
        ),
{
    crate::decimal::lemma_canon_float_props(low);
    lemma_round_trip_float(canon_float(low));
}

/// Decoding is the identity on text without a backslash.
proof fn lemma_decode_at_id(s: Seq<char>, i: int)
    requires
        0 <= i <= s.len(),
        forall|k: int| 0 <= k < s.len() ==> s[k] != '\\',
    ensures
        spec_decode_at(s, i) == s.subrange(i, s.len() as int),
    decreases s.len() - i,
{
    if i >= s.len() {
        assert(s.subrange(i, s.len() as int) =~= Seq::<char>::empty());
    } else {
        lemma_decode_at_id(s, i + 1);
        assert(seq![s[i]] + s.subrange(i + 1, s.len() as int) =~= s.subrange(i, s.len() as int));
    }
}

/// The string scanner consumes a plain double-quoted run verbatim.
proof fn lemma_svq_plain(s: Seq<char>, i: int, w: int, m: int)
    requires
        0 <= w <= i <= m < s.len(),
        s[m] == '"',
        forall|k: int| i <= k < m ==> s[k] != '"' && s[k] != '\'' && s[k] != '\\',
    ensures
        spec_svq(s, i, '"', w) == Some((JVal::Str(spec_decode(s.subrange(w, m))), m)),
    decreases m - i,
{
    if i < m {
        lemma_svq_plain(s, i + 1, w, m);
    }
}

/// Round trip of strings: the rendering of a string value without quotes
/// or backslashes scans back to the same value.  A string holding a quote
/// or a backslash is rendered verbatim and does not survive the trip, the
/// rendering being unescaped.
pub proof fn lemma_round_trip_string(sv: Seq<char>)
    requires
        forall|k: int| 0 <= k < sv.len() ==> sv[k] != '"' && sv[k] != '\'' && sv[k] != '\\',
    ensures
        spec_sv(spec_render(JVal::Str(sv)), 0, None, false) == Some(
            (JVal::Str(sv), sv.len() + 1 as int),
        ),
{
    let s = seq!['"'] + sv + seq!['"'];
    assert(spec_render(JVal::Str(sv)) == s);
    assert(s.len() == sv.len() + 2);
    assert(s[0] == '"');
    assert(s[sv.len() + 1 as int] == '"');
    assert(forall|k: int| 1 <= k < sv.len() + 1 ==> s[k] == sv[k - 1]);
    lemma_svq_plain(s, 1, 1, sv.len() + 1 as int);
    let run = s.subrange(1, sv.len() + 1 as int);
    assert(run =~= sv);
    lemma_decode_at_id(sv, 0);
    assert(sv.subrange(0, sv.len() as int) =~= sv);
    assert(spec_decode(sv) == sv);
}

/// Duplicate keys: appending two string members under one key leaves the
/// first to answer lookup, while the full rendering still holds both, in
/// order.  This is the asymmetry of the append-only object.
pub proof fn lemma_duplicate_keys(k: Seq<char>, x: Seq<char>, y: Seq<char>)
    ensures
        ({
            let o = Seq::<(Seq<char>, JVal)>::empty().push((k, JVal::Str(x))).push(
                (k, JVal::Str(y)),
            );
            spec_get(o, k) == Some(JVal::Str(x)) && seq!['{'] + spec_render_pairs(o) + seq!['}']
                == seq!['{'] + spec_render_pair((k, JVal::Str(x))) + seq![','] + spec_render_pair(
                (k, JVal::Str(y)),
            ) + seq!['}']
        }),
{
    let o = Seq::<(Seq<char>, JVal)>::empty().push((k, JVal::Str(x))).push((k, JVal::Str(y)));
    assert(o.len() == 2);
    assert(o[0] == (k, JVal::Str(x)));
    assert(o[1] == (k, JVal::Str(y)));
    assert(spec_get(o, k) == Some(JVal::Str(x)));
    assert(o.drop_first() =~= seq![(k, JVal::Str(y))]);
    assert(spec_render_pairs(o.drop_first()) == spec_render_pair((k, JVal::Str(y))));
    assert(spec_render_pairs(o) == spec_render_pair(o[0]) + seq![','] + spec_render_pairs(
        o.drop_first(),
    ));
}

} // verus!
