use vstd::prelude::*;
use crate::chars::{is_space_char, lower_seq, trim_seq, trim_start_seq, trim_end_seq};
use crate::decimal::{contains_char, is_float_text, canon_float};
use crate::num::{dec_int, parse_isize_spec, parse_hex_u32_spec};

verus! {

/// The mathematical value model: what a parsed document denotes.  Strings
/// are character sequences; the two float kinds carry their canonical
/// decimal text; objects are ordered, duplicate-tolerant entry sequences.
#[verifier::ext_equal]
pub enum JVal {
    I8(i8),
    I16(i16),
    I32(i32),
    I64(i64),
    I128(i128),
    ISize(isize),
    U8(u8),
    U16(u16),
    U32(u32),
    U64(u64),
    U128(u128),
    USize(usize),
    F32(Seq<char>),
    F64(Seq<char>),
    Str(Seq<char>),
    Bool(bool),
    Obj(Seq<(Seq<char>, JVal)>),
    Lst(Seq<JVal>),
    Null,
}

/// First entry whose key matches, if any: lookup never sees later
/// duplicates.
pub open spec fn spec_get(prs: Seq<(Seq<char>, JVal)>, k: Seq<char>) -> Option<JVal>
    decreases prs.len(),
{
    if prs.len() == 0 {
        None
    } else if prs[0].0 == k {
        Some(prs[0].1)
    } else {
        spec_get(prs.drop_first(), k)
    }
}

// ---------------------------------------------------------------------------
// The escape codec: the value of the raw characters between two matching
// quotes.  `\" \' \/ \\` produce the bare character; `\b \f \n \r \t` keep
// the two-character escape text; `\uXXXX` consumes four characters and
// produces the decoded scalar, or nothing when the digits are missing or
// invalid; a lone trailing backslash produces nothing.
// ---------------------------------------------------------------------------

/// Strip leading copies of the two-character prefix [a, b].
pub open spec fn strip2(t: Seq<char>, a: char, b: char) -> Seq<char>
    decreases t.len(),
{
    if t.len() >= 2 && t[0] == a && t[1] == b {
        strip2(t.subrange(2, t.len() as int), a, b)
    } else {
        t
    }
}

/// The scalar a four-character unicode escape denotes, if any: the text is
/// stripped of `\u` prefixes, upper-cased, stripped of `\U` prefixes, and
/// read as hexadecimal.
pub open spec fn spec_u2c(t: Seq<char>) -> Option<char> {
    let u1 = strip2(t, '\\', 'u');
    let u2 = crate::chars::upper_seq(u1);
    let u3 = strip2(u2, '\\', 'U');
    match parse_hex_u32_spec(u3) {
        Some(code) => if code < 0xD800 || (0xE000 <= code && code < 0x110000) {
            Some(code as char)
        } else {
            None
        },
        None => None,
    }
}

pub open spec fn spec_u2c_emit(t: Seq<char>) -> Seq<char> {
    match spec_u2c(t) {
        Some(c) => seq![c],
        None => Seq::<char>::empty(),
    }
}

pub open spec fn spec_decode_at(s: Seq<char>, i: int) -> Seq<char>
    decreases s.len() - i, 1int,
{
    if i < 0 || i >= s.len() {
        Seq::<char>::empty()
    } else if s[i] == '\\' {
        spec_esc(s, i + 1)
    } else {
        seq![s[i]] + spec_decode_at(s, i + 1)
    }
}

pub open spec fn spec_esc(s: Seq<char>, j: int) -> Seq<char>
    decreases s.len() - j, 0int,
{
    if j < 0 || j >= s.len() {
        Seq::<char>::empty()
    } else {
        let c = s[j];
        if c == '"' || c == '\'' || c == '/' || c == '\\' {
            seq![c] + spec_decode_at(s, j + 1)
        } else if c == 'b' {
            seq!['\\', 'b'] + spec_decode_at(s, j + 1)
        } else if c == 'f' {
            seq!['\\', 'f'] + spec_decode_at(s, j + 1)
        } else if c == 'n' {
            seq!['\\', 'n'] + spec_decode_at(s, j + 1)
        } else if c == 'r' {
            seq!['\\', 'r'] + spec_decode_at(s, j + 1)
        } else if c == 't' {
            seq!['\\', 't'] + spec_decode_at(s, j + 1)
        } else if c == 'u' {
            if j + 5 <= s.len() {
                spec_u2c_emit(s.subrange(j + 1, j + 5)) + spec_decode_at(s, j + 5)
            } else {
                spec_decode_at(s, j + 1)
            }
        } else {
            spec_decode_at(s, j + 1)
        }
    }
}

/// The decoded value of a raw quoted run.
pub open spec fn spec_decode(s: Seq<char>) -> Seq<char> {
    spec_decode_at(s, 0)
}

// ---------------------------------------------------------------------------
// Rendering: the compact single-line form.
// ---------------------------------------------------------------------------

pub open spec fn spec_render(v: JVal) -> Seq<char>
    decreases v, 1int, 0int,
{
    match v {
        JVal::I8(n) => dec_int(n as int),
        JVal::I16(n) => dec_int(n as int),
        JVal::I32(n) => dec_int(n as int),
        JVal::I64(n) => dec_int(n as int),
        JVal::I128(n) => dec_int(n as int),
        JVal::ISize(n) => dec_int(n as int),
        JVal::U8(n) => dec_int(n as int),
        JVal::U16(n) => dec_int(n as int),
        JVal::U32(n) => dec_int(n as int),
        JVal::U64(n) => dec_int(n as int),
        JVal::U128(n) => dec_int(n as int),
        JVal::USize(n) => dec_int(n as int),
        JVal::F32(t) => t,
        JVal::F64(t) => t,
        JVal::Str(s) => seq!['"'] + s + seq!['"'],
        JVal::Bool(b) => if b {
            seq!['t', 'r', 'u', 'e']
        } else {
            seq!['f', 'a', 'l', 's', 'e']
        },
        JVal::Obj(prs) => seq!['{'] + spec_render_pairs(prs) + seq!['}'],
        JVal::Lst(vs) => seq!['['] + spec_render_vals(vs) + seq![']'],
        JVal::Null => seq!['n', 'u', 'l', 'l'],
    }
}

/// One object member: `"key":value`.
pub open spec fn spec_render_pair(p: (Seq<char>, JVal)) -> Seq<char>
    decreases p, 2int, 0int,
{
    seq!['"'] + p.0 + seq!['"', ':'] + spec_render(p.1)
}

pub open spec fn spec_render_pairs(prs: Seq<(Seq<char>, JVal)>) -> Seq<char>
    decreases prs, 3int, prs.len(),
{
    if prs.len() == 0 {
        Seq::<char>::empty()
    } else if prs.len() == 1 {
        spec_render_pair(prs[0])
    } else {
        spec_render_pair(prs[0]) + seq![','] + spec_render_pairs(prs.drop_first())
    }
}

pub open spec fn spec_render_vals(vs: Seq<JVal>) -> Seq<char>
    decreases vs, 3int, vs.len(),
{
    if vs.len() == 0 {
        Seq::<char>::empty()
    } else if vs.len() == 1 {
        spec_render(vs[0])
    } else {
        spec_render(vs[0]) + seq![','] + spec_render_vals(vs.drop_first())
    }
}

// ---------------------------------------------------------------------------
// Rendering: the indented multi-line form.  Containers open on their own
// line, each member sits on a line indented four spaces deeper, the last
// member carries no comma, and the closing brace is indented at the outer
// level.
// ---------------------------------------------------------------------------

/// One indentation step: four spaces.
pub open spec fn indent_step() -> Seq<char> {
    seq![' ', ' ', ' ', ' ']
}

/// The indented rendering of a value whose enclosing level is padded by
/// `pad`: a container opens on its own line, members sit one level deeper,
/// and the closing delimiter is padded by `pad` itself.
pub open spec fn spec_render_line(v: JVal, pad: Seq<char>) -> Seq<char>
    decreases v, 1int, 0int,
{
    match v {
        JVal::Obj(prs) => seq!['{', '\n'] + spec_render_pairs_line(prs, pad + indent_step())
            + seq!['\n'] + pad + seq!['}'],
        JVal::Lst(vs) => seq!['[', '\n'] + spec_render_vals_line(vs, pad + indent_step())
            + seq!['\n'] + pad + seq![']'],
        _ => spec_render(v),
    }
}

pub open spec fn spec_render_pair_line(p: (Seq<char>, JVal), pad: Seq<char>) -> Seq<char>
    decreases p, 2int, 0int,
{
    seq!['"'] + p.0 + seq!['"', ':', ' '] + spec_render_line(p.1, pad)
}

pub open spec fn spec_render_pairs_line(prs: Seq<(Seq<char>, JVal)>, pad: Seq<char>) -> Seq<char>
    decreases prs, 3int, prs.len(),
{
    if prs.len() == 0 {
        Seq::<char>::empty()
    } else if prs.len() == 1 {
        pad + spec_render_pair_line(prs[0], pad)
    } else {
        pad + spec_render_pair_line(prs[0], pad) + seq![',', '\n'] + spec_render_pairs_line(
            prs.drop_first(),
            pad,
        )
    }
}

pub open spec fn spec_render_vals_line(vs: Seq<JVal>, pad: Seq<char>) -> Seq<char>
    decreases vs, 3int, vs.len(),
{
    if vs.len() == 0 {
        Seq::<char>::empty()
    } else if vs.len() == 1 {
        pad + spec_render_line(vs[0], pad)
    } else {
        pad + spec_render_line(vs[0], pad) + seq![',', '\n'] + spec_render_vals_line(
            vs.drop_first(),
            pad,
        )
    }
}

// ---------------------------------------------------------------------------
// The parsing machine.  Three mutually recursive scanners walk the text by
// character position; the integer alongside a successful value is the
// offset of the last character consumed, exactly as the cursor protocol
// hands it back.  A `None` offset from the object scanner means the scan
// ran off the end of the text after a complete member list, in which case
// the cursor cell is left untouched.
// ---------------------------------------------------------------------------

pub type SpecPairs = Seq<(Seq<char>, JVal)>;

/// Classify an unquoted scalar token, with the tolerant fallbacks: keywords
/// first, then a float when a dot is present, a nested container when
/// the token is braced, an integer otherwise, and the bare text when no
/// number can be read.  `None` only for a braced token that fails to parse.
pub open spec fn spec_parse_type(s: Seq<char>) -> Option<JVal>
    decreases 0int, s.len(), s.len() + 1, 0int,
    via spec_parse_type_dec
{
    let t = trim_seq(s);
    let low = lower_seq(t);
    if low == seq!['t', 'r', 'u', 'e'] {
        Some(JVal::Bool(true))
    } else if low == seq!['f', 'a', 'l', 's', 'e'] {
        Some(JVal::Bool(false))
    } else if low == seq!['n', 'u', 'l', 'l'] || low == seq!['n', 'a', 'n'] {
        Some(JVal::Null)
    } else if contains_char(low, '.') {
        if is_float_text(low) {
            Some(JVal::F64(canon_float(low)))
        } else {
            Some(JVal::Str(s))
        }
    } else if low.len() > 0 && low[0] == '{' && low.last() == '}' {
        match spec_top_obj(t, 0, false) {
            Some(r) => Some(JVal::Obj(r.0)),
            None => None,
        }
    } else if low.len() > 0 && low[0] == '[' && low.last() == ']' {
        match spec_top_list(t, 0, false) {
            Some(r) => Some(JVal::Lst(r.0)),
            None => None,
        }
    } else {
        match parse_isize_spec(low) {
            Some(v) => Some(JVal::ISize(v)),
            None => Some(JVal::Str(s)),
        }
    }
}

#[via_fn]
proof fn spec_parse_type_dec(s: Seq<char>) {
    lemma_trim_len(s);
    assert(lower_seq(trim_seq(s)).len() == trim_seq(s).len());
}

pub proof fn lemma_trim_len(s: Seq<char>)
    ensures
        trim_seq(s).len() <= s.len(),
{
    lemma_trim_start_len(s);
    lemma_trim_end_len(trim_start_seq(s));
}

proof fn lemma_trim_start_len(s: Seq<char>)
    ensures
        trim_start_seq(s).len() <= s.len(),
    decreases s.len(),
{
    if s.len() > 0 && is_space_char(s[0]) {
        lemma_trim_start_len(s.drop_first());
    }
}

proof fn lemma_trim_end_len(s: Seq<char>)
    ensures
        trim_end_seq(s).len() <= s.len(),
    decreases s.len(),
{
    if s.len() > 0 && is_space_char(s.last()) {
        lemma_trim_end_len(s.drop_last());
    }
}

/// Position bookkeeping for the object scanner's entry: skip whitespace,
/// demand an opening brace.
pub open spec fn top_pos(s: Seq<char>, start: int) -> int {
    if start < s.len() {
        s.len() - start
    } else {
        s.len() as int + 1
    }
}

/// The object scanner's entry: find the opening brace, then run the member
/// loop just after it.  `outer` marks a call from the public interface,
/// where a start offset beyond the text makes the scan restart at the
/// first character; the nested scanners always sit on the opening brace.
pub open spec fn spec_top_obj(s: Seq<char>, start: int, outer: bool) -> Option<
    (SpecPairs, Option<int>),
>
    decreases (if outer { 1int } else { 0int }), s.len(), top_pos(s, start), 2int,
{
    if s.len() == 0 {
        None
    } else if start >= s.len() {
        if outer && s[0] == '{' {
            spec_so(s, 1, Seq::empty(), None, true, None)
        } else {
            None
        }
    } else {
        spec_obj_skip(s, start)
    }
}

pub open spec fn spec_obj_skip(s: Seq<char>, i: int) -> Option<(SpecPairs, Option<int>)>
    decreases 0int, s.len(), s.len() - i, 1int,
{
    if i < 0 || i >= s.len() {
        None
    } else if s[i] == '{' {
        spec_so(s, i + 1, Seq::empty(), None, true, None)
    } else if is_space_char(s[i]) {
        spec_obj_skip(s, i + 1)
    } else {
        None
    }
}

/// The member loop of the object scanner.  `acc` holds the members read so
/// far, `key` a key awaiting its value, `ps` whether a member may start
/// here, `wb` the position where a bare word began.
pub open spec fn spec_so(
    s: Seq<char>,
    i: int,
    acc: SpecPairs,
    key: Option<Seq<char>>,
    ps: bool,
    wb: Option<int>,
) -> Option<(SpecPairs, Option<int>)>
    decreases 0int, s.len(), s.len() - i, 9int,
{
    if i < 0 {
        None
    } else if i >= s.len() {
        if key is Some || wb is Some || ps {
            None
        } else {
            Some((acc, None))
        }
    } else {
        let c = s[i];
        if c == '\'' || c == '"' {
            if !ps {
                None
            } else if wb is Some {
                None
            } else {
                spec_soq(s, i + 1, c, i + 1, acc, key, ps)
            }
        } else if is_space_char(c) || c == '}' {
            if wb is Some {
                if !ps || key is Some {
                    None
                } else {
                    let k = spec_decode(s.subrange(wb->Some_0, i));
                    if k.len() == 0 {
                        None
                    } else if c == '}' {
                        spec_so_finish(acc, Some(k), ps, None, i)
                    } else {
                        spec_so(s, i + 1, acc, Some(k), ps, None)
                    }
                }
            } else {
                if c == '}' {
                    spec_so_finish(acc, key, ps, wb, i)
                } else {
                    spec_so(s, i + 1, acc, key, ps, wb)
                }
            }
        } else if c == ':' {
            if !ps {
                None
            } else if key is Some {
                spec_so_value(s, i, acc, key->Some_0, wb)
            } else if wb is None {
                None
            } else {
                let k = spec_decode(s.subrange(wb->Some_0, i));
                if k.len() == 0 {
                    None
                } else {
                    spec_so_value(s, i, acc, k, None)
                }
            }
        } else if c == ',' {
            if key is Some || wb is Some {
                None
            } else {
                spec_so(s, i + 1, acc, key, true, wb)
            }
        } else {
            spec_so(s, i + 1, acc, key, ps, if wb is Some {
                wb
            } else {
                Some(i)
            })
        }
    }
}

/// The closing brace: an empty object clears the member-expected flag, and
/// the loop's final checks reject a dangling key or word.
pub open spec fn spec_so_finish(
    acc: SpecPairs,
    key: Option<Seq<char>>,
    ps: bool,
    wb: Option<int>,
    at: int,
) -> Option<(SpecPairs, Option<int>)> {
    let ps2 = if acc.len() == 0 {
        false
    } else {
        ps
    };
    if key is Some || wb is Some || ps2 {
        None
    } else {
        Some((acc, Some(at)))
    }
}

/// A colon with its key in hand: read the value just after it and resume
/// the member loop past what the value consumed.
pub open spec fn spec_so_value(s: Seq<char>, i: int, acc: SpecPairs, k: Seq<char>, wb2: Option<
    int,
>) -> Option<(SpecPairs, Option<int>)>
    decreases 0int, s.len(), s.len() - i, 8int,
{
    if i < 0 || i >= s.len() {
        None
    } else {
        match spec_sv(s, i + 1, None, false) {
        None => None,
        Some((v, e)) => {
            let resume = if e + 1 > i + 1 {
                e + 1
            } else {
                i + 1
            };
            spec_so(s, if resume <= s.len() { resume } else { s.len() as int }, acc.push((k, v)),
                None, false, wb2)
        },
        }
    }
}

/// Inside a quoted key: everything up to the matching quote is raw key
/// text, the opposite quote is literal, a backslash skips one character.
pub open spec fn spec_soq(
    s: Seq<char>,
    i: int,
    q: char,
    w: int,
    acc: SpecPairs,
    key: Option<Seq<char>>,
    ps: bool,
) -> Option<(SpecPairs, Option<int>)>
    decreases 0int, s.len(), s.len() - i, 0int,
{
    if i < 0 || i >= s.len() {
        None
    } else {
        let c = s[i];
        if c == '\'' || c == '"' {
            if !ps {
                None
            } else if c != q {
                spec_soq(s, i + 1, q, w, acc, key, ps)
            } else if key is Some {
                None
            } else {
                spec_so(s, i + 1, acc, Some(spec_decode(s.subrange(w, i))), ps, None)
            }
        } else if c == '\\' {
            spec_soq(s, if i + 2 <= s.len() { i + 2 } else { s.len() as int }, q, w, acc, key, ps)
        } else {
            spec_soq(s, i + 1, q, w, acc, key, ps)
        }
    }
}

/// The generic value scanner.  `wb` is the position where an unquoted token
/// began; `sb` records that a stray closing bracket was skipped, which the
/// container branches reject when they rescan from the call position.
pub open spec fn spec_sv(s: Seq<char>, i: int, wb: Option<int>, sb: bool) -> Option<(JVal, int)>
    decreases 0int, s.len(), s.len() - i, 3int,
{
    if i < 0 || i >= s.len() {
        None
    } else {
        let c = s[i];
        if c == '\'' || c == '"' {
            if wb is Some {
                None
            } else {
                spec_svq(s, i + 1, c, i + 1)
            }
        } else if c == '{' {
            if wb is Some {
                None
            } else if sb {
                None
            } else {
                match spec_top_obj(s, i, false) {
                    None => None,
                    Some((prs, er)) => Some(
                        (
                            JVal::Obj(prs),
                            match er {
                                Some(e) => e,
                                None => 0,
                            },
                        ),
                    ),
                }
            }
        } else if c == '[' {
            if wb is Some {
                None
            } else if sb {
                None
            } else {
                match spec_top_list(s, i, false) {
                    None => None,
                    Some((vs, e)) => Some((JVal::Lst(vs), e)),
                }
            }
        } else if is_space_char(c) || c == ',' || c == '}' || c == ']' {
            if wb is None {
                if c == ',' || c == '}' {
                    None
                } else {
                    spec_sv(s, i + 1, None, if c == ']' {
                        true
                    } else {
                        sb
                    })
                }
            } else {
                let w0 = if 0 <= wb->Some_0 && wb->Some_0 <= i {
                    wb->Some_0
                } else {
                    0
                };
                match spec_parse_type(s.subrange(w0, i)) {
                    None => None,
                    Some(v) => Some((v, i - 1)),
                }
            }
        } else {
            spec_sv(s, i + 1, if wb is Some {
                wb
            } else {
                Some(i)
            }, sb)
        }
    }
}

/// Inside a quoted string value.
pub open spec fn spec_svq(s: Seq<char>, i: int, q: char, w: int) -> Option<(JVal, int)>
    decreases 0int, s.len(), s.len() - i, 0int,
{
    if i < 0 || i >= s.len() {
        None
    } else {
        let c = s[i];
        if c == '\'' || c == '"' {
            if c != q {
                spec_svq(s, i + 1, q, w)
            } else {
                Some((JVal::Str(spec_decode(s.subrange(w, i))), i))
            }
        } else if c == '\\' {
            spec_svq(s, if i + 2 <= s.len() { i + 2 } else { s.len() as int }, q, w)
        } else {
            spec_svq(s, i + 1, q, w)
        }
    }
}

/// The list scanner's entry: find the opening bracket, then run the element
/// loop just after it.
pub open spec fn spec_top_list(s: Seq<char>, start: int, outer: bool) -> Option<(Seq<JVal>, int)>
    decreases (if outer { 1int } else { 0int }), s.len(), top_pos(s, start), 2int,
{
    if s.len() == 0 {
        None
    } else if start >= s.len() {
        if outer && s[0] == '[' {
            spec_sl(s, 1, Seq::empty(), true, 0)
        } else {
            None
        }
    } else {
        spec_list_skip(s, start, outer)
    }
}

pub open spec fn spec_list_skip(s: Seq<char>, i: int, outer: bool) -> Option<(Seq<JVal>, int)>
    decreases (if outer { 1int } else { 0int }), s.len(), s.len() - i, 1int,
{
    if i < 0 || i >= s.len() {
        if outer && s.len() > 0 && s[0] == '[' {
            spec_sl(s, 1, Seq::empty(), true, 0)
        } else {
            None
        }
    } else if s[i] == '[' {
        spec_sl(s, i + 1, Seq::empty(), true, 0)
    } else if is_space_char(s[i]) {
        spec_list_skip(s, i + 1, outer)
    } else {
        None
    }
}

/// The element loop of the list scanner.  `vs` is whether an element is
/// expected; `cur` the cursor value last written.
pub open spec fn spec_sl(s: Seq<char>, i: int, acc: Seq<JVal>, vs: bool, cur: int) -> Option<
    (Seq<JVal>, int),
>
    decreases 0int, s.len(), s.len() - i, 4int,
{
    if i < 0 {
        None
    } else if i >= s.len() {
        if vs {
            None
        } else {
            Some((acc, cur))
        }
    } else {
        let c = s[i];
        if is_space_char(c) {
            spec_sl(s, i + 1, acc, vs, cur)
        } else if c == ']' {
            let vs2 = if acc.len() == 0 {
                false
            } else {
                vs
            };
            if vs2 {
                None
            } else {
                Some((acc, i))
            }
        } else if vs {
            match spec_sv(s, i, None, false) {
                None => None,
                Some((v, e)) => {
                    let resume = if e + 1 > i + 1 {
                        e + 1
                    } else {
                        i + 1
                    };
                    spec_sl(s, if resume <= s.len() { resume } else { s.len() as int },
                        acc.push(v), false, e)
                },
            }
        } else if c == ',' {
            spec_sl(s, i + 1, acc, true, cur)
        } else {
            Some((acc, cur))
        }
    }
}

} // verus!
