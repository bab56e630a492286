use vstd::prelude::*;
use crate::chars::{str_chars, chars_to_string, push_str_chars, push_all, trim_vec, to_lower_vec};
use crate::decimal::{canon_float_chars, find_first, is_float_text_chars, lemma_contains_first_idx, eq_range};
use crate::list::JsonList;
use crate::model::{JVal, spec_parse_type, spec_render, spec_render_pair, spec_render_pairs, spec_render_vals, spec_render_line, spec_render_pair_line, spec_render_pairs_line, spec_render_vals_line, indent_step, lemma_trim_len};
use crate::num::{push_dec_i128, push_dec_u128, parse_isize_chars};
use crate::object::JsonObject;
use crate::pair::Pair;

verus! {

/// A one-field cell used to hand a cursor position back through a `&mut`
/// parameter in the scanner entry points.
#[derive(Debug, PartialEq)]
pub struct Wrap<T>(pub T);

/// The closed value model: every JSON-representable scalar or container.
/// The float kinds carry their canonical decimal text, since native floats
/// stay outside verified code.
#[derive(Debug, PartialEq)]
pub enum Type {
    I8(i8),
    I16(i16),
    I32(i32),
    I64(i64),
    I128(i128),
    ISIZE(isize),
    U8(u8),
    U16(u16),
    U32(u32),
    U64(u64),
    U128(u128),
    USIZE(usize),
    F32(String),
    F64(String),
    String(String),
    Boolean(bool),
    JsonObject(JsonObject),
    JsonList(JsonList),
    Null,
}

impl View for Type {
    type V = JVal;

    open spec fn view(&self) -> JVal
        decreases self, 0int,
    {
        match self {
            Type::I8(n) => JVal::I8(*n),
            Type::I16(n) => JVal::I16(*n),
            Type::I32(n) => JVal::I32(*n),
            Type::I64(n) => JVal::I64(*n),
            Type::I128(n) => JVal::I128(*n),
            Type::ISIZE(n) => JVal::ISize(*n),
            Type::U8(n) => JVal::U8(*n),
            Type::U16(n) => JVal::U16(*n),
            Type::U32(n) => JVal::U32(*n),
            Type::U64(n) => JVal::U64(*n),
            Type::U128(n) => JVal::U128(*n),
            Type::USIZE(n) => JVal::USize(*n),
            Type::F32(t) => JVal::F32(t@),
            Type::F64(t) => JVal::F64(t@),
            Type::String(s) => JVal::Str(s@),
            Type::Boolean(b) => JVal::Bool(*b),
            Type::JsonObject(o) => JVal::Obj(o.view()),
            Type::JsonList(l) => JVal::Lst(l.view()),
            Type::Null => JVal::Null,
        }
    }
}

impl Type {
    /// Classify an unquoted scalar token: the keywords, then floats, nested
    /// containers, integers, and finally the bare text as a string.  `None`
    /// only when a braced token fails to parse as a container.
    pub fn parse_type(value: &str) -> (r: Option<Type>)
        ensures
            match (r, spec_parse_type(value@)) {
                (Some(t), Some(v)) => t@ == v,
                (None, None) => true,
                _ => false,
            },
    {
        let cv = str_chars(value);
        parse_type_chars(&cv)
    }

    /// The compact rendering of this value.
    pub fn to_json(&self) -> (r: String)
        ensures
            r@ == spec_render(self@),
    {
        let mut out: Vec<char> = Vec::new();
        render_value(self, &mut out);
        chars_to_string(&out)
    }

    /// The indented rendering, with the enclosing level padded by `pad`.
    pub(crate) fn to_json_line(&self, pad: &Vec<char>) -> (r: String)
        ensures
            r@ == spec_render_line(self@, pad@),
    {
        let mut out: Vec<char> = Vec::new();
        render_line(self, pad, &mut out);
        chars_to_string(&out)
    }
}

// ---------------------------------------------------------------------------
// Compact rendering.
// ---------------------------------------------------------------------------

pub(crate) fn render_value(t: &Type, out: &mut Vec<char>)
    ensures
        final(out)@ == old(out)@ + spec_render(t@),
    decreases t, 1int, 0int,
{
    match t {
        Type::I8(n) => push_dec_i128(*n as i128, out),
        Type::I16(n) => push_dec_i128(*n as i128, out),
        Type::I32(n) => push_dec_i128(*n as i128, out),
        Type::I64(n) => push_dec_i128(*n as i128, out),
        Type::I128(n) => push_dec_i128(*n, out),
        Type::ISIZE(n) => push_dec_i128(*n as i128, out),
        Type::U8(n) => push_dec_u128(*n as u128, out),
        Type::U16(n) => push_dec_u128(*n as u128, out),
        Type::U32(n) => push_dec_u128(*n as u128, out),
        Type::U64(n) => push_dec_u128(*n as u128, out),
        Type::U128(n) => push_dec_u128(*n, out),
        Type::USIZE(n) => push_dec_u128(*n as u128, out),
        Type::F32(txt) => push_str_chars(txt.as_str(), out),
        Type::F64(txt) => push_str_chars(txt.as_str(), out),
        Type::String(s) => {
            out.push('"');
            push_str_chars(s.as_str(), out);
            out.push('"');
            proof {
                assert(out@ =~= old(out)@ + spec_render(t@));
            }
        },
        Type::Boolean(b) => {
            if *b {
                out.push('t');
                out.push('r');
                out.push('u');
                out.push('e');
            } else {
                out.push('f');
                out.push('a');
                out.push('l');
                out.push('s');
                out.push('e');
            }
            proof {
                assert(out@ =~= old(out)@ + spec_render(t@));
            }
        },
        Type::JsonObject(o) => {
            out.push('{');
            render_pairs_from(&o.list, 0, out);
            out.push('}');
            proof {
                crate::object::obj_view_eq(o);
                assert(out@ =~= old(out)@ + spec_render(t@));
            }
        },
        Type::JsonList(l) => {
            out.push('[');
            render_vals_from(&l.0, 0, out);
            out.push(']');
            proof {
                assert(crate::list::vals_view_at(l.0@, 0) =~= l@);
                assert(out@ =~= old(out)@ + spec_render(t@));
            }
        },
        Type::Null => {
            out.push('n');
            out.push('u');
            out.push('l');
            out.push('l');
            proof {
                assert(out@ =~= old(out)@ + spec_render(t@));
            }
        },
    }
}

pub(crate) fn render_pair(p: &Pair, out: &mut Vec<char>)
    ensures
        final(out)@ == old(out)@ + spec_render_pair((p.first@, p.second@)),
    decreases p, 2int, 0int,
{
    out.push('"');
    push_str_chars(p.first.as_str(), out);
    out.push('"');
    out.push(':');
    render_value(&p.second, out);
    proof {
        assert(out@ =~= old(out)@ + spec_render_pair((p.first@, p.second@)));
    }
}

pub(crate) fn render_pairs_from(l: &Vec<Pair>, k: usize, out: &mut Vec<char>)
    requires
        k <= l@.len(),
    ensures
        final(out)@ == old(out)@ + spec_render_pairs(crate::object::pairs_view_at(l@, k as int)),
    decreases l, 3int, l@.len() - k,
{
    let ghost pv = crate::object::pairs_view_at(l@, k as int);
    if k >= l.len() {
        proof {
            assert(pv =~= Seq::<(Seq<char>, JVal)>::empty());
            assert(out@ =~= old(out)@ + spec_render_pairs(pv));
        }
        return ;
    }
    proof {
        crate::object::lemma_pairs_view_len(l@, k as int);
        assert(pv.len() == l@.len() - k);
        assert(pv[0] == (l@[k as int].first@, l@[k as int].second@));
    }
    let p = &l[k];
    render_pair(p, out);
    if k + 1 < l.len() {
        out.push(',');
        render_pairs_from(l, k + 1, out);
        proof {
            assert(pv.drop_first() =~= crate::object::pairs_view_at(l@, k + 1 as int));
            assert(spec_render_pairs(pv) == spec_render_pair(pv[0]) + seq![',']
                + spec_render_pairs(pv.drop_first()));
            assert(out@ =~= old(out)@ + spec_render_pairs(pv));
        }
    } else {
        proof {
            assert(pv.len() == 1);
            assert(out@ =~= old(out)@ + spec_render_pairs(pv));
        }
    }
}

pub(crate) fn render_vals_from(l: &Vec<Type>, k: usize, out: &mut Vec<char>)
    requires
        k <= l@.len(),
    ensures
        final(out)@ == old(out)@ + spec_render_vals(crate::list::vals_view_at(l@, k as int)),
    decreases l, 3int, l@.len() - k,
{
    let ghost vv = crate::list::vals_view_at(l@, k as int);
    if k >= l.len() {
        proof {
            assert(vv =~= Seq::<JVal>::empty());
            assert(out@ =~= old(out)@ + spec_render_vals(vv));
        }
        return ;
    }
    proof {
        crate::list::lemma_vals_view_len(l@, k as int);
        assert(vv.len() == l@.len() - k);
        assert(vv[0] == l@[k as int]@);
    }
    render_value(&l[k], out);
    if k + 1 < l.len() {
        out.push(',');
        render_vals_from(l, k + 1, out);
        proof {
            assert(vv.drop_first() =~= crate::list::vals_view_at(l@, k + 1 as int));
            assert(spec_render_vals(vv) == spec_render(vv[0]) + seq![','] + spec_render_vals(
                vv.drop_first(),
            ));
            assert(out@ =~= old(out)@ + spec_render_vals(vv));
        }
    } else {
        proof {
            assert(vv.len() == 1);
            assert(out@ =~= old(out)@ + spec_render_vals(vv));
        }
    }
}

// ---------------------------------------------------------------------------
// Indented rendering.
// ---------------------------------------------------------------------------

pub(crate) fn render_line(t: &Type, pad: &Vec<char>, out: &mut Vec<char>)
    ensures
        final(out)@ == old(out)@ + spec_render_line(t@, pad@),
    decreases t, 1int, 0int,
{
    match t {
        Type::JsonObject(o) => {
            out.push('{');
            out.push('\n');
            let mut deeper = pad.clone();
            deeper.push(' ');
            deeper.push(' ');
            deeper.push(' ');
            deeper.push(' ');
            proof {
                assert(deeper@ =~= pad@ + indent_step());
            }
            render_pairs_line_from(&o.list, 0, &deeper, out);
            out.push('\n');
            push_all(pad, out);
            out.push('}');
            proof {
                crate::object::obj_view_eq(o);
                assert(out@ =~= old(out)@ + spec_render_line(t@, pad@));
            }
        },
        Type::JsonList(l) => {
            out.push('[');
            out.push('\n');
            let mut deeper = pad.clone();
            deeper.push(' ');
            deeper.push(' ');
            deeper.push(' ');
            deeper.push(' ');
            proof {
                assert(deeper@ =~= pad@ + indent_step());
            }
            render_vals_line_from(&l.0, 0, &deeper, out);
            out.push('\n');
            push_all(pad, out);
            out.push(']');
            proof {
                assert(crate::list::vals_view_at(l.0@, 0) =~= l@);
                assert(out@ =~= old(out)@ + spec_render_line(t@, pad@));
            }
        },
        _ => {
            render_value(t, out);
            proof {
                assert(spec_render_line(t@, pad@) == spec_render(t@));
            }
        },
    }
}

pub(crate) fn render_pair_line(p: &Pair, pad: &Vec<char>, out: &mut Vec<char>)
    ensures
        final(out)@ == old(out)@ + spec_render_pair_line((p.first@, p.second@), pad@),
    decreases p, 2int, 0int,
{
    out.push('"');
    push_str_chars(p.first.as_str(), out);
    out.push('"');
    out.push(':');
    out.push(' ');
    render_line(&p.second, pad, out);
    proof {
        assert(out@ =~= old(out)@ + spec_render_pair_line((p.first@, p.second@), pad@));
    }
}

pub(crate) fn render_pairs_line_from(l: &Vec<Pair>, k: usize, pad: &Vec<char>, out: &mut Vec<char>)
    requires
        k <= l@.len(),
    ensures
        final(out)@ == old(out)@ + spec_render_pairs_line(
            crate::object::pairs_view_at(l@, k as int),
            pad@,
        ),
    decreases l, 3int, l@.len() - k,
{
    let ghost pv = crate::object::pairs_view_at(l@, k as int);
    if k >= l.len() {
        proof {
            assert(pv =~= Seq::<(Seq<char>, JVal)>::empty());
            assert(out@ =~= old(out)@ + spec_render_pairs_line(pv, pad@));
        }
        return ;
    }
    proof {
        crate::object::lemma_pairs_view_len(l@, k as int);
        assert(pv.len() == l@.len() - k);
        assert(pv[0] == (l@[k as int].first@, l@[k as int].second@));
    }
    push_all(pad, out);
    let p = &l[k];
    render_pair_line(p, pad, out);
    if k + 1 < l.len() {
        out.push(',');
        out.push('\n');
        render_pairs_line_from(l, k + 1, pad, out);
        proof {
            assert(pv.drop_first() =~= crate::object::pairs_view_at(l@, k + 1 as int));
            assert(out@ =~= old(out)@ + spec_render_pairs_line(pv, pad@));
        }
    } else {
        proof {
            assert(pv.len() == 1);
            assert(out@ =~= old(out)@ + spec_render_pairs_line(pv, pad@));
        }
    }
}

pub(crate) fn render_vals_line_from(l: &Vec<Type>, k: usize, pad: &Vec<char>, out: &mut Vec<char>)
    requires
        k <= l@.len(),
    ensures
        final(out)@ == old(out)@ + spec_render_vals_line(
            crate::list::vals_view_at(l@, k as int),
            pad@,
        ),
    decreases l, 3int, l@.len() - k,
{
    let ghost vv = crate::list::vals_view_at(l@, k as int);
    if k >= l.len() {
        proof {
            assert(vv =~= Seq::<JVal>::empty());
            assert(out@ =~= old(out)@ + spec_render_vals_line(vv, pad@));
        }
        return ;
    }
    proof {
        crate::list::lemma_vals_view_len(l@, k as int);
        assert(vv.len() == l@.len() - k);
        assert(vv[0] == l@[k as int]@);
    }
    push_all(pad, out);
    render_line(&l[k], pad, out);
    if k + 1 < l.len() {
        out.push(',');
        out.push('\n');
        render_vals_line_from(l, k + 1, pad, out);
        proof {
            assert(vv.drop_first() =~= crate::list::vals_view_at(l@, k + 1 as int));
            assert(out@ =~= old(out)@ + spec_render_vals_line(vv, pad@));
        }
    } else {
        proof {
            assert(vv.len() == 1);
            assert(out@ =~= old(out)@ + spec_render_vals_line(vv, pad@));
        }
    }
}

// ---------------------------------------------------------------------------
// Type inference over raw token characters.
// ---------------------------------------------------------------------------

pub(crate) fn parse_type_chars(t: &Vec<char>) -> (r: Option<Type>)
    ensures
        match (r, spec_parse_type(t@)) {
            (Some(v), Some(jv)) => v@ == jv,
            (None, None) => true,
            _ => false,
        },
    decreases 0int, t@.len(), t@.len() + 1, 0int,
{
    let tr = trim_vec(t);
    let low = to_lower_vec(&tr);
    let kw_true: Vec<char> = vec!['t', 'r', 'u', 'e'];
    let kw_false: Vec<char> = vec!['f', 'a', 'l', 's', 'e'];
    let kw_null: Vec<char> = vec!['n', 'u', 'l', 'l'];
    let kw_nan: Vec<char> = vec!['n', 'a', 'n'];
    proof {
        assert(kw_true@ =~= seq!['t', 'r', 'u', 'e']);
        assert(kw_false@ =~= seq!['f', 'a', 'l', 's', 'e']);
        assert(kw_null@ =~= seq!['n', 'u', 'l', 'l']);
        assert(kw_nan@ =~= seq!['n', 'a', 'n']);
        assert(low@.subrange(0, low@.len() as int) =~= low@);
    }
    if eq_range(&low, 0, low.len(), &kw_true) {
        return Some(Type::Boolean(true));
    }
    if eq_range(&low, 0, low.len(), &kw_false) {
        return Some(Type::Boolean(false));
    }
    if eq_range(&low, 0, low.len(), &kw_null) || eq_range(&low, 0, low.len(), &kw_nan) {
        return Some(Type::Null);
    }
    proof {
        lemma_contains_first_idx(low@, '.');
    }
    match find_first(&low, '.') {
        Some(_) => {
            if is_float_text_chars(&low) {
                let canon = canon_float_chars(&low);
                return Some(Type::F64(chars_to_string(&canon)));
            } else {
                return Some(Type::String(chars_to_string(t)));
            }
        },
        None => {},
    }
    let n = low.len();
    proof {
        lemma_trim_len(t@);
        assert(low@.len() == tr@.len());
    }
    if n > 0 && low[0] == '{' && low[n - 1] == '}' {
        let (o, _e) = crate::object::obj_top(&tr, 0, false);
        return match o {
            Some(o) => Some(Type::JsonObject(o)),
            None => None,
        };
    }
    if n > 0 && low[0] == '[' && low[n - 1] == ']' {
        let (lst, _e) = crate::list::list_top(&tr, 0, false);
        return match lst {
            Some(l) => Some(Type::JsonList(l)),
            None => None,
        };
    }
    match parse_isize_chars(&low) {
        Some(v) => Some(Type::ISIZE(v)),
        None => Some(Type::String(chars_to_string(t))),
    }
}

} // verus!
