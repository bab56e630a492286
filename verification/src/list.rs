use vstd::prelude::*;
use vstd::string::StrSliceExecFns;
use crate::chars::{str_chars, chars_to_string, is_space, push_all};
use crate::error::Error;
use crate::model::{JVal, spec_sl, spec_sv, spec_top_list, spec_list_skip, top_pos, spec_render, spec_render_vals, spec_render_line, spec_render_vals_line, indent_step, spec_parse_type};
use crate::types::{Type, Wrap};

verus! {

/// An ordered sequence of values.
#[derive(Debug, PartialEq)]
pub struct JsonList(pub Vec<Type>);

/// The values of `l` from position `k` on.
pub open spec fn vals_view_at(l: Seq<Type>, k: int) -> Seq<JVal>
    decreases l, l.len() - k,
{
    if k < 0 || k >= l.len() {
        Seq::empty()
    } else {
        seq![l[k]@] + vals_view_at(l, k + 1)
    }
}

impl View for JsonList {
    type V = Seq<JVal>;

    open spec fn view(&self) -> Seq<JVal>
        decreases self, 0int,
    {
        vals_view_at(self.0@, 0)
    }
}

pub proof fn lemma_vals_view_len(l: Seq<Type>, k: int)
    requires
        0 <= k <= l.len(),
    ensures
        vals_view_at(l, k).len() == l.len() - k,
    decreases l.len() - k,
{
    if k < l.len() {
        lemma_vals_view_len(l, k + 1);
        assert(vals_view_at(l, k) == seq![l[k]@] + vals_view_at(l, k + 1));
        assert(vals_view_at(l, k).len() == 1 + vals_view_at(l, k + 1).len());
    }
}

pub proof fn lemma_vals_view_index(l: Seq<Type>, k: int, j: int)
    requires
        0 <= k <= j < l.len(),
    ensures
        vals_view_at(l, k).len() == l.len() - k,
        vals_view_at(l, k)[j - k] == l[j]@,
    decreases j - k,
{
    lemma_vals_view_len(l, k);
    lemma_vals_view_len(l, k + 1);
    assert(vals_view_at(l, k) == seq![l[k]@] + vals_view_at(l, k + 1));
    if j > k {
        lemma_vals_view_index(l, k + 1, j);
        assert(vals_view_at(l, k)[j - k] == vals_view_at(l, k + 1)[j - k - 1]);
    }
}

pub proof fn lemma_vals_view_push(l: Seq<Type>, p: Type, k: int)
    requires
        0 <= k <= l.len(),
    ensures
        vals_view_at(l.push(p), k) =~= vals_view_at(l, k).push(p@),
    decreases l.len() - k,
{
    let lp = l.push(p);
    lemma_vals_view_len(l.push(p), k);
    lemma_vals_view_len(l, k);
    if k < l.len() {
        lemma_vals_view_push(l, p, k + 1);
        assert(lp[k] == l[k]);
        assert(vals_view_at(lp, k) == seq![lp[k]@] + vals_view_at(lp, k + 1));
        assert(vals_view_at(l, k) == seq![l[k]@] + vals_view_at(l, k + 1));
    } else {
        assert(lp[k] == p);
        assert(vals_view_at(lp, k) == seq![lp[k]@] + vals_view_at(lp, k + 1));
        assert(vals_view_at(lp, k + 1) =~= Seq::<JVal>::empty());
        assert(vals_view_at(l, k) =~= Seq::<JVal>::empty());
    }
}

/// What a raw element text becomes: the inferred value, or the bare text
/// when inference refuses it.
pub open spec fn spec_convert(s: Seq<char>) -> JVal {
    match spec_parse_type(s) {
        Some(v) => v,
        None => JVal::Str(s),
    }
}

impl JsonList {
    /// Build a list by inferring one value per raw element text.
    pub fn new(values: &Vec<String>) -> (r: Self)
        ensures
            r@.len() == values@.len(),
            forall|i: int| 0 <= i < values@.len() ==> r@[i] == spec_convert(values@[i]@),
    {
        let mut items: Vec<Type> = Vec::new();
        let mut k: usize = 0;
        while k < values.len()
            invariant
                k <= values@.len(),
                items@.len() == k,
                forall|i: int| 0 <= i < k ==> items@[i]@ == spec_convert(values@[i]@),
            decreases values@.len() - k,
        {
            items.push(Self::convert_to_type(&values[k]));
            k = k + 1;
        }
        let r = JsonList(items);
        proof {
            lemma_vals_view_len(items@, 0);
            assert forall|i: int| 0 <= i < values@.len() implies r@[i] == spec_convert(
                values@[i]@,
            ) by {
                lemma_vals_view_index(items@, 0, i);
            }
        }
        r
    }

    fn convert_to_type(v: &String) -> (r: Type)
        ensures
            r@ == spec_convert(v@),
    {
        let value = Type::parse_type(v.as_str());
        match value {
            Some(t) => t,
            None => Type::String(v.as_str().to_owned()),
        }
    }

    pub fn from_vec(values: Vec<Type>) -> (r: Self)
        ensures
            r@ == vals_view_at(values@, 0),
            r.0 == values,
    {
        Self(values)
    }

    pub fn push(&mut self, value: Type)
        ensures
            final(self)@ =~= old(self)@.push(value@),
    {
        let ghost l0 = self.0@;
        self.0.push(value);
        proof {
            lemma_vals_view_push(l0, value, 0);
        }
    }

    pub fn len(&self) -> (r: usize)
        ensures
            r == self@.len(),
    {
        proof {
            lemma_vals_view_len(self.0@, 0);
        }
        self.0.len()
    }

    pub fn is_empty(&self) -> (r: bool)
        ensures
            r == (self@.len() == 0),
    {
        proof {
            lemma_vals_view_len(self.0@, 0);
        }
        self.0.is_empty()
    }

    pub fn get(&self, index: usize) -> (r: Option<&Type>)
        ensures
            match r {
                Some(t) => index < self@.len() && t@ == self@[index as int],
                None => index >= self@.len(),
            },
    {
        proof {
            lemma_vals_view_len(self.0@, 0);
        }
        if index < self.0.len() {
            proof {
                lemma_vals_view_index(self.0@, 0, index as int);
            }
            Some(&self.0[index])
        } else {
            None
        }
    }

    /// The compact rendering `[v,...]`.
    pub fn to_json(&self) -> (r: String)
        ensures
            r@ == seq!['['] + spec_render_vals(self@) + seq![']'],
    {
        let mut out: Vec<char> = Vec::new();
        out.push('[');
        crate::types::render_vals_from(&self.0, 0, &mut out);
        out.push(']');
        proof {
            assert(out@ =~= seq!['['] + spec_render_vals(self@) + seq![']']);
        }
        chars_to_string(&out)
    }

    /// The indented rendering: one element per line, four spaces per level.
    pub fn to_json_line(&self) -> (r: String)
        ensures
            r@ == spec_render_line(JVal::Lst(self@), Seq::<char>::empty()),
    {
        let pad: Vec<char> = Vec::new();
        self.to_json_line_with_indent(&pad)
    }

    pub(crate) fn to_json_line_with_indent(&self, pad: &Vec<char>) -> (r: String)
        ensures
            r@ == spec_render_line(JVal::Lst(self@), pad@),
    {
        let mut out: Vec<char> = Vec::new();
        out.push('[');
        out.push('\n');
        let mut deeper = pad.clone();
        deeper.push(' ');
        deeper.push(' ');
        deeper.push(' ');
        deeper.push(' ');
        proof {
            assert(deeper@ =~= pad@ + indent_step());
        }
        crate::types::render_vals_line_from(&self.0, 0, &deeper, &mut out);
        out.push('\n');
        push_all(pad, &mut out);
        out.push(']');
        proof {
            assert(out@ =~= spec_render_line(JVal::Lst(self@), pad@));
        }
        chars_to_string(&out)
    }

    /// Parse a complete document whose top-level shape is a list.
    pub fn parse(json: String) -> (r: Option<JsonList>)
        requires
            json@.len() <= isize::MAX as int,
        ensures
            match (r, spec_top_list(json@, 0, true)) {
                (Some(l), Some(p)) => l@ == p.0,
                (None, None) => true,
                _ => false,
            },
    {
        let mut end_ref = Wrap(0isize);
        Self::parse_list(json, 0, &mut end_ref)
    }

    /// Scan a list starting at `start`: leading whitespace, an opening
    /// bracket, then the element loop.  The cursor cell receives the offset
    /// of the last character consumed.
    pub(crate) fn parse_list(json: String, start: isize, end_ref: &mut Wrap<isize>) -> (r: Option<
        JsonList,
    >)
        requires
            0 <= start,
            json@.len() <= isize::MAX as int,
        ensures
            ({
                let sp = spec_top_list(json@, start as int, true);
                match (r, sp) {
                    (Some(l), Some(p)) => l@ == p.0 && final(end_ref).0 as int == p.1,
                    (None, None) => *final(end_ref) == *old(end_ref),
                    _ => false,
                }
            }),
    {
        let cv = str_chars(json.as_str());
        let (l, e) = list_top(&cv, start as usize, true);
        match l {
            Some(l) => {
                end_ref.0 = e as isize;
                Some(l)
            },
            None => None,
        }
    }
}

impl core::str::FromStr for JsonList {
    type Err = Error;

    fn from_str(s: &str) -> Result<Self, Self::Err> {
        parse_list(s.to_owned())
    }
}

/// Parse a complete document whose top-level shape is a list, reporting a
/// structural failure as an error.
pub fn parse_list(json: String) -> (r: Result<JsonList, Error>)
    ensures
        json@.len() <= isize::MAX as int ==> match (r, spec_top_list(json@, 0, true)) {
            (Ok(l), Some(p)) => l@ == p.0,
            (Err(e), None) => e == Error::InvalidJson,
            _ => false,
        },
{
    if json.as_str().unicode_len() > (isize::MAX as usize) {
        return Err(Error::InvalidJson);
    }
    let parse = JsonList::parse(json);
    match parse {
        Some(l) => Ok(l),
        None => Err(Error::InvalidJson),
    }
}

/// The list scanner's entry.
pub(crate) fn list_top(s: &Vec<char>, start: usize, outer: bool) -> (r: (Option<JsonList>, usize))
    ensures
        ({
            let sp = spec_top_list(s@, start as int, outer);
            match (r.0, sp) {
                (Some(l), Some(p)) => l@ == p.0 && r.1 < s@.len() && r.1 as int == p.1,
                (None, None) => true,
                _ => false,
            }
        }),
    decreases (if outer { 1int } else { 0int }), s@.len(), top_pos(s@, start as int), 2int,
{
    if s.len() == 0 {
        return (None, 0);
    }
    if start >= s.len() {
        if outer && s[0] == '[' {
            return list_scan(s, 1, JsonList(Vec::new()), true, 0);
        }
        return (None, 0);
    }
    list_skip(s, start, outer)
}

fn list_skip(s: &Vec<char>, i: usize, outer: bool) -> (r: (Option<JsonList>, usize))
    requires
        s@.len() > 0,
    ensures
        ({
            let sp = spec_list_skip(s@, i as int, outer);
            match (r.0, sp) {
                (Some(l), Some(p)) => l@ == p.0 && r.1 < s@.len() && r.1 as int == p.1,
                (None, None) => true,
                _ => false,
            }
        }),
    decreases (if outer { 1int } else { 0int }), s@.len(), s@.len() - i, 1int,
{
    if i >= s.len() {
        if outer && s[0] == '[' {
            return list_scan(s, 1, JsonList(Vec::new()), true, 0);
        }
        return (None, 0);
    }
    let c = s[i];
    if c == '[' {
        return list_scan(s, i + 1, JsonList(Vec::new()), true, 0);
    }
    if is_space(c) {
        return list_skip(s, i + 1, outer);
    }
    (None, 0)
}

/// The element loop.  `vs` is whether an element is expected; `cur` the
/// cursor value last written.
fn list_scan(s: &Vec<char>, i: usize, acc: JsonList, vs: bool, cur: usize) -> (r: (
    Option<JsonList>,
    usize,
))
    requires
        s@.len() > 0,
        cur < s@.len(),
    ensures
        ({
            let sp = spec_sl(s@, i as int, acc@, vs, cur as int);
            match (r.0, sp) {
                (Some(l), Some(p)) => l@ == p.0 && r.1 < s@.len() && r.1 as int == p.1,
                (None, None) => true,
                _ => false,
            }
        }),
    decreases 0int, s@.len(), s@.len() - i, 4int,
{
    if i >= s.len() {
        if vs {
            return (None, 0);
        }
        return (Some(acc), cur);
    }
    let c = s[i];
    if is_space(c) {
        return list_scan(s, i + 1, acc, vs, cur);
    }
    if c == ']' {
        let empty = acc.0.len() == 0;
        let vs2 = if empty {
            false
        } else {
            vs
        };
        proof {
            lemma_vals_view_len(acc.0@, 0);
        }
        if vs2 {
            return (None, 0);
        }
        return (Some(acc), i);
    }
    if vs {
        let (vo, e) = crate::var::scan_value(s, i, None, false);
        match vo {
            None => {
                return (None, 0);
            },
            Some(v) => {
                let mut acc2 = acc;
                let ghost l0 = acc2.0@;
                acc2.0.push(v);
                proof {
                    lemma_vals_view_push(l0, v, 0);
                }
                let resume: usize = if e + 1 > i + 1 {
                    e + 1
                } else {
                    i + 1
                };
                return list_scan(s, resume, acc2, false, e);
            },
        }
    }
    if c == ',' {
        return list_scan(s, i + 1, acc, true, cur);
    }
    (Some(acc), cur)
}

} // verus!
