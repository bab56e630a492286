use vstd::prelude::*;
use vstd::std_specs::convert::TryFromSpec;
use vstd::string::StrSliceExecFns;
use crate::chars::{str_chars, chars_to_string, sub_vec, is_space};
use crate::error::Error;
use crate::model::{JVal, SpecPairs, spec_get, spec_so, spec_so_value, spec_soq, spec_top_obj, spec_obj_skip, top_pos, spec_render_pairs, spec_render_line, indent_step};
use crate::pair::Pair;
use crate::types::{Type, Wrap};
use crate::var::decode_chars;

verus! {

/// An ordered, duplicate-tolerant sequence of members.  Every `set_*`
/// appends; `get_*` returns the first match, so a later duplicate is
/// invisible to lookup while still present in any full rendering.
#[derive(Debug, PartialEq)]
pub struct JsonObject {
    pub(crate) list: Vec<Pair>,
}

/// The entries of `l` from position `k` on, as key/value sequences.
pub open spec fn pairs_view_at(l: Seq<Pair>, k: int) -> SpecPairs
    decreases l, l.len() - k,
{
    if k < 0 || k >= l.len() {
        Seq::empty()
    } else {
        seq![(l[k].first@, l[k].second@)] + pairs_view_at(l, k + 1)
    }
}

impl View for JsonObject {
    type V = SpecPairs;

    closed spec fn view(&self) -> SpecPairs
        decreases self, 0int,
    {
        pairs_view_at(self.list@, 0)
    }
}

/// What an object denotes: its member list, entry by entry.
pub(crate) proof fn obj_view_eq(o: &JsonObject)
    ensures
        o@ == pairs_view_at(o.list@, 0),
{
}

pub proof fn lemma_pairs_view_len(l: Seq<Pair>, k: int)
    requires
        0 <= k <= l.len(),
    ensures
        pairs_view_at(l, k).len() == l.len() - k,
    decreases l.len() - k,
{
    if k < l.len() {
        lemma_pairs_view_len(l, k + 1);
        assert(pairs_view_at(l, k) == seq![(l[k].first@, l[k].second@)] + pairs_view_at(l, k + 1));
        assert(pairs_view_at(l, k).len() == 1 + pairs_view_at(l, k + 1).len());
    }
}

pub proof fn lemma_pairs_view_index(l: Seq<Pair>, k: int, j: int)
    requires
        0 <= k <= j < l.len(),
    ensures
        pairs_view_at(l, k).len() == l.len() - k,
        pairs_view_at(l, k)[j - k] == (l[j].first@, l[j].second@),
    decreases j - k,
{
    lemma_pairs_view_len(l, k);
    lemma_pairs_view_len(l, k + 1);
    assert(pairs_view_at(l, k) == seq![(l[k].first@, l[k].second@)] + pairs_view_at(l, k + 1));
    if j > k {
        lemma_pairs_view_index(l, k + 1, j);
        assert(pairs_view_at(l, k)[j - k] == pairs_view_at(l, k + 1)[j - k - 1]);
    }
}

pub proof fn lemma_pairs_view_push(l: Seq<Pair>, p: Pair, k: int)
    requires
        0 <= k <= l.len(),
    ensures
        pairs_view_at(l.push(p), k) =~= pairs_view_at(l, k).push((p.first@, p.second@)),
    decreases l.len() - k,
{
    let lp = l.push(p);
    lemma_pairs_view_len(l.push(p), k);
    lemma_pairs_view_len(l, k);
    if k < l.len() {
        lemma_pairs_view_push(l, p, k + 1);
        assert(lp[k] == l[k]);
        assert(pairs_view_at(lp, k) == seq![(lp[k].first@, lp[k].second@)] + pairs_view_at(
            lp,
            k + 1,
        ));
        assert(pairs_view_at(l, k) == seq![(l[k].first@, l[k].second@)] + pairs_view_at(l, k + 1));
    } else {
        assert(lp[k] == p);
        assert(pairs_view_at(lp, k) == seq![(lp[k].first@, lp[k].second@)] + pairs_view_at(
            lp,
            k + 1,
        ));
        assert(pairs_view_at(lp, k + 1) =~= Seq::<(Seq<char>, JVal)>::empty());
        assert(pairs_view_at(l, k) =~= Seq::<(Seq<char>, JVal)>::empty());
    }
}

proof fn lemma_spec_get_found(l: SpecPairs, key: Seq<char>, j: int)
    requires
        0 <= j < l.len(),
        l[j].0 == key,
        forall|i: int| 0 <= i < j ==> l[i].0 != key,
    ensures
        spec_get(l, key) == Some(l[j].1),
    decreases j,
{
    if j > 0 {
        lemma_spec_get_found(l.drop_first(), key, j - 1);
    }
}

proof fn lemma_spec_get_none(l: SpecPairs, key: Seq<char>)
    requires
        forall|i: int| 0 <= i < l.len() ==> l[i].0 != key,
    ensures
        spec_get(l, key) is None,
    decreases l.len(),
{
    if l.len() > 0 {
        lemma_spec_get_none(l.drop_first(), key);
    }
}

/// The pointer-width reading of a signed integer entry, as lookup performs
/// it: every signed width is narrowed through `isize` first.
pub open spec fn int_of_jval(v: JVal) -> Option<isize> {
    match v {
        JVal::I8(n) => Some(n as isize),
        JVal::I16(n) => Some(n as isize),
        JVal::I32(n) => Some(n as isize),
        JVal::I64(n) => Some(n as isize),
        JVal::I128(n) => Some(n as isize),
        JVal::ISize(n) => Some(n),
        _ => None,
    }
}

/// The pointer-width reading of an unsigned integer entry.
pub open spec fn uint_of_jval(v: JVal) -> Option<usize> {
    match v {
        JVal::U8(n) => Some(n as usize),
        JVal::U16(n) => Some(n as usize),
        JVal::U32(n) => Some(n as usize),
        JVal::U64(n) => Some(n as usize),
        JVal::U128(n) => Some(n as usize),
        JVal::USize(n) => Some(n),
        _ => None,
    }
}

impl JsonObject {
    pub fn new() -> (r: Self)
        ensures
            r@ =~= Seq::<(Seq<char>, JVal)>::empty(),
    {
        Self { list: Vec::new() }
    }

    /// Append one member; an existing member under the same key stays.
    pub fn set_data(&mut self, key: &str, value: Type)
        ensures
            final(self)@ =~= old(self)@.push((key@, value@)),
    {
        let ghost l0 = self.list@;
        let p = Pair::new(key, value);
        self.list.push(p);
        proof {
            lemma_pairs_view_push(l0, p, 0);
        }
    }

    /// The first member under this key, if any.
    pub fn get_data(&self, key: &str) -> (r: Option<&Type>)
        ensures
            match r {
                Some(t) => spec_get(self@, key@) == Some(t@),
                None => spec_get(self@, key@) is None,
            },
    {
        let ks: String = key.to_owned();
        let n = self.list.len();
        let mut idx: usize = 0;
        while idx < n
            invariant
                idx <= n,
                n == self.list@.len(),
                ks@ == key@,
                forall|j: int| 0 <= j < idx ==> self.list@[j].first@ != key@,
            decreases n - idx,
        {
            if self.list[idx].first == ks {
                proof {
                    lemma_pairs_view_len(self.list@, 0);
                    assert forall|j: int| 0 <= j < idx implies self@[j].0 != key@ by {
                        lemma_pairs_view_index(self.list@, 0, j);
                    }
                    lemma_pairs_view_index(self.list@, 0, idx as int);
                    lemma_spec_get_found(self@, key@, idx as int);
                }
                return Some(&self.list[idx].second);
            }
            idx = idx + 1;
        }
        proof {
            lemma_pairs_view_len(self.list@, 0);
            assert forall|j: int| 0 <= j < self@.len() implies self@[j].0 != key@ by {
                lemma_pairs_view_index(self.list@, 0, j);
            }
            lemma_spec_get_none(self@, key@);
        }
        None
    }

    /// Read the first match as a signed integer, narrowed through the
    /// pointer width and then into the requested type when it fits.
    pub fn get_integer<T: TryFrom<isize>>(&self, key: &str) -> (r: Option<T>)
        ensures
            match spec_get(self@, key@) {
                Some(jv) => match int_of_jval(jv) {
                    Some(n) => <T as TryFromSpec<isize>>::obeys_try_from_spec() ==> r == match <T as TryFromSpec<isize>>::try_from_spec(n) {
                        Ok(v) => Some(v),
                        Err(_) => None::<T>,
                    },
                    None => r is None,
                },
                None => r is None,
            },
    {
        let d = self.get_data(key);
        if let Some(value) = d {
            match value {
                Type::I8(v) => T::try_from(*v as isize).ok(),
                Type::I16(v) => T::try_from(*v as isize).ok(),
                Type::I32(v) => T::try_from(*v as isize).ok(),
                Type::I64(v) => {
                    #[verifier::truncate]
                    let w = *v as isize;
                    T::try_from(w).ok()
                },
                Type::I128(v) => {
                    #[verifier::truncate]
                    let w = *v as isize;
                    T::try_from(w).ok()
                },
                Type::ISIZE(v) => T::try_from(*v).ok(),
                _ => None,
            }
        } else {
            None
        }
    }

    /// Read the first match as an unsigned integer, narrowed through the
    /// pointer width and then into the requested type when it fits.
    pub fn get_unsign<T: TryFrom<usize>>(&self, key: &str) -> (r: Option<T>)
        ensures
            match spec_get(self@, key@) {
                Some(jv) => match uint_of_jval(jv) {
                    Some(n) => <T as TryFromSpec<usize>>::obeys_try_from_spec() ==> r == match <T as TryFromSpec<usize>>::try_from_spec(n) {
                        Ok(v) => Some(v),
                        Err(_) => None::<T>,
                    },
                    None => r is None,
                },
                None => r is None,
            },
    {
        let d = self.get_data(key);
        if let Some(value) = d {
            match value {
                Type::U8(u) => T::try_from(*u as usize).ok(),
                Type::U16(u) => T::try_from(*u as usize).ok(),
                Type::U32(u) => T::try_from(*u as usize).ok(),
                Type::U64(u) => {
                    #[verifier::truncate]
                    let w = *u as usize;
                    T::try_from(w).ok()
                },
                Type::U128(u) => {
                    #[verifier::truncate]
                    let w = *u as usize;
                    T::try_from(w).ok()
                },
                Type::USIZE(u) => T::try_from(*u).ok(),
                _ => None,
            }
        } else {
            None
        }
    }

    pub fn set_i8(&mut self, key: &str, value: i8)
        ensures
            final(self)@ =~= old(self)@.push((key@, JVal::I8(value))),
    {
        self.set_data(key, Type::I8(value))
    }

    pub fn get_i8(&self, key: &str) -> (r: Option<i8>)
        ensures
            match spec_get(self@, key@) {
                Some(jv) => match int_of_jval(jv) {
                    Some(n) => r == if i8::MIN <= n <= i8::MAX {
                        Some(n as i8)
                    } else {
                        None::<i8>
                    },
                    None => r is None,
                },
                None => r is None,
            },
    {
        self.get_integer(key)
    }

    pub fn set_i16(&mut self, key: &str, value: i16)
        ensures
            final(self)@ =~= old(self)@.push((key@, JVal::I16(value))),
    {
        self.set_data(key, Type::I16(value))
    }

    pub fn get_i16(&self, key: &str) -> (r: Option<i16>)
        ensures
            match spec_get(self@, key@) {
                Some(jv) => match int_of_jval(jv) {
                    Some(n) => r == if i16::MIN <= n <= i16::MAX {
                        Some(n as i16)
                    } else {
                        None::<i16>
                    },
                    None => r is None,
                },
                None => r is None,
            },
    {
        self.get_integer(key)
    }

    pub fn set_i32(&mut self, key: &str, value: i32)
        ensures
            final(self)@ =~= old(self)@.push((key@, JVal::I32(value))),
    {
        self.set_data(key, Type::I32(value))
    }

    pub fn get_i32(&self, key: &str) -> (r: Option<i32>)
        ensures
            match spec_get(self@, key@) {
                Some(jv) => match int_of_jval(jv) {
                    Some(n) => r == if i32::MIN <= n <= i32::MAX {
                        Some(n as i32)
                    } else {
                        None::<i32>
                    },
                    None => r is None,
                },
                None => r is None,
            },
    {
        self.get_integer(key)
    }

    pub fn set_i64(&mut self, key: &str, value: i64)
        ensures
            final(self)@ =~= old(self)@.push((key@, JVal::I64(value))),
    {
        self.set_data(key, Type::I64(value))
    }

    pub fn get_i64(&self, key: &str) -> (r: Option<i64>)
        ensures
            match spec_get(self@, key@) {
                Some(jv) => match int_of_jval(jv) {
                    Some(n) => r == if i64::MIN <= n <= i64::MAX {
                        Some(n as i64)
                    } else {
                        None::<i64>
                    },
                    None => r is None,
                },
                None => r is None,
            },
    {
        self.get_integer(key)
    }

    pub fn set_i128(&mut self, key: &str, value: i128)
        ensures
            final(self)@ =~= old(self)@.push((key@, JVal::I128(value))),
    {
        self.set_data(key, Type::I128(value))
    }

    pub fn get_i128(&self, key: &str) -> (r: Option<i128>)
        ensures
            match spec_get(self@, key@) {
                Some(jv) => match int_of_jval(jv) {
                    Some(n) => r == if i128::MIN <= n <= i128::MAX {
                        Some(n as i128)
                    } else {
                        None::<i128>
                    },
                    None => r is None,
                },
                None => r is None,
            },
    {
        self.get_integer(key)
    }

    pub fn set_isize(&mut self, key: &str, value: isize)
        ensures
            final(self)@ =~= old(self)@.push((key@, JVal::ISize(value))),
    {
        self.set_data(key, Type::ISIZE(value))
    }

    pub fn get_isize(&self, key: &str) -> (r: Option<isize>)
        ensures
            r == match spec_get(self@, key@) {
                Some(jv) => int_of_jval(jv),
                None => None,
            },
    {
        let d = self.get_data(key);
        if let Some(value) = d {
            match value {
                Type::I8(v) => Some(*v as isize),
                Type::I16(v) => Some(*v as isize),
                Type::I32(v) => Some(*v as isize),
                Type::I64(v) => {
                    #[verifier::truncate]
                    let w = *v as isize;
                    Some(w)
                },
                Type::I128(v) => {
                    #[verifier::truncate]
                    let w = *v as isize;
                    Some(w)
                },
                Type::ISIZE(v) => Some(*v),
                _ => None,
            }
        } else {
            None
        }
    }

    pub fn set_u8(&mut self, key: &str, value: u8)
        ensures
            final(self)@ =~= old(self)@.push((key@, JVal::U8(value))),
    {
        self.set_data(key, Type::U8(value))
    }

    pub fn get_u8(&self, key: &str) -> (r: Option<u8>)
        ensures
            match spec_get(self@, key@) {
                Some(jv) => match uint_of_jval(jv) {
                    Some(n) => r == if n <= u8::MAX {
                        Some(n as u8)
                    } else {
                        None::<u8>
                    },
                    None => r is None,
                },
                None => r is None,
            },
    {
        self.get_unsign(key)
    }

    pub fn set_u16(&mut self, key: &str, value: u16)
        ensures
            final(self)@ =~= old(self)@.push((key@, JVal::U16(value))),
    {
        self.set_data(key, Type::U16(value))
    }

    pub fn get_u16(&self, key: &str) -> (r: Option<u16>)
        ensures
            match spec_get(self@, key@) {
                Some(jv) => match uint_of_jval(jv) {
                    Some(n) => r == if n <= u16::MAX {
                        Some(n as u16)
                    } else {
                        None::<u16>
                    },
                    None => r is None,
                },
                None => r is None,
            },
    {
        self.get_unsign(key)
    }

    pub fn set_u32(&mut self, key: &str, value: u32)
        ensures
            final(self)@ =~= old(self)@.push((key@, JVal::U32(value))),
    {
        self.set_data(key, Type::U32(value))
    }

    pub fn get_u32(&self, key: &str) -> (r: Option<u32>)
        ensures
            match spec_get(self@, key@) {
                Some(jv) => match uint_of_jval(jv) {
                    Some(n) => r == if n <= u32::MAX {
                        Some(n as u32)
                    } else {
                        None::<u32>
                    },
                    None => r is None,
                },
                None => r is None,
            },
    {
        self.get_unsign(key)
    }

    pub fn set_u64(&mut self, key: &str, value: u64)
        ensures
            final(self)@ =~= old(self)@.push((key@, JVal::U64(value))),
    {
        self.set_data(key, Type::U64(value))
    }

    pub fn get_u64(&self, key: &str) -> (r: Option<u64>)
        ensures
            match spec_get(self@, key@) {
                Some(jv) => match uint_of_jval(jv) {
                    Some(n) => r == if n <= u64::MAX {
                        Some(n as u64)
                    } else {
                        None::<u64>
                    },
                    None => r is None,
                },
                None => r is None,
            },
    {
        self.get_unsign(key)
    }

    pub fn set_u128(&mut self, key: &str, value: u128)
        ensures
            final(self)@ =~= old(self)@.push((key@, JVal::U128(value))),
    {
        self.set_data(key, Type::U128(value))
    }

    pub fn get_u128(&self, key: &str) -> (r: Option<u128>)
        ensures
            match spec_get(self@, key@) {
                Some(jv) => match uint_of_jval(jv) {
                    Some(n) => r == if n <= u128::MAX {
                        Some(n as u128)
                    } else {
                        None::<u128>
                    },
                    None => r is None,
                },
                None => r is None,
            },
    {
        self.get_unsign(key)
    }

    pub fn set_usize(&mut self, key: &str, value: usize)
        ensures
            final(self)@ =~= old(self)@.push((key@, JVal::USize(value))),
    {
        self.set_data(key, Type::USIZE(value))
    }

    pub fn get_usize(&self, key: &str) -> (r: Option<usize>)
        ensures
            r == match spec_get(self@, key@) {
                Some(jv) => uint_of_jval(jv),
                None => None,
            },
    {
        let d = self.get_data(key);
        if let Some(value) = d {
            match value {
                Type::U8(u) => Some(*u as usize),
                Type::U16(u) => Some(*u as usize),
                Type::U32(u) => Some(*u as usize),
                Type::U64(u) => {
                    #[verifier::truncate]
                    let w = *u as usize;
                    Some(w)
                },
                Type::U128(u) => {
                    #[verifier::truncate]
                    let w = *u as usize;
                    Some(w)
                },
                Type::USIZE(u) => Some(*u),
                _ => None,
            }
        } else {
            None
        }
    }

    pub fn set_f32(&mut self, key: &str, text: &str)
        ensures
            final(self)@ =~= old(self)@.push((key@, JVal::F32(text@))),
    {
        self.set_data(key, Type::F32(text.to_owned()))
    }

    pub fn get_f32(&self, key: &str) -> (r: Option<&str>)
        ensures
            match r {
                Some(t) => spec_get(self@, key@) matches Some(jv) && (jv == JVal::F32(t@) || jv
                    == JVal::F64(t@)),
                None => !(spec_get(self@, key@) matches Some(JVal::F32(_))) && !(spec_get(
                    self@,
                    key@,
                ) matches Some(JVal::F64(_))),
            },
    {
        let d = self.get_data(key);
        if let Some(value) = d {
            match value {
                Type::F32(t) => Some(t.as_str()),
                Type::F64(t) => Some(t.as_str()),
                _ => None,
            }
        } else {
            None
        }
    }

    pub fn set_f64(&mut self, key: &str, text: &str)
        ensures
            final(self)@ =~= old(self)@.push((key@, JVal::F64(text@))),
    {
        self.set_data(key, Type::F64(text.to_owned()))
    }

    pub fn get_f64(&self, key: &str) -> (r: Option<&str>)
        ensures
            match r {
                Some(t) => spec_get(self@, key@) matches Some(jv) && (jv == JVal::F32(t@) || jv
                    == JVal::F64(t@)),
                None => !(spec_get(self@, key@) matches Some(JVal::F32(_))) && !(spec_get(
                    self@,
                    key@,
                ) matches Some(JVal::F64(_))),
            },
    {
        let d = self.get_data(key);
        if let Some(value) = d {
            match value {
                Type::F32(t) => Some(t.as_str()),
                Type::F64(t) => Some(t.as_str()),
                _ => None,
            }
        } else {
            None
        }
    }

    pub fn set_bool(&mut self, key: &str, value: bool)
        ensures
            final(self)@ =~= old(self)@.push((key@, JVal::Bool(value))),
    {
        self.set_data(key, Type::Boolean(value))
    }

    pub fn get_bool(&self, key: &str) -> (r: Option<bool>)
        ensures
            match r {
                Some(b) => spec_get(self@, key@) == Some(JVal::Bool(b)),
                None => !(spec_get(self@, key@) matches Some(JVal::Bool(_))),
            },
    {
        let d = self.get_data(key);
        if let Some(value) = d {
            match value {
                Type::Boolean(b) => Some(*b),
                _ => None,
            }
        } else {
            None
        }
    }

    pub fn set_str(&mut self, key: &str, value: &str)
        ensures
            final(self)@ =~= old(self)@.push((key@, JVal::Str(value@))),
    {
        self.set_data(key, Type::String(value.to_owned()))
    }

    pub fn get_str(&self, key: &str) -> (r: Option<&str>)
        ensures
            match r {
                Some(st) => spec_get(self@, key@) == Some(JVal::Str(st@)),
                None => !(spec_get(self@, key@) matches Some(JVal::Str(_))),
            },
    {
        let d = self.get_data(key);
        if let Some(value) = d {
            match value {
                Type::String(st) => Some(st.as_str()),
                _ => None,
            }
        } else {
            None
        }
    }

    pub fn set_null(&mut self, key: &str)
        ensures
            final(self)@ =~= old(self)@.push((key@, JVal::Null)),
    {
        self.set_data(key, Type::Null)
    }

    pub fn get_null(&self, key: &str) -> (r: bool)
        ensures
            r == (spec_get(self@, key@) == Some(JVal::Null)),
    {
        let d = self.get_data(key);
        if let Some(value) = d {
            match value {
                Type::Null => true,
                _ => false,
            }
        } else {
            false
        }
    }

    pub fn set_list(&mut self, key: &str, value: crate::list::JsonList)
        ensures
            final(self)@ =~= old(self)@.push((key@, JVal::Lst(value@))),
    {
        self.set_data(key, Type::JsonList(value))
    }

    /// The first member under this key, whatever its kind: lists are read
    /// back through the generic lookup.
    pub fn get_list(&self, key: &str) -> (r: Option<&Type>)
        ensures
            match r {
                Some(t) => spec_get(self@, key@) == Some(t@),
                None => spec_get(self@, key@) is None,
            },
    {
        self.get_data(key)
    }

    pub fn set_object(&mut self, key: &str, value: JsonObject)
        ensures
            final(self)@ =~= old(self)@.push((key@, JVal::Obj(value@))),
    {
        self.set_data(key, Type::JsonObject(value))
    }

    pub fn get_object(&self, key: &str) -> (r: Option<&JsonObject>)
        ensures
            match r {
                Some(o) => spec_get(self@, key@) == Some(JVal::Obj(o@)),
                None => !(spec_get(self@, key@) matches Some(JVal::Obj(_))),
            },
    {
        let d = self.get_data(key);
        if let Some(value) = d {
            match value {
                Type::JsonObject(o) => Some(o),
                _ => None,
            }
        } else {
            None
        }
    }

    pub fn is_empty(&self) -> (r: bool)
        ensures
            r == (self@.len() == 0),
    {
        proof {
            lemma_pairs_view_len(self.list@, 0);
        }
        self.list.len() == 0
    }

    /// The compact rendering `{"k":v,...}`.
    pub fn to_json(&self) -> (r: String)
        ensures
            r@ == seq!['{'] + spec_render_pairs(self@) + seq!['}'],
    {
        let mut out: Vec<char> = Vec::new();
        out.push('{');
        crate::types::render_pairs_from(&self.list, 0, &mut out);
        out.push('}');
        proof {
            assert(out@ =~= seq!['{'] + spec_render_pairs(self@) + seq!['}']);
        }
        chars_to_string(&out)
    }

    /// The indented rendering: one member per line, four spaces per level.
    pub fn to_json_line(&self) -> (r: String)
        ensures
            r@ == spec_render_line(JVal::Obj(self@), Seq::<char>::empty()),
    {
        let pad: Vec<char> = Vec::new();
        self.to_json_line_with_indent(&pad)
    }

    pub(crate) fn to_json_line_with_indent(&self, pad: &Vec<char>) -> (r: String)
        ensures
            r@ == spec_render_line(JVal::Obj(self@), pad@),
    {
        let mut out: Vec<char> = Vec::new();
        out.push('{');
        out.push('\n');
        let mut deeper = pad.clone();
        deeper.push(' ');
        deeper.push(' ');
        deeper.push(' ');
        deeper.push(' ');
        proof {
            assert(deeper@ =~= pad@ + indent_step());
        }
        crate::types::render_pairs_line_from(&self.list, 0, &deeper, &mut out);
        out.push('\n');
        crate::chars::push_all(pad, &mut out);
        out.push('}');
        proof {
            assert(out@ =~= spec_render_line(JVal::Obj(self@), pad@));
        }
        chars_to_string(&out)
    }
}

// ---------------------------------------------------------------------------
// The object scanner.
// ---------------------------------------------------------------------------

/// Scan an object starting at `start`: leading whitespace, an opening
/// brace, then the member loop.
pub fn parse(json: &String, start: isize, end_ref: &mut Wrap<isize>) -> (r: Option<JsonObject>)
    requires
        json@.len() == 0 || start >= 0,
        json@.len() <= isize::MAX as int,
    ensures
        ({
            let sp = spec_top_obj(json@, start as int, true);
            match (r, sp) {
                (Some(o), Some(p)) => o@ == p.0 && (match p.1 {
                    Some(pe) => final(end_ref).0 as int == pe,
                    None => *final(end_ref) == *old(end_ref),
                }),
                (None, None) => *final(end_ref) == *old(end_ref),
                _ => false,
            }
        }),
{
    let cv = str_chars(json.as_str());
    if cv.len() == 0 {
        return None;
    }
    let su: usize = start as usize;
    let (o, er) = obj_top(&cv, su, true);
    match o {
        Some(o) => {
            match er {
                Some(e) => {
                    end_ref.0 = e as isize;
                },
                None => {},
            }
            Some(o)
        },
        None => None,
    }
}

pub(crate) fn obj_top(s: &Vec<char>, start: usize, outer: bool) -> (r: (
    Option<JsonObject>,
    Option<usize>,
))
    ensures
        ({
            let sp = spec_top_obj(s@, start as int, outer);
            match (r.0, sp) {
                (Some(o), Some(p)) => o@ == p.0 && (match (r.1, p.1) {
                    (Some(e), Some(pe)) => e < s@.len() && e as int == pe,
                    (None, None) => true,
                    _ => false,
                }),
                (None, None) => true,
                _ => false,
            }
        }),
    decreases (if outer { 1int } else { 0int }), s@.len(), top_pos(s@, start as int), 2int,
{
    if s.len() == 0 {
        return (None, None);
    }
    if start >= s.len() {
        if outer && s[0] == '{' {
            return obj_scan(s, 1, JsonObject::new(), None, true, None);
        }
        return (None, None);
    }
    obj_skip(s, start)
}

fn obj_skip(s: &Vec<char>, i: usize) -> (r: (Option<JsonObject>, Option<usize>))
    ensures
        ({
            let sp = spec_obj_skip(s@, i as int);
            match (r.0, sp) {
                (Some(o), Some(p)) => o@ == p.0 && (match (r.1, p.1) {
                    (Some(e), Some(pe)) => e < s@.len() && e as int == pe,
                    (None, None) => true,
                    _ => false,
                }),
                (None, None) => true,
                _ => false,
            }
        }),
    decreases 0int, s@.len(), s@.len() - i, 1int,
{
    if i >= s.len() {
        return (None, None);
    }
    let c = s[i];
    if c == '{' {
        return obj_scan(s, i + 1, JsonObject::new(), None, true, None);
    }
    if is_space(c) {
        return obj_skip(s, i + 1);
    }
    (None, None)
}

/// The member loop.  `acc` holds the members read so far, `key` a key
/// awaiting its value, `ps` whether a member may start here, `wb` where a
/// bare word began.
pub(crate) fn obj_scan(
    s: &Vec<char>,
    i: usize,
    acc: JsonObject,
    key: Option<Vec<char>>,
    ps: bool,
    wb: Option<usize>,
) -> (r: (Option<JsonObject>, Option<usize>))
    requires
        wb matches Some(w) ==> w < i,
    ensures
        ({
            let kv = match key {
                Some(k) => Some(k@),
                None => None,
            };
            let wv = match wb {
                Some(w) => Some(w as int),
                None => None,
            };
            let sp = spec_so(s@, i as int, acc@, kv, ps, wv);
            match (r.0, sp) {
                (Some(o), Some(p)) => o@ == p.0 && (match (r.1, p.1) {
                    (Some(e), Some(pe)) => e < s@.len() && e as int == pe,
                    (None, None) => true,
                    _ => false,
                }),
                (None, None) => true,
                _ => false,
            }
        }),
    decreases 0int, s@.len(), s@.len() - i, 9int,
{
    if i >= s.len() {
        if key.is_some() || wb.is_some() || ps {
            return (None, None);
        }
        return (Some(acc), None);
    }
    let c = s[i];
    if c == '\'' || c == '"' {
        if !ps {
            return (None, None);
        }
        if wb.is_some() {
            return (None, None);
        }
        return obj_scan_quote(s, i + 1, c, i + 1, acc, key, ps);
    }
    if is_space(c) || c == '}' {
        match wb {
            Some(w) => {
                if !ps || key.is_some() {
                    return (None, None);
                }
                if c == '}' {
                    // a word followed by the closing brace leaves a key
                    // with no value: the final checks reject it
                    return (None, None);
                }
                let sub = sub_vec(s, w, i);
                let mut kd: Vec<char> = Vec::new();
                decode_chars(&sub, 0, &mut kd);
                if kd.len() == 0 {
                    return (None, None);
                }
                return obj_scan(s, i + 1, acc, Some(kd), ps, None);
            },
            None => {
                if c == '}' {
                    let empty = acc.is_empty();
                    let ps2 = if empty {
                        false
                    } else {
                        ps
                    };
                    if key.is_some() || ps2 {
                        return (None, None);
                    }
                    return (Some(acc), Some(i));
                }
                return obj_scan(s, i + 1, acc, key, ps, wb);
            },
        }
    }
    if c == ':' {
        if !ps {
            return (None, None);
        }
        let (kk, wb2): (Vec<char>, Option<usize>) = match key {
            Some(k) => (k, wb),
            None => {
                match wb {
                    None => {
                        return (None, None);
                    },
                    Some(w) => {
                        let sub = sub_vec(s, w, i);
                        let mut kd: Vec<char> = Vec::new();
                        decode_chars(&sub, 0, &mut kd);
                        if kd.len() == 0 {
                            return (None, None);
                        }
                        (kd, None)
                    },
                }
            },
        };
        let (vo, e) = crate::var::scan_value(s, i + 1, None, false);
        match vo {
            None => {
                proof {
                    assert(crate::model::spec_sv(s@, i as int + 1, None, false) is None);
                    assert(spec_so_value(s@, i as int, acc@, kk@, match wb2 {
                        Some(w) => Some(w as int),
                        None => None,
                    }) is None);
                }
                return (None, None);
            },
            Some(v) => {
                let mut acc2 = acc;
                let ghost l0 = acc2.list@;
                let p = Pair::new(chars_to_string(&kk).as_str(), v);
                acc2.list.push(p);
                proof {
                    lemma_pairs_view_push(l0, p, 0);
                    assert(acc2@ =~= pairs_view_at(l0, 0).push((kk@, v@)));
                }
                let resume: usize = if e + 1 > i + 1 {
                    e + 1
                } else {
                    i + 1
                };
                return obj_scan(s, resume, acc2, None, false, wb2);
            },
        }
    }
    if c == ',' {
        if key.is_some() || wb.is_some() {
            return (None, None);
        }
        return obj_scan(s, i + 1, acc, key, true, wb);
    }
    let wb3 = match wb {
        Some(w) => Some(w),
        None => Some(i),
    };
    obj_scan(s, i + 1, acc, key, ps, wb3)
}

/// Inside a quoted key.
fn obj_scan_quote(
    s: &Vec<char>,
    i: usize,
    q: char,
    w: usize,
    acc: JsonObject,
    key: Option<Vec<char>>,
    ps: bool,
) -> (r: (Option<JsonObject>, Option<usize>))
    requires
        w <= i,
    ensures
        ({
            let kv = match key {
                Some(k) => Some(k@),
                None => None,
            };
            let sp = spec_soq(s@, i as int, q, w as int, acc@, kv, ps);
            match (r.0, sp) {
                (Some(o), Some(p)) => o@ == p.0 && (match (r.1, p.1) {
                    (Some(e), Some(pe)) => e < s@.len() && e as int == pe,
                    (None, None) => true,
                    _ => false,
                }),
                (None, None) => true,
                _ => false,
            }
        }),
    decreases 0int, s@.len(), s@.len() - i, 0int,
{
    if i >= s.len() {
        return (None, None);
    }
    let c = s[i];
    if c == '\'' || c == '"' {
        if !ps {
            return (None, None);
        }
        if c != q {
            return obj_scan_quote(s, i + 1, q, w, acc, key, ps);
        }
        if key.is_some() {
            return (None, None);
        }
        let sub = sub_vec(s, w, i);
        let mut kd: Vec<char> = Vec::new();
        decode_chars(&sub, 0, &mut kd);
        return obj_scan(s, i + 1, acc, Some(kd), ps, None);
    }
    if c == '\\' {
        let ni: usize = if s.len() - i >= 2 {
            i + 2
        } else {
            s.len()
        };
        return obj_scan_quote(s, ni, q, w, acc, key, ps);
    }
    obj_scan_quote(s, i + 1, q, w, acc, key, ps)
}

impl core::str::FromStr for JsonObject {
    type Err = Error;

    fn from_str(s: &str) -> Result<Self, Self::Err> {
        parse_object(s.to_owned())
    }
}

/// Parse a complete document whose top-level shape is an object.
pub fn parse_object(json: String) -> (r: Result<JsonObject, Error>)
    ensures
        json@.len() <= isize::MAX as int ==> match (r, spec_top_obj(json@, 0, true)) {
            (Ok(o), Some(p)) => o@ == p.0,
            (Err(e), None) => e == Error::InvalidJson,
            _ => false,
        },
{
    if json.as_str().unicode_len() > (isize::MAX as usize) {
        return Err(Error::InvalidJson);
    }
    let mut end_ref = Wrap(0isize);
    let object = parse(&json, 0, &mut end_ref);
    match object {
        Some(o) => Ok(o),
        None => Err(Error::InvalidJson),
    }
}

} // verus!
