use vstd::prelude::*;
use crate::chars::{chars_to_string, push_str_chars};
use crate::num::{dec_int, push_dec_i128};
use crate::object::JsonObject;

verus! {

/// The failures of the storage layer.
#[derive(Debug)]
pub enum Error {
    ParseError,
    SqlError(String),
    ConfigError(String),
    ArgError(String),
}

/// The connection settings a deployment provides.
#[derive(Debug)]
pub struct Config {
    pub datasource: String,
    pub webdir: Option<String>,
    pub port: Option<u16>,
}

/// The database flavours a connection may speak.
#[derive(Debug)]
pub enum Mode {
    Mysql,
    Sqlite,
    PostgrepSql,
}

/// Implemented by each connection type.
pub trait Connect {

}

/// A data access handle: the configuration plus a live connection.
pub struct Dao<T: Connect> {
    pub config: Config,
    pub connect: T,
}

/// Implemented by every table-backed record type.
pub trait Table: Sized {
    /// The primary key column, such as "id".
    fn id() -> &'static str;

    /// Whether the primary key auto-increments.
    fn id_auto_increase() -> bool;

    /// The column names.
    fn columns() -> Vec<&'static str>;

    /// The rendered primary key of this record.
    fn id_value(&self) -> String;

    /// The table name.
    fn table_name() -> &'static str;

    /// Rebuild a record from one row.
    fn from_json_object(v: &JsonObject) -> Result<Self, Error>;

    /// Render a record as one row.
    fn to_json_object(&self) -> Result<JsonObject, Error>;
}

/// The common operations a storage backend offers over table-backed
/// records.
pub trait CommInterface {
    /// Query under a search description; a page window fills its total.
    fn list<T: Table>(&self, search_arg: &mut Search) -> Result<Vec<T>, Error>;

    /// Query the whole table.
    fn list_all<T: Table>(&self) -> Result<Vec<T>, Error>;

    /// Update one record by its primary key.
    fn set<T: Table>(&self, entity: T) -> Result<usize, Error>;

    /// Delete one record by its primary key.
    fn delete<T: Table>(&self, entity: T) -> Result<usize, Error>;

    /// Insert one record.
    fn add<T: Table>(&self, entity: T) -> Result<usize, Error>;
}

/// The operators a condition may use.
#[derive(Debug)]
pub enum Operator {
    Ne,
    Eq,
    Ge,
    Gt,
    Le,
    Lt,
    In,
    NotIn,
    Land,
    LandNe,
    Like,
    NotLike,
}

/// The token each operator renders as.
pub open spec fn op_str(op: Operator) -> Seq<char> {
    match op {
        Operator::Ne => seq!['<', '>'],
        Operator::Eq => seq!['='],
        Operator::Ge => seq!['>', '='],
        Operator::Gt => seq!['>'],
        Operator::Le => seq!['<', '='],
        Operator::Lt => seq!['<'],
        Operator::In => seq!['i', 'n'],
        Operator::NotIn => seq!['n', 'o', 't', ' ', 'i', 'n'],
        Operator::Land => seq!['&'],
        Operator::LandNe => seq!['&', '<', '>'],
        Operator::Like => seq!['l', 'i', 'k', 'e'],
        Operator::NotLike => seq!['n', 'o', 't', ' ', 'l', 'i', 'k', 'e'],
    }
}

impl Operator {
    /// The operator's SQL token.
    pub fn to_string(&self) -> (r: String)
        ensures
            r@ == op_str(*self),
    {
        let mut out: Vec<char> = Vec::new();
        match self {
            Operator::Ne => {
                out.push('<');
                out.push('>');
            },
            Operator::Eq => {
                out.push('=');
            },
            Operator::Ge => {
                out.push('>');
                out.push('=');
            },
            Operator::Gt => {
                out.push('>');
            },
            Operator::Le => {
                out.push('<');
                out.push('=');
            },
            Operator::Lt => {
                out.push('<');
            },
            Operator::In => {
                out.push('i');
                out.push('n');
            },
            Operator::NotIn => {
                out.push('n');
                out.push('o');
                out.push('t');
                out.push(' ');
                out.push('i');
                out.push('n');
            },
            Operator::Land => {
                out.push('&');
            },
            Operator::LandNe => {
                out.push('&');
                out.push('<');
                out.push('>');
            },
            Operator::Like => {
                out.push('l');
                out.push('i');
                out.push('k');
                out.push('e');
            },
            Operator::NotLike => {
                out.push('n');
                out.push('o');
                out.push('t');
                out.push(' ');
                out.push('l');
                out.push('i');
                out.push('k');
                out.push('e');
            },
        }
        proof {
            assert(out@ =~= op_str(*self));
        }
        chars_to_string(&out)
    }

    fn is_plain_cmp(&self) -> (r: bool)
        ensures
            r == (self matches Operator::Ne || self matches Operator::Eq || self
                matches Operator::Ge || self matches Operator::Gt || self matches Operator::Le
                || self matches Operator::Lt),
    {
        match self {
            Operator::Ne | Operator::Eq | Operator::Ge | Operator::Gt | Operator::Le
            | Operator::Lt => true,
            _ => false,
        }
    }
}

/// The rendered form of one condition.
pub open spec fn spec_cond(key: Seq<char>, op: Operator, value: Seq<char>) -> Seq<char> {
    match op {
        Operator::Ne | Operator::Eq | Operator::Ge | Operator::Gt | Operator::Le | Operator::Lt =>seq![
            '(',
        ] + key + seq![' '] + op_str(op) + seq![' '] + value + seq![')'],
        Operator::In | Operator::NotIn => seq!['('] + key + seq![' '] + op_str(op) + seq![
            ' ',
            '(',
        ] + value + seq![')', ')'],
        Operator::Land | Operator::LandNe => seq!['('] + key + seq![' '] + op_str(op) + seq![' ']
            + value + seq![' '] + value + seq![')'],
        Operator::Like | Operator::NotLike => seq!['('] + key + seq![' '] + op_str(op) + seq![
            ' ',
            '"',
            '%',
        ] + value + seq!['%', '"', ')'],
    }
}

/// One condition: a column, an operator and a rendered value.
#[derive(Debug)]
pub struct Cond {
    key: String,
    op: Operator,
    value: String,
}

impl Cond {
    /// The column this condition constrains.
    pub closed spec fn spec_key(&self) -> Seq<char> {
        self.key@
    }

    /// The operator of this condition.
    pub closed spec fn spec_op(&self) -> Operator {
        self.op
    }

    /// The rendered value this condition compares against.
    pub closed spec fn spec_value(&self) -> Seq<char> {
        self.value@
    }

    pub fn new(key: &str, op: Operator, value: &str) -> (r: Self)
        ensures
            r.spec_key() == key@,
            r.spec_op() == op,
            r.spec_value() == value@,
    {
        Self { key: key.to_owned(), op, value: value.to_owned() }
    }

    /// Render the condition for a where clause.
    fn parse(&self) -> (r: String)
        ensures
            r@ == spec_cond(self.key@, self.op, self.value@),
    {
        let mut out: Vec<char> = Vec::new();
        out.push('(');
        push_str_chars(self.key.as_str(), &mut out);
        out.push(' ');
        let ops = self.op.to_string();
        push_str_chars(ops.as_str(), &mut out);
        out.push(' ');
        if self.op.is_plain_cmp() {
            push_str_chars(self.value.as_str(), &mut out);
            out.push(')');
        } else {
            match self.op {
                Operator::In | Operator::NotIn => {
                    out.push('(');
                    push_str_chars(self.value.as_str(), &mut out);
                    out.push(')');
                    out.push(')');
                },
                Operator::Land | Operator::LandNe => {
                    push_str_chars(self.value.as_str(), &mut out);
                    out.push(' ');
                    push_str_chars(self.value.as_str(), &mut out);
                    out.push(')');
                },
                _ => {
                    out.push('"');
                    out.push('%');
                    push_str_chars(self.value.as_str(), &mut out);
                    out.push('%');
                    out.push('"');
                    out.push(')');
                },
            }
        }
        proof {
            assert(out@ =~= spec_cond(self.key@, self.op, self.value@));
        }
        chars_to_string(&out)
    }
}

/// The pieces joined with a separator: `a SEP b SEP c`.
pub open spec fn join_sep(parts: Seq<Seq<char>>, sep: Seq<char>) -> Seq<char>
    decreases parts.len(),
{
    if parts.len() == 0 {
        Seq::<char>::empty()
    } else if parts.len() == 1 {
        parts[0]
    } else {
        parts[0] + sep + join_sep(parts.drop_first(), sep)
    }
}

/// Join rendered pieces with a separator text.
fn join_strings(parts: &Vec<String>, k: usize, sep: &str, out: &mut Vec<char>)
    requires
        k <= parts@.len(),
    ensures
        final(out)@ == old(out)@ + join_sep(strs_view(parts@).skip(k as int), sep@),
    decreases parts@.len() - k,
{
    proof {
        lemma_strs_view_len(parts@);
    }
    if k >= parts.len() {
        proof {
            assert(strs_view(parts@).skip(k as int) =~= Seq::<Seq<char>>::empty());
            assert(out@ =~= old(out)@ + join_sep(strs_view(parts@).skip(k as int), sep@));
        }
        return ;
    }
    let ghost sv = strs_view(parts@).skip(k as int);
    proof {
        lemma_strs_view_index(parts@, k as int);
        assert(sv[0] == parts@[k as int]@);
    }
    push_str_chars(parts[k].as_str(), out);
    if k + 1 < parts.len() {
        push_str_chars(sep, out);
        join_strings(parts, k + 1, sep, out);
        proof {
            assert(sv.drop_first() =~= strs_view(parts@).skip(k + 1 as int));
            assert(out@ =~= old(out)@ + join_sep(sv, sep@));
        }
    } else {
        proof {
            assert(sv.len() == 1);
            assert(out@ =~= old(out)@ + join_sep(sv, sep@));
        }
    }
}

/// The texts of a vector of strings.
pub open spec fn strs_view(parts: Seq<String>) -> Seq<Seq<char>> {
    parts.map_values(|s: String| s@)
}

proof fn lemma_strs_view_len(parts: Seq<String>)
    ensures
        strs_view(parts).len() == parts.len(),
{
}

proof fn lemma_strs_view_index(parts: Seq<String>, i: int)
    requires
        0 <= i < parts.len(),
    ensures
        strs_view(parts)[i] == parts[i]@,
{
}

/// The rendered where clause of a matcher: the and-conditions joined with
/// `and`, the or-conditions joined with `or`, each group parenthesised,
/// both groups joined with `and` when both are present.
pub open spec fn spec_matcher(ands: Seq<Seq<char>>, ors: Seq<Seq<char>>) -> Seq<char> {
    if ands.len() == 0 && ors.len() == 0 {
        Seq::<char>::empty()
    } else if ands.len() > 0 && ors.len() > 0 {
        seq!['('] + join_sep(ands, seq![' ', 'a', 'n', 'd', ' ']) + seq![')', ' ', 'a', 'n', 'd', ' ', '(']
            + join_sep(ors, seq![' ', 'o', 'r', ' ']) + seq![')']
    } else if ands.len() > 0 {
        seq!['('] + join_sep(ands, seq![' ', 'a', 'n', 'd', ' ']) + seq![')']
    } else {
        seq!['('] + join_sep(ors, seq![' ', 'o', 'r', ' ']) + seq![')']
    }
}

/// A condition builder: and-conditions and or-conditions accumulated as
/// rendered texts.
#[derive(Debug)]
pub struct Matcher {
    conds_and: Vec<String>,
    conds_or: Vec<String>,
}

impl Matcher {
    /// The accumulated and-conditions, as texts.
    pub closed spec fn ands(&self) -> Seq<Seq<char>> {
        strs_view(self.conds_and@)
    }

    /// The accumulated or-conditions, as texts.
    pub closed spec fn ors(&self) -> Seq<Seq<char>> {
        strs_view(self.conds_or@)
    }

    pub fn new() -> (r: Self)
        ensures
            r.ands() =~= Seq::<Seq<char>>::empty(),
            r.ors() =~= Seq::<Seq<char>>::empty(),
    {
        Self { conds_and: Vec::new(), conds_or: Vec::new() }
    }

    /// Whether no condition has been set.
    pub fn is_empty(&self) -> (r: bool)
        ensures
            r == (self.ands().len() == 0 && self.ors().len() == 0),
    {
        self.conds_and.len() == 0 && self.conds_or.len() == 0
    }

    /// Drop every condition set so far.
    pub fn clear(&mut self)
        ensures
            final(self).ands() =~= Seq::<Seq<char>>::empty(),
            final(self).ors() =~= Seq::<Seq<char>>::empty(),
    {
        self.conds_and.clear();
        self.conds_or.clear();
    }

    /// Add an and-condition over a plain value.
    pub fn and(&mut self, key: &str, op: Operator, value: &str)
        ensures
            final(self).ands() =~= old(self).ands().push(spec_cond(key@, op, value@)),
            final(self).ors() == old(self).ors(),
    {
        let cond = Cond::new(key, op, value);
        self.conds_and.push(cond.parse());
    }

    /// Add an and-condition over a quoted string value.
    pub fn and_str(&mut self, key: &str, op: Operator, value: &str)
        ensures
            final(self).ands() =~= old(self).ands().push(
                spec_cond(key@, op, seq!['\''] + value@ + seq!['\'']),
            ),
            final(self).ors() == old(self).ors(),
    {
        let mut q: Vec<char> = Vec::new();
        q.push('\'');
        push_str_chars(value, &mut q);
        q.push('\'');
        proof {
            assert(q@ =~= seq!['\''] + value@ + seq!['\'']);
        }
        let quoted = chars_to_string(&q);
        let cond = Cond::new(key, op, quoted.as_str());
        self.conds_and.push(cond.parse());
    }

    /// Nest another matcher as one and-condition.
    pub fn and_matcher(&mut self, matcher: Self)
        ensures
            final(self).ands() =~= old(self).ands().push(
                spec_matcher(matcher.ands(), matcher.ors()),
            ),
            final(self).ors() == old(self).ors(),
    {
        let text = matcher.parse();
        self.conds_and.push(text);
    }

    /// Add an or-condition over a plain value.
    pub fn or(&mut self, key: &str, op: Operator, value: &str)
        ensures
            final(self).ors() =~= old(self).ors().push(spec_cond(key@, op, value@)),
            final(self).ands() == old(self).ands(),
    {
        let cond = Cond::new(key, op, value);
        self.conds_or.push(cond.parse());
    }

    /// Nest another matcher as one or-condition.
    pub fn or_matcher(&mut self, matcher: Self)
        ensures
            final(self).ors() =~= old(self).ors().push(
                spec_matcher(matcher.ands(), matcher.ors()),
            ),
            final(self).ands() == old(self).ands(),
    {
        let text = matcher.parse();
        self.conds_or.push(text);
    }

    /// Render the where clause.
    pub(crate) fn parse(&self) -> (r: String)
        ensures
            r@ == spec_matcher(self.ands(), self.ors()),
    {
        let na = self.conds_and.len();
        let no = self.conds_or.len();
        let mut out: Vec<char> = Vec::new();
        if na == 0 && no == 0 {
            return chars_to_string(&out);
        }
        if na > 0 && no > 0 {
            out.push('(');
            join_strings(&self.conds_and, 0, " and ", &mut out);
            out.push(')');
            out.push(' ');
            out.push('a');
            out.push('n');
            out.push('d');
            out.push(' ');
            out.push('(');
            join_strings(&self.conds_or, 0, " or ", &mut out);
            out.push(')');
        } else if na > 0 {
            out.push('(');
            join_strings(&self.conds_and, 0, " and ", &mut out);
            out.push(')');
        } else {
            out.push('(');
            join_strings(&self.conds_or, 0, " or ", &mut out);
            out.push(')');
        }
        proof {
            reveal_strlit(" and ");
            reveal_strlit(" or ");
            assert(" and "@ =~= seq![' ', 'a', 'n', 'd', ' ']);
            assert(" or "@ =~= seq![' ', 'o', 'r', ' ']);
            assert(self.ands().skip(0) =~= self.ands());
            assert(self.ors().skip(0) =~= self.ors());
            assert(out@ =~= spec_matcher(self.ands(), self.ors()));
        }
        chars_to_string(&out)
    }
}

/// One ordering term: `key desc` or `key asc`.
pub open spec fn spec_order_term(key: Seq<char>, desc: bool) -> Seq<char> {
    key + seq![' '] + (if desc {
        seq!['d', 'e', 's', 'c']
    } else {
        seq!['a', 's', 'c']
    })
}

/// The rendered order clause: ` order by a,b` when any term is present.
pub open spec fn spec_order(terms: Seq<Seq<char>>) -> Seq<char> {
    if terms.len() == 0 {
        Seq::<char>::empty()
    } else {
        seq![' ', 'o', 'r', 'd', 'e', 'r', ' ', 'b', 'y', ' '] + join_sep(terms, seq![','])
    }
}

/// An ordering builder.
#[derive(Debug)]
pub struct Comparator {
    list: Vec<String>,
}

impl Comparator {
    /// The accumulated ordering terms, as texts.
    pub closed spec fn terms(&self) -> Seq<Seq<char>> {
        strs_view(self.list@)
    }

    pub fn new() -> (r: Self)
        ensures
            r.terms() =~= Seq::<Seq<char>>::empty(),
    {
        Self { list: Vec::new() }
    }

    /// Whether no ordering has been set.
    pub fn is_empty(&self) -> (r: bool)
        ensures
            r == (self.terms().len() == 0),
    {
        self.list.len() == 0
    }

    fn term(key: &str, desc: bool) -> (r: String)
        ensures
            r@ == spec_order_term(key@, desc),
    {
        let mut out: Vec<char> = Vec::new();
        push_str_chars(key, &mut out);
        out.push(' ');
        if desc {
            out.push('d');
            out.push('e');
            out.push('s');
            out.push('c');
        } else {
            out.push('a');
            out.push('s');
            out.push('c');
        }
        proof {
            assert(out@ =~= spec_order_term(key@, desc));
        }
        chars_to_string(&out)
    }

    /// Append an ordering term.
    pub fn add(&mut self, key: &str, desc: bool)
        ensures
            final(self).terms() =~= old(self).terms().push(spec_order_term(key@, desc)),
    {
        let t = Self::term(key, desc);
        self.list.push(t);
    }

    /// Insert an ordering term at a position.
    pub fn insert(&mut self, index: usize, key: &str, desc: bool)
        requires
            index <= old(self).terms().len(),
        ensures
            final(self).terms() =~= old(self).terms().insert(
                index as int,
                spec_order_term(key@, desc),
            ),
    {
        let t = Self::term(key, desc);
        self.list.insert(index, t);
    }

    /// Drop every ordering term.
    pub fn clear(&mut self)
        ensures
            final(self).terms() =~= Seq::<Seq<char>>::empty(),
    {
        self.list.clear();
    }

    /// Render the order clause.
    pub(crate) fn parse(&self) -> (r: String)
        ensures
            r@ == spec_order(self.terms()),
    {
        let mut out: Vec<char> = Vec::new();
        if self.list.len() == 0 {
            return chars_to_string(&out);
        }
        push_str_chars(" order by ", &mut out);
        join_strings(&self.list, 0, ",", &mut out);
        proof {
            reveal_strlit(" order by ");
            reveal_strlit(",");
            assert(" order by "@ =~= seq![' ', 'o', 'r', 'd', 'e', 'r', ' ', 'b', 'y', ' ']);
            assert(","@ =~= seq![',']);
            assert(self.terms().skip(0) =~= self.terms());
            assert(out@ =~= spec_order(self.terms()));
        }
        chars_to_string(&out)
    }
}

/// The full select statement for one table under a search.
pub open spec fn spec_search(
    fileds: Seq<char>,
    table: Seq<char>,
    where_clause: Seq<char>,
    group: Seq<char>,
    order: Seq<char>,
    start: int,
    limit: int,
) -> Seq<char> {
    let head = seq!['s', 'e', 'l', 'e', 'c', 't', ' '] + fileds + seq![
        ' ',
        'f',
        'r',
        'o',
        'm',
        ' ',
    ] + table;
    let with_where = if where_clause.len() > 0 {
        head + seq![' ', 'w', 'h', 'e', 'r', 'e', ' '] + where_clause
    } else {
        head
    };
    let with_group = if group.len() > 0 {
        with_where + seq![' ', 'g', 'r', 'o', 'u', 'p', ' ', 'b', 'y', ' '] + group
    } else {
        with_where
    };
    let with_order = with_group + order;
    if start > -1 && limit > -1 {
        with_order + seq![' ', 'l', 'i', 'm', 'i', 't', ' '] + dec_int(start) + seq![','] + dec_int(
            limit,
        )
    } else {
        with_order
    }
}

/// A query description: conditions, projection, grouping, ordering and an
/// optional page window.  `total` is filled by a backend when paging.
#[derive(Debug)]
pub struct Search {
    pub matcher: Matcher,
    pub fileds: String,
    pub group: String,
    pub start: isize,
    pub limit: isize,
    pub sort: Comparator,
    pub total: i64,
}

impl Default for Search {
    fn default() -> (r: Self)
        ensures
            r.matcher.ands().len() == 0,
            r.matcher.ors().len() == 0,
            r.fileds@ =~= seq!['*'],
            r.group@ =~= Seq::<char>::empty(),
            r.start == -1,
            r.limit == -1,
            r.sort.terms().len() == 0,
            r.total == 0,
    {
        let mut star: Vec<char> = Vec::new();
        star.push('*');
        Self {
            matcher: Matcher::new(),
            fileds: chars_to_string(&star),
            group: String::new(),
            start: -1,
            limit: -1,
            sort: Comparator::new(),
            total: 0,
        }
    }
}

impl Search {
    pub fn new() -> (r: Self)
        ensures
            r.matcher.ands().len() == 0,
            r.matcher.ors().len() == 0,
            r.fileds@ =~= seq!['*'],
            r.group@ =~= Seq::<char>::empty(),
            r.start == -1,
            r.limit == -1,
            r.sort.terms().len() == 0,
            r.total == 0,
    {
        Default::default()
    }

    /// Whether a page window was given, which makes a backend compute the
    /// total count.
    pub fn is_seach_total(&self) -> (r: bool)
        ensures
            r == (self.start > -1 && self.limit > -1),
    {
        self.start > -1 && self.limit > -1
    }

    /// Render the full select statement for one table.
    pub fn parse(&self, table: &str) -> (r: String)
        ensures
            r@ == spec_search(
                self.fileds@,
                table@,
                spec_matcher(self.matcher.ands(), self.matcher.ors()),
                self.group@,
                spec_order(self.sort.terms()),
                self.start as int,
                self.limit as int,
            ),
    {
        let mut out: Vec<char> = Vec::new();
        push_str_chars("select ", &mut out);
        push_str_chars(self.fileds.as_str(), &mut out);
        push_str_chars(" from ", &mut out);
        push_str_chars(table, &mut out);
        proof {
            reveal_strlit("select ");
            reveal_strlit(" from ");
            assert("select "@ =~= seq!['s', 'e', 'l', 'e', 'c', 't', ' ']);
            assert(" from "@ =~= seq![' ', 'f', 'r', 'o', 'm', ' ']);
        }
        if !self.matcher.is_empty() {
            let cond = self.matcher.parse();
            if !cond.as_str().is_empty() {
                push_str_chars(" where ", &mut out);
                push_str_chars(cond.as_str(), &mut out);
                proof {
                    reveal_strlit(" where ");
                    assert(" where "@ =~= seq![' ', 'w', 'h', 'e', 'r', 'e', ' ']);
                }
            } else {
                proof {
                    lemma_matcher_nonempty(self.matcher.ands(), self.matcher.ors());
                }
            }
        }
        if !self.group.as_str().is_empty() {
            push_str_chars(" group by ", &mut out);
            push_str_chars(self.group.as_str(), &mut out);
            proof {
                reveal_strlit(" group by ");
                assert(" group by "@ =~= seq![' ', 'g', 'r', 'o', 'u', 'p', ' ', 'b', 'y', ' ']);
            }
        }
        if !self.sort.is_empty() {
            let o = self.sort.parse();
            push_str_chars(o.as_str(), &mut out);
        }
        if self.start > -1 && self.limit > -1 {
            push_str_chars(" limit ", &mut out);
            push_dec_i128(self.start as i128, &mut out);
            out.push(',');
            push_dec_i128(self.limit as i128, &mut out);
            proof {
                reveal_strlit(" limit ");
                assert(" limit "@ =~= seq![' ', 'l', 'i', 'm', 'i', 't', ' ']);
            }
        }
        proof {
            assert(out@ =~= spec_search(
                self.fileds@,
                table@,
                spec_matcher(self.matcher.ands(), self.matcher.ors()),
                self.group@,
                spec_order(self.sort.terms()),
                self.start as int,
                self.limit as int,
            ));
        }
        chars_to_string(&out)
    }
}

/// A non-empty matcher renders a non-empty clause.
proof fn lemma_matcher_nonempty(ands: Seq<Seq<char>>, ors: Seq<Seq<char>>)
    requires
        ands.len() > 0 || ors.len() > 0,
    ensures
        spec_matcher(ands, ors).len() > 0,
{
}

} // verus!
