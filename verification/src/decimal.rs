use vstd::prelude::*;
use crate::chars::is_digit_char;
use crate::num::all_digits;

verus! {

// ---------------------------------------------------------------------------
// Floating-point numbers cannot enter verified code, so the value model
// keeps each float as its decimal text in a canonical form: an optional
// minus sign, an integer part without superfluous leading zeros, a dot, and
// a fractional part without trailing zeros (or a text kept verbatim when it
// carries an exponent).  The grammar below is the one `str::parse::<f64>`
// accepts, restricted to lower-case tokens, which is what the type
// inference hands in.
// ---------------------------------------------------------------------------

pub open spec fn first_idx_of(s: Seq<char>, c: char) -> Option<int>
    decreases s.len(),
{
    if s.len() == 0 {
        None
    } else if s[0] == c {
        Some(0)
    } else {
        match first_idx_of(s.drop_first(), c) {
            Some(i) => Some(i + 1),
            None => None,
        }
    }
}

pub open spec fn contains_char(s: Seq<char>, c: char) -> bool {
    exists|i: int| 0 <= i < s.len() && s[i] == c
}

proof fn lemma_first_idx_of(s: Seq<char>, c: char)
    ensures
        match first_idx_of(s, c) {
            Some(i) => 0 <= i < s.len() && s[i] == c && forall|k: int| 0 <= k < i ==> s[k] != c,
            None => forall|k: int| 0 <= k < s.len() ==> s[k] != c,
        },
    decreases s.len(),
{
    if s.len() > 0 && s[0] != c {
        let sub = s.drop_first();
        lemma_first_idx_of(sub, c);
        assert(forall|k: int| 1 <= k < s.len() ==> s[k] == sub[k - 1]);
    }
}

pub proof fn lemma_contains_first_idx(s: Seq<char>, c: char)
    ensures
        contains_char(s, c) <==> first_idx_of(s, c) is Some,
{
    lemma_first_idx_of(s, c);
    if contains_char(s, c) {
        let i = choose|i: int| 0 <= i < s.len() && s[i] == c;
        assert(s[i] == c);
        if first_idx_of(s, c) is None {
            assert(s[i] != c);
        }
    }
}

/// Find the first occurrence of `c`, as an executable scan.
pub fn find_first(t: &Vec<char>, c: char) -> (r: Option<usize>)
    ensures
        match r {
            Some(i) => first_idx_of(t@, c) == Some(i as int),
            None => first_idx_of(t@, c) is None,
        },
{
    proof {
        lemma_first_idx_of(t@, c);
    }
    let mut i: usize = 0;
    while i < t.len()
        invariant
            i <= t@.len(),
            forall|k: int| 0 <= k < i ==> t@[k] != c,
        decreases t@.len() - i,
    {
        if t[i] == c {
            proof {
                lemma_first_idx_of(t@, c);
                lemma_contains_first_idx(t@, c);
                assert(contains_char(t@, c));
                let f = first_idx_of(t@, c)->Some_0;
                if f < i {
                    assert(t@[f] != c);
                }
                if f > i {
                    assert(t@[i as int] != c);
                }
            }
            return Some(i);
        }
        i = i + 1;
    }
    proof {
        match first_idx_of(t@, c) {
            Some(f) => assert(t@[f] != c),
            None => (),
        }
    }
    None
}

/// Find the first occurrence of `c` within `[from, to)`.
fn find_from(t: &Vec<char>, from: usize, to: usize, c: char) -> (r: Option<usize>)
    requires
        from <= to <= t@.len(),
    ensures
        match r {
            Some(i) => from <= i < to && first_idx_of(t@.subrange(from as int, to as int), c)
                == Some(i - from),
            None => first_idx_of(t@.subrange(from as int, to as int), c) is None,
        },
{
    let ghost s = t@.subrange(from as int, to as int);
    proof {
        lemma_first_idx_of(s, c);
        lemma_contains_first_idx(s, c);
    }
    let mut i: usize = from;
    while i < to
        invariant
            from <= i <= to <= t@.len(),
            s == t@.subrange(from as int, to as int),
            forall|k: int| 0 <= k < i - from ==> s[k] != c,
        decreases to - i,
    {
        if t[i] == c {
            proof {
                lemma_first_idx_of(s, c);
                lemma_contains_first_idx(s, c);
                assert(s[i - from] == c);
                assert(contains_char(s, c));
                assert(first_idx_of(s, c) is Some);
                let f = first_idx_of(s, c)->Some_0;
                if f < i - from {
                    assert(s[f] != c);
                }
                if f > i - from {
                    assert(s[i - from] != c);
                }
            }
            return Some(i);
        }
        i = i + 1;
    }
    proof {
        match first_idx_of(s, c) {
            Some(f) => assert(s[f] != c),
            None => (),
        }
    }
    None
}

pub open spec fn strip_sign(s: Seq<char>) -> Seq<char> {
    if s.len() > 0 && (s[0] == '+' || s[0] == '-') {
        s.subrange(1, s.len() as int)
    } else {
        s
    }
}

/// digits+ | digits+ '.' digits* | digits* '.' digits+
pub open spec fn is_mantissa(m: Seq<char>) -> bool {
    if contains_char(m, '.') {
        m.len() > 1 && (match first_idx_of(m, '.') {
            Some(k) => all_digits(m.subrange(0, k)) && all_digits(
                m.subrange(k + 1, m.len() as int),
            ),
            None => false,
        })
    } else {
        m.len() > 0 && all_digits(m)
    }
}

pub open spec fn is_exp_part(s: Seq<char>) -> bool {
    let b = strip_sign(s);
    b.len() > 0 && all_digits(b)
}

/// The token grammar of `str::parse::<f64>`, for lower-case tokens.
pub open spec fn is_float_text(t: Seq<char>) -> bool {
    let b = strip_sign(t);
    if b =~= seq!['i', 'n', 'f'] || b =~= seq!['i', 'n', 'f', 'i', 'n', 'i', 't', 'y'] || b =~= seq![
        'n',
        'a',
        'n',
    ] {
        true
    } else {
        match first_idx_of(b, 'e') {
            Some(k) => is_mantissa(b.subrange(0, k)) && is_exp_part(
                b.subrange(k + 1, b.len() as int),
            ),
            None => is_mantissa(b),
        }
    }
}

pub open spec fn strip_zeros_front(s: Seq<char>) -> Seq<char>
    decreases s.len(),
{
    if s.len() > 0 && s[0] == '0' {
        strip_zeros_front(s.drop_first())
    } else {
        s
    }
}

pub open spec fn strip_zeros_back(s: Seq<char>) -> Seq<char>
    decreases s.len(),
{
    if s.len() > 0 && s.last() == '0' {
        strip_zeros_back(s.drop_last())
    } else {
        s
    }
}

pub open spec fn or_zero(s: Seq<char>) -> Seq<char> {
    if s.len() == 0 {
        seq!['0']
    } else {
        s
    }
}

/// The canonical text of a float token without an exponent: sign kept only
/// when negative, no leading zeros in the integer part, no trailing zeros in
/// the fraction, both parts padded with a single zero when empty.
pub open spec fn canon_float(t: Seq<char>) -> Seq<char> {
    if contains_char(t, 'e') {
        t
    } else {
        let neg = t.len() > 0 && t[0] == '-';
        let b = strip_sign(t);
        match first_idx_of(b, '.') {
            Some(k) => {
                let ip = or_zero(strip_zeros_front(b.subrange(0, k)));
                let fp = or_zero(strip_zeros_back(b.subrange(k + 1, b.len() as int)));
                (if neg {
                    seq!['-']
                } else {
                    Seq::<char>::empty()
                }) + ip + seq!['.'] + fp
            },
            None => t,
        }
    }
}

// ---------------------------------------------------------------------------
// Executable counterparts.
// ---------------------------------------------------------------------------

fn all_digits_range(t: &Vec<char>, from: usize, to: usize) -> (r: bool)
    requires
        from <= to <= t@.len(),
    ensures
        r == all_digits(t@.subrange(from as int, to as int)),
{
    let ghost s = t@.subrange(from as int, to as int);
    let mut i: usize = from;
    while i < to
        invariant
            from <= i <= to <= t@.len(),
            s == t@.subrange(from as int, to as int),
            forall|k: int| 0 <= k < i - from ==> is_digit_char(s[k]),
        decreases to - i,
    {
        let c = t[i];
        if !('0' <= c && c <= '9') {
            assert(!is_digit_char(s[i - from]));
            return false;
        }
        assert(is_digit_char(s[i - from]));
        i = i + 1;
    }
    true
}

fn is_mantissa_range(t: &Vec<char>, from: usize, to: usize) -> (r: bool)
    requires
        from <= to <= t@.len(),
    ensures
        r == is_mantissa(t@.subrange(from as int, to as int)),
{
    let ghost m = t@.subrange(from as int, to as int);
    proof {
        lemma_contains_first_idx(m, '.');
    }
    let dot = find_from(t, from, to, '.');
    match dot {
        Some(k) => {
            let before = all_digits_range(t, from, k);
            let after = all_digits_range(t, k + 1, to);
            proof {
                assert(t@.subrange(from as int, k as int) =~= m.subrange(0, k - from));
                assert(t@.subrange(k + 1 as int, to as int) =~= m.subrange(
                    k - from + 1,
                    m.len() as int,
                ));
            }
            before && after && to - from > 1
        },
        None => { to > from && all_digits_range(t, from, to) },
    }
}

pub(crate) fn eq_range(t: &Vec<char>, from: usize, to: usize, pat: &Vec<char>) -> (r: bool)
    requires
        from <= to <= t@.len(),
    ensures
        r == (t@.subrange(from as int, to as int) =~= pat@),
{
    if to - from != pat.len() {
        assert(t@.subrange(from as int, to as int).len() != pat@.len());
        return false;
    }
    let ghost s = t@.subrange(from as int, to as int);
    let mut i: usize = 0;
    while i < pat.len()
        invariant
            from <= to <= t@.len(),
            to - from == pat@.len(),
            i <= pat@.len(),
            s == t@.subrange(from as int, to as int),
            forall|k: int| 0 <= k < i ==> s[k] == pat@[k],
        decreases pat@.len() - i,
    {
        if t[from + i] != pat[i] {
            assert(s[i as int] != pat@[i as int]);
            return false;
        }
        i = i + 1;
    }
    true
}

/// Decide whether a lower-case token is a float literal.
pub fn is_float_text_chars(t: &Vec<char>) -> (r: bool)
    ensures
        r == is_float_text(t@),
{
    let n = t.len();
    let signed = n > 0 && (t[0] == '+' || t[0] == '-');
    let from: usize = if signed {
        1
    } else {
        0
    };
    let ghost b = strip_sign(t@);
    proof {
        assert(b =~= t@.subrange(from as int, n as int));
    }
    let inf: Vec<char> = vec!['i', 'n', 'f'];
    let infinity: Vec<char> = vec!['i', 'n', 'f', 'i', 'n', 'i', 't', 'y'];
    let nan: Vec<char> = vec!['n', 'a', 'n'];
    if eq_range(t, from, n, &inf) || eq_range(t, from, n, &infinity) || eq_range(t, from, n, &nan) {
        return true;
    }
    proof {
        lemma_contains_first_idx(b, 'e');
    }
    let epos = find_from(t, from, n, 'e');
    match epos {
        Some(k) => {
            let mant = is_mantissa_range(t, from, k);
            let esigned = k + 1 < n && (t[k + 1] == '+' || t[k + 1] == '-');
            let efrom: usize = if esigned {
                k + 2
            } else {
                k + 1
            };
            let expo = efrom < n && all_digits_range(t, efrom, n);
            proof {
                assert(t@.subrange(from as int, k as int) =~= b.subrange(0, k - from));
                let ep = b.subrange(k - from + 1, b.len() as int);
                assert(strip_sign(ep) =~= t@.subrange(efrom as int, n as int));
                assert(expo == is_exp_part(ep));
            }
            mant && expo
        },
        None => { is_mantissa_range(t, from, n) },
    }
}

/// Canonicalize a float token (see `canon_float`).
#[verifier::rlimit(100)]
pub fn canon_float_chars(t: &Vec<char>) -> (r: Vec<char>)
    ensures
        r@ == canon_float(t@),
{
    proof {
        lemma_contains_first_idx(t@, 'e');
        lemma_first_idx_of(t@, 'e');
    }
    match find_first(t, 'e') {
        Some(_) => {
            let mut r: Vec<char> = Vec::new();
            let mut i: usize = 0;
            while i < t.len()
                invariant
                    i <= t@.len(),
                    r@ == t@.subrange(0, i as int),
                decreases t@.len() - i,
            {
                r.push(t[i]);
                proof {
                    assert(r@ =~= t@.subrange(0, i + 1 as int));
                }
                i = i + 1;
            }
            proof {
                assert(r@ =~= t@);
            }
            r
        },
        None => {
            let n = t.len();
            let neg = n > 0 && t[0] == '-';
            let signed = n > 0 && (t[0] == '+' || t[0] == '-');
            let from: usize = if signed {
                1
            } else {
                0
            };
            let ghost b = strip_sign(t@);
            proof {
                assert(b =~= t@.subrange(from as int, n as int));
            }
            let dot = find_from(t, from, n, '.');
            match dot {
                None => {
                    let mut r: Vec<char> = Vec::new();
                    let mut j: usize = 0;
                    while j < n
                        invariant
                            j <= n,
                            n == t@.len(),
                            r@ == t@.subrange(0, j as int),
                        decreases n - j,
                    {
                        r.push(t[j]);
                        proof {
                            assert(r@ =~= t@.subrange(0, j + 1 as int));
                        }
                        j = j + 1;
                    }
                    proof {
                        assert(r@ =~= t@);
                    }
                    r
                },
                Some(k) => {
                    // integer part: drop leading zeros
                    let mut a: usize = from;
                    while a < k && t[a] == '0'
                        invariant
                            from <= a <= k,
                            k < n == t@.len(),
                            forall|j: int| from <= j < a ==> t@[j] == '0',
                        decreases k - a,
                    {
                        a = a + 1;
                    }
                    // fraction part: drop trailing zeros
                    let mut z: usize = n;
                    while z > k + 1 && t[z - 1] == '0'
                        invariant
                            k + 1 <= z <= n,
                            k < n == t@.len(),
                            forall|j: int| z <= j < n ==> t@[j] == '0',
                        decreases z,
                    {
                        z = z - 1;
                    }
                    let mut r: Vec<char> = Vec::new();
                    if neg {
                        r.push('-');
                    }
                    let ghost sign_part = if neg {
                        seq!['-']
                    } else {
                        Seq::<char>::empty()
                    };
                    assert(r@ =~= sign_part);
                    let ghost ip = or_zero(strip_zeros_front(b.subrange(0, k - from)));
                    let ghost fp = or_zero(strip_zeros_back(b.subrange(k - from + 1, b.len() as int)));
                    if a == k {
                        r.push('0');
                        proof {
                            lemma_strip_zeros_front_skip(b.subrange(0, k - from), a - from);
                            assert(b.subrange(0, k - from).subrange(a - from, k - from) =~= Seq::<
                                char,
                            >::empty());
                            assert(ip =~= seq!['0']);
                            assert(r@ =~= sign_part + ip);
                        }
                    } else {
                        proof {
                            lemma_strip_zeros_front_skip(b.subrange(0, k - from), a - from);
                            assert(b.subrange(0, k - from).subrange(a - from, k - from) =~= t@
                                .subrange(a as int, k as int));
                            assert(ip == t@.subrange(a as int, k as int));
                        }
                        let mut j: usize = a;
                        while j < k
                            invariant
                                a <= j <= k <= n,
                                n == t@.len(),
                                r@ == sign_part + t@.subrange(a as int, j as int),
                            decreases k - j,
                        {
                            r.push(t[j]);
                            proof {
                                assert(r@ =~= sign_part + t@.subrange(a as int, j + 1 as int));
                            }
                            j = j + 1;
                        }
                        assert(r@ =~= sign_part + ip);
                    }
                    r.push('.');
                    let ghost head = sign_part + ip + seq!['.'];
                    assert(r@ =~= head);
                    if z == k + 1 {
                        r.push('0');
                        proof {
                            lemma_strip_zeros_back_skip(
                                b.subrange(k - from + 1, b.len() as int),
                                z - k - 1,
                            );
                            assert(b.subrange(k - from + 1, b.len() as int).subrange(0, z - k - 1)
                                =~= Seq::<char>::empty());
                            assert(fp =~= seq!['0']);
                            assert(r@ =~= head + fp);
                        }
                    } else {
                        proof {
                            lemma_strip_zeros_back_skip(
                                b.subrange(k - from + 1, b.len() as int),
                                z - k - 1,
                            );
                            assert(b.subrange(k - from + 1, b.len() as int).subrange(0, z - k - 1)
                                =~= t@.subrange(k + 1 as int, z as int));
                            assert(fp == t@.subrange(k + 1 as int, z as int));
                        }
                        let mut j: usize = k + 1;
                        while j < z
                            invariant
                                k + 1 <= j <= z <= n,
                                n == t@.len(),
                                head == r@.subrange(0, head.len() as int),
                                r@ == head + t@.subrange(k + 1 as int, j as int),
                            decreases z - j,
                        {
                            r.push(t[j]);
                            proof {
                                assert(r@ =~= head + t@.subrange(k + 1 as int, j + 1 as int));
                            }
                            j = j + 1;
                        }
                        assert(r@ =~= head + fp);
                    }
                    proof {
                        assert(canon_float(t@) == sign_part + ip + seq!['.'] + fp);
                        assert(r@ =~= canon_float(t@));
                    }
                    r
                },
            }
        },
    }
}

proof fn lemma_strip_zeros_front_skip(s: Seq<char>, i: int)
    requires
        0 <= i <= s.len(),
        forall|k: int| 0 <= k < i ==> s[k] == '0',
        i == s.len() || s[i] != '0',
    ensures
        strip_zeros_front(s) == s.subrange(i, s.len() as int),
    decreases i,
{
    if i > 0 {
        assert(s[0] == '0');
        assert(s.drop_first() =~= s.subrange(1, s.len() as int));
        lemma_strip_zeros_front_skip(s.drop_first(), i - 1);
        assert(s.drop_first().subrange(i - 1, s.drop_first().len() as int) =~= s.subrange(
            i,
            s.len() as int,
        ));
    } else {
        if s.len() > 0 && s[0] == '0' {
            assert(false);
        }
        assert(s.subrange(0, s.len() as int) =~= s);
    }
}

proof fn lemma_strip_zeros_back_skip(s: Seq<char>, j: int)
    requires
        0 <= j <= s.len(),
        forall|k: int| j <= k < s.len() ==> s[k] == '0',
        j == 0 || s[j - 1] != '0',
    ensures
        strip_zeros_back(s) == s.subrange(0, j),
    decreases s.len() - j,
{
    if j < s.len() {
        assert(s.last() == '0');
        assert(s.drop_last() =~= s.subrange(0, s.len() - 1));
        lemma_strip_zeros_back_skip(s.drop_last(), j);
        assert(s.drop_last().subrange(0, j) =~= s.subrange(0, j));
    } else {
        if s.len() > 0 && s.last() == '0' {
            assert(s[j - 1] == '0');
        }
        assert(s.subrange(0, s.len() as int) =~= s);
    }
}

// ---------------------------------------------------------------------------
// Facts about canonical float text.
// ---------------------------------------------------------------------------

proof fn lemma_strip_front_props(s: Seq<char>)
    ensures
        strip_zeros_front(s).len() > 0 ==> strip_zeros_front(s)[0] != '0',
        all_digits(s) ==> all_digits(strip_zeros_front(s)),
    decreases s.len(),
{
    if s.len() > 0 && s[0] == '0' {
        assert(all_digits(s) ==> all_digits(s.drop_first())) by {
            if all_digits(s) {
                assert(forall|k: int|
                    0 <= k < s.drop_first().len() ==> s.drop_first()[k] == s[k + 1]);
            }
        }
        lemma_strip_front_props(s.drop_first());
    }
}

proof fn lemma_strip_back_props(s: Seq<char>)
    ensures
        strip_zeros_back(s).len() > 0 ==> strip_zeros_back(s).last() != '0',
        all_digits(s) ==> all_digits(strip_zeros_back(s)),
    decreases s.len(),
{
    if s.len() > 0 && s.last() == '0' {
        assert(all_digits(s) ==> all_digits(s.drop_last()));
        lemma_strip_back_props(s.drop_last());
    }
}

proof fn lemma_strip_front_fix(s: Seq<char>)
    requires
        all_digits(s),
    ensures
        or_zero(strip_zeros_front(or_zero(strip_zeros_front(s)))) == or_zero(
            strip_zeros_front(s),
        ),
        all_digits(or_zero(strip_zeros_front(s))),
        or_zero(strip_zeros_front(s)).len() > 0,
{
    lemma_strip_front_props(s);
    let u = strip_zeros_front(s);
    if u.len() == 0 {
        reveal_with_fuel(strip_zeros_front, 3);
        assert(or_zero(u) =~= seq!['0']);
        assert(seq!['0'].drop_first() =~= Seq::<char>::empty());
        assert(strip_zeros_front(seq!['0']) =~= Seq::<char>::empty());
    } else {
        assert(strip_zeros_front(u) == u);
    }
}

proof fn lemma_strip_back_fix(s: Seq<char>)
    requires
        all_digits(s),
    ensures
        or_zero(strip_zeros_back(or_zero(strip_zeros_back(s)))) == or_zero(strip_zeros_back(s)),
        all_digits(or_zero(strip_zeros_back(s))),
        or_zero(strip_zeros_back(s)).len() > 0,
{
    lemma_strip_back_props(s);
    let u = strip_zeros_back(s);
    if u.len() == 0 {
        reveal_with_fuel(strip_zeros_back, 3);
        assert(or_zero(u) =~= seq!['0']);
        assert(seq!['0'].drop_last() =~= Seq::<char>::empty());
        assert(strip_zeros_back(seq!['0']) =~= Seq::<char>::empty());
    } else {
        assert(strip_zeros_back(u) == u);
    }
}

proof fn lemma_first_idx_concat(p: Seq<char>, q: Seq<char>, ch: char)
    requires
        forall|i: int| 0 <= i < p.len() ==> p[i] != ch,
        q.len() > 0,
        q[0] == ch,
    ensures
        first_idx_of(p + q, ch) == Some(p.len() as int),
    decreases p.len(),
{
    if p.len() == 0 {
        assert(p + q =~= q);
    } else {
        assert((p + q)[0] == p[0]);
        lemma_first_idx_concat(p.drop_first(), q, ch);
        assert(p.drop_first() + q =~= (p + q).drop_first());
    }
}

/// The canonical text of a dotted, exponent-free float token: digits
/// around a single dot with at most a minus sign, itself canonical, inside
/// the float grammar, and inert under trimming and case folding.
pub proof fn lemma_canon_float_props(t: Seq<char>)
    requires
        contains_char(t, '.'),
        is_float_text(t),
        !contains_char(t, 'e'),
    ensures
        ({
            let c = canon_float(t);
            &&& c.len() > 0
            &&& contains_char(c, '.')
            &&& !contains_char(c, 'e')
            &&& is_float_text(c)
            &&& canon_float(c) == c
            &&& !crate::chars::is_space_char(c[0])
            &&& !crate::chars::is_space_char(c.last())
            &&& forall|i: int| 0 <= i < c.len() ==> crate::chars::lower_char(c[i]) == c[i]
        }),
{
    let neg = t.len() > 0 && t[0] == '-';
    let b = strip_sign(t);
    assert(contains_char(b, '.')) by {
        let i = choose|i: int| 0 <= i < t.len() && t[i] == '.';
        if t.len() > 0 && (t[0] == '+' || t[0] == '-') {
            assert(i >= 1);
            assert(b[i - 1] == '.');
        } else {
            assert(b[i] == '.');
        }
    }
    assert(first_idx_of(b, 'e') is None) by {
        lemma_contains_first_idx(b, 'e');
        if contains_char(b, 'e') {
            let i = choose|i: int| 0 <= i < b.len() && b[i] == 'e';
            if t.len() > 0 && (t[0] == '+' || t[0] == '-') {
                assert(t[i + 1] == 'e');
            } else {
                assert(t[i] == 'e');
            }
        }
    }
    assert(b != seq!['i', 'n', 'f'] && b != seq!['i', 'n', 'f', 'i', 'n', 'i', 't', 'y'] && b
        != seq!['n', 'a', 'n']) by {
        let i = choose|i: int| 0 <= i < b.len() && b[i] == '.';
        if b == seq!['i', 'n', 'f'] || b == seq!['i', 'n', 'f', 'i', 'n', 'i', 't', 'y'] || b
            == seq!['n', 'a', 'n'] {
            assert(b[i] == '.');
        }
    }
    assert(is_mantissa(b));
    lemma_contains_first_idx(b, '.');
    let k = first_idx_of(b, '.')->Some_0;
    lemma_first_idx_of_pub(b, '.');
    let ipd = b.subrange(0, k);
    let fpd = b.subrange(k + 1, b.len() as int);
    assert(all_digits(ipd) && all_digits(fpd));
    lemma_strip_front_fix(ipd);
    lemma_strip_back_fix(fpd);
    let ip = or_zero(strip_zeros_front(ipd));
    let fp = or_zero(strip_zeros_back(fpd));
    let sgn: Seq<char> = if neg {
        seq!['-']
    } else {
        Seq::<char>::empty()
    };
    assert(!contains_char(t, 'e'));
    let c = canon_float(t);
    assert(c == sgn + ip + seq!['.'] + fp);
    let bc = ip + seq!['.'] + fp;
    assert(c.len() > 0);
    assert(c[c.len() - 1] == fp.last());
    assert(crate::chars::is_digit_char(fp.last()));
    assert(contains_char(c, '.')) by {
        assert(c[sgn.len() as int + ip.len() as int] == '.');
    }
    assert(!contains_char(c, 'e')) by {
        if contains_char(c, 'e') {
            let i = choose|i: int| 0 <= i < c.len() && c[i] == 'e';
            if i < sgn.len() {
                assert(c[i] == '-');
            } else if i < sgn.len() + ip.len() {
                assert(crate::chars::is_digit_char(ip[i - sgn.len()]));
            } else if i == sgn.len() + ip.len() {
                assert(c[i] == '.');
            } else {
                assert(crate::chars::is_digit_char(fp[i - sgn.len() - ip.len() - 1]));
            }
        }
    }
    assert forall|i: int| 0 <= i < c.len() implies crate::chars::lower_char(c[i]) == c[i] by {
        if i < sgn.len() {
            assert(c[i] == '-');
        } else if i < sgn.len() + ip.len() {
            assert(crate::chars::is_digit_char(ip[i - sgn.len()]));
        } else if i == sgn.len() + ip.len() {
            assert(c[i] == '.');
        } else {
            assert(crate::chars::is_digit_char(fp[i - sgn.len() - ip.len() - 1]));
        }
    }
    assert(!crate::chars::is_space_char(c[0])) by {
        if neg {
            assert(c[0] == '-');
        } else {
            assert(c[0] == ip[0]);
            assert(crate::chars::is_digit_char(ip[0]));
        }
    }
    // the canonical text re-canonicalises to itself
    assert(strip_sign(c) =~= bc) by {
        if neg {
            assert(c[0] == '-');
            assert(c.subrange(1, c.len() as int) =~= bc);
        } else {
            assert(c[0] == ip[0]);
            assert(crate::chars::is_digit_char(c[0]));
        }
    }
    lemma_first_idx_concat(ip, seq!['.'] + fp, '.');
    assert(ip + (seq!['.'] + fp) =~= bc);
    assert(first_idx_of(bc, '.') == Some(ip.len() as int));
    assert(bc.subrange(0, ip.len() as int) =~= ip);
    assert(bc.subrange(ip.len() as int + 1, bc.len() as int) =~= fp);
    assert(is_float_text(c)) by {
        lemma_contains_first_idx(bc, 'e');
        if contains_char(bc, 'e') {
            let i = choose|i: int| 0 <= i < bc.len() && bc[i] == 'e';
            assert(c[sgn.len() as int + i] == 'e');
        }
        assert(first_idx_of(bc, 'e') is None);
        assert(is_mantissa(bc)) by {
            assert(bc[ip.len() as int] == '.');
            assert(contains_char(bc, '.'));
            assert(bc.len() > 1);
        }
    }
    assert(canon_float(c) == c) by {
        let negc = c.len() > 0 && c[0] == '-';
        assert(negc == neg);
        let ipc = or_zero(strip_zeros_front(bc.subrange(0, ip.len() as int)));
        let fpc = or_zero(strip_zeros_back(bc.subrange(ip.len() as int + 1, bc.len() as int)));
        assert(ipc == or_zero(strip_zeros_front(ip)));
        assert(fpc == or_zero(strip_zeros_back(fp)));
        assert(ipc == ip);
        assert(fpc == fp);
        assert(canon_float(c) =~= c);
    }
}

/// The first-occurrence facts of `first_idx_of`, for use beside the
/// canonical-text facts.
pub proof fn lemma_first_idx_of_pub(s: Seq<char>, c: char)
    ensures
        match first_idx_of(s, c) {
            Some(i) => 0 <= i < s.len() && s[i] == c && forall|k: int| 0 <= k < i ==> s[k] != c,
            None => forall|k: int| 0 <= k < s.len() ==> s[k] != c,
        },
{
    lemma_first_idx_of(s, c);
}

} // verus!
