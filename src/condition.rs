//! Test expressions of `if` and `when`: conjunctions of `key op value`.
use vstd::prelude::*;
use crate::text::{chars_of, chars_eq, sub_chars, trim_chars, string_of, trim};
use crate::value::Value;
use crate::params::{Env, Params, Scope, param_of};

verus! {

/// One conjunct of a test: `key op value`.
#[derive(Debug)]
pub struct KeyValue {
    pub key: String,
    pub condition: String,
    pub value: String,
}

/// The pattern one conjunct must match: key, operator, value.
pub const CONDITION_PATTERN: &'static str = r"^\s*([\w\.\(\)]+)\s*([!=<>]+)\s*(.+?)\s*$";

/// What `regex::Regex::new(pattern)` and then `captures(s)` give: the first
/// three groups of the first match, or nothing when the pattern does not
/// compile, does not match, or one of those groups takes no part.
pub uninterp spec fn regex_captures3(pattern: Seq<char>, s: Seq<char>) -> Option<
    (Seq<char>, Seq<char>, Seq<char>),
>;

/// The key, operator and value that the conjunct pattern captures in `s`.
pub open spec fn conjunct_captures(s: Seq<char>) -> Option<(Seq<char>, Seq<char>, Seq<char>)> {
    regex_captures3(CONDITION_PATTERN@, s)
}

/// Relies on `regex::Regex::new` and `Regex::captures`: the first three groups
/// of the first match of `pattern` in `s`, which depend on the two texts alone.
#[verifier::external_body]
fn capture3(pattern: &str, s: &str) -> (r: Option<(String, String, String)>)
    ensures
        match r {
            Some(t) => regex_captures3(pattern@, s@) == Some((t.0@, t.1@, t.2@)),
            None => regex_captures3(pattern@, s@) is None,
        },
{
    let re = regex::Regex::new(pattern).ok()?;
    let caps = re.captures(s)?;
    Some((
        caps.get(1)?.as_str().to_string(),
        caps.get(2)?.as_str().to_string(),
        caps.get(3)?.as_str().to_string(),
    ))
}

pub open spec fn is_digit(c: char) -> bool {
    '0' <= c && c <= '9'
}

pub open spec fn digits_value(s: Seq<char>) -> int
    decreases s.len(),
{
    if s.len() == 0 {
        0
    } else {
        digits_value(s.drop_last()) * 10 + (s.last() as int - '0' as int)
    }
}

/// The integer that a sign (`+` or `-`, optional) and one or more ASCII digits spell.
pub open spec fn decimal_value(s: Seq<char>) -> Option<int> {
    let neg = s.len() > 0 && s[0] == '-';
    let body = if s.len() > 0 && (s[0] == '-' || s[0] == '+') {
        s.drop_first()
    } else {
        s
    };
    if body.len() > 0 && (forall|i: int| 0 <= i < body.len() ==> is_digit(#[trigger] body[i])) {
        Some(
            if neg {
                -digits_value(body)
            } else {
                digits_value(body)
            },
        )
    } else {
        None
    }
}

/// The `i64` that `s` spells, when it spells one in range.
pub open spec fn i64_of(s: Seq<char>) -> Option<int> {
    match decimal_value(s) {
        Some(n) => if i64::MIN <= n <= i64::MAX {
            Some(n)
        } else {
            None
        },
        None => None,
    }
}

/// Relies on `str::parse::<i64>`: an optional sign and ASCII digits, in range.
#[verifier::external_body]
fn parse_i64(s: &str) -> (r: Option<i64>)
    ensures
        match r {
            Some(n) => i64_of(s@) == Some(n as int),
            None => i64_of(s@) is None,
        },
{
    s.parse::<i64>().ok()
}

/// The positions at and after `from` where `p` occurs in `s`: the first one,
/// or `s.len()`.
pub open spec fn find_from(s: Seq<char>, p: Seq<char>, from: int) -> int
    decreases s.len() - from,
{
    if from < 0 || p.len() == 0 || from + p.len() > s.len() {
        s.len() as int
    } else if s.subrange(from, from + p.len()) == p {
        from
    } else {
        find_from(s, p, from + 1)
    }
}

/// The pieces of `s[from..]` between the occurrences of `p`, left to right.
pub open spec fn split_from(s: Seq<char>, p: Seq<char>, from: int) -> Seq<Seq<char>>
    decreases s.len() - from,
{
    let i = find_from(s, p, from);
    if p.len() == 0 || from < 0 || from > s.len() || i + p.len() > s.len() || i < from {
        seq![s.subrange(from, s.len() as int)]
    } else {
        seq![s.subrange(from, i)] + split_from(s, p, i + p.len())
    }
}

pub open spec fn and_sep() -> Seq<char> {
    seq![' ', 'a', 'n', 'd', ' ']
}

/// The trimmed conjuncts of a test.
pub open spec fn conjuncts(expr: Seq<char>) -> Seq<Seq<char>> {
    split_from(expr, and_sep(), 0).map_values(|c: Seq<char>| trim(c))
}

/// The captures of every conjunct, when every one matches.
pub open spec fn parsed_conditions(expr: Seq<char>) -> Option<Seq<(Seq<char>, Seq<char>, Seq<char>)>> {
    let cs = conjuncts(expr);
    if forall|i: int| 0 <= i < cs.len() ==> (#[trigger] conjunct_captures(cs[i])) is Some {
        Some(cs.map_values(|c: Seq<char>| conjunct_captures(c)->0))
    } else {
        None
    }
}

proof fn lemma_find_from_bounds(s: Seq<char>, p: Seq<char>, from: int)
    ensures
        find_from(s, p, from) == s.len() || (from <= find_from(s, p, from) && find_from(s, p, from)
            + p.len() <= s.len()),
    decreases s.len() - from,
{
    if !(from < 0 || p.len() == 0 || from + p.len() > s.len()) && s.subrange(from, from + p.len())
        != p {
        lemma_find_from_bounds(s, p, from + 1);
    }
}

fn find_sep(s: &Vec<char>, p: &Vec<char>, from: usize) -> (r: usize)
    requires
        from <= s.len(),
        p.len() > 0,
    ensures
        r as int == find_from(s@, p@, from as int),
{
    let mut i = from;
    while i < s.len() && p.len() <= s.len() - i
        invariant
            from <= i <= s.len(),
            p.len() > 0,
            find_from(s@, p@, from as int) == find_from(s@, p@, i as int),
        decreases s.len() - i,
    {
        let w = sub_chars(s, i, i + p.len());
        if chars_eq(&w, p) {
            return i;
        }
        i = i + 1;
    }
    s.len()
}

/// The pieces of `s` between the occurrences of `p`.
pub fn split_on(s: &Vec<char>, p: &Vec<char>) -> (r: Vec<Vec<char>>)
    requires
        p.len() > 0,
    ensures
        r@.map_values(|v: Vec<char>| v@) == split_from(s@, p@, 0),
{
    let mut out: Vec<Vec<char>> = Vec::new();
    let mut start: usize = 0;
    loop
        invariant
            p.len() > 0,
            start <= s.len(),
            out@.map_values(|v: Vec<char>| v@) + split_from(s@, p@, start as int) == split_from(
                s@,
                p@,
                0,
            ),
        decreases s.len() - start,
    {
        let i = find_sep(s, p, start);
        proof {
            lemma_find_from_bounds(s@, p@, start as int);
        }
        let piece = sub_chars(s, start, if i < s.len() { i } else { s.len() });
        let ghost before = out@.map_values(|v: Vec<char>| v@);
        out.push(piece);
        assert(out@.map_values(|v: Vec<char>| v@) =~= before.push(piece@));
        if i >= s.len() {
            assert(find_from(s@, p@, start as int) + p.len() > s.len());
            assert(split_from(s@, p@, start as int) =~= seq![piece@]);
            assert(out@.map_values(|v: Vec<char>| v@) =~= before + seq![piece@]);
            return out;
        }
        assert(split_from(s@, p@, start as int) =~= seq![piece@] + split_from(
            s@,
            p@,
            i + p.len(),
        ));
        assert(before.push(piece@) + split_from(s@, p@, i + p.len()) =~= before + (seq![piece@]
            + split_from(s@, p@, i + p.len())));
        start = i + p.len();
    }
}

impl KeyValue {
    /// Parses a test into its conjuncts; fails when one of them does not match
    /// the conjunct pattern.
    pub fn parse_conditions(expr: &str) -> (r: Result<Vec<KeyValue>, String>)
        ensures
            match r {
                Ok(v) => parsed_conditions(expr@) is Some && v@.map_values(
                    |k: KeyValue| (k.key@, k.condition@, k.value@),
                ) == parsed_conditions(expr@)->0,
                Err(_) => parsed_conditions(expr@) is None,
            },
    {
        let e = chars_of(expr);
        let sep = vec![' ', 'a', 'n', 'd', ' '];
        assert(sep@ =~= and_sep());
        let pieces = split_on(&e, &sep);
        let ghost cs = conjuncts(expr@);
        assert(cs =~= pieces@.map_values(|v: Vec<char>| v@).map_values(|c: Seq<char>| trim(c)));
        let mut out: Vec<KeyValue> = Vec::new();
        let mut i: usize = 0;
        while i < pieces.len()
            invariant
                i <= pieces.len(),
                cs.len() == pieces.len(),
                cs == conjuncts(expr@),
                forall|k: int| 0 <= k < pieces.len() ==> #[trigger] cs[k] == trim(pieces@[k]@),
                out.len() == i,
                forall|k: int|
                    0 <= k < i ==> conjunct_captures(#[trigger] cs[k]) == Some(
                        (out@[k].key@, out@[k].condition@, out@[k].value@),
                    ),
            decreases pieces.len() - i,
        {
            let t = trim_chars(&pieces[i]);
            let ts = string_of(&t);
            match capture3(CONDITION_PATTERN, ts.as_str()) {
                Some((k, c, v)) => {
                    out.push(KeyValue { key: k, condition: c, value: v });
                },
                None => {
                    assert(conjunct_captures(cs[i as int]) is None);
                    return Err(ts);
                },
            }
            i = i + 1;
        }
        assert(out@.map_values(|k: KeyValue| (k.key@, k.condition@, k.value@)) =~= cs.map_values(
            |c: Seq<char>| conjunct_captures(c)->0,
        ));
        Ok(out)
    }
}

pub open spec fn null_lit() -> Seq<char> {
    seq!['n', 'u', 'l', 'l']
}

/// A value literal in single quotes (a lone quote counts).
pub open spec fn is_quoted(v: Seq<char>) -> bool {
    v.len() >= 1 && v[0] == '\'' && v.last() == '\''
}

pub open spec fn strip_quotes_start(s: Seq<char>) -> Seq<char>
    decreases s.len(),
{
    if s.len() > 0 && s[0] == '\'' {
        strip_quotes_start(s.drop_first())
    } else {
        s
    }
}

pub open spec fn strip_quotes_end(s: Seq<char>) -> Seq<char>
    decreases s.len(),
{
    if s.len() > 0 && s.last() == '\'' {
        strip_quotes_end(s.drop_last())
    } else {
        s
    }
}

/// A quoted literal without the quotes at either end.
pub open spec fn unquoted(v: Seq<char>) -> Seq<char> {
    strip_quotes_end(strip_quotes_start(v))
}

pub open spec fn op_eq(op: Seq<char>) -> bool {
    op == seq!['='] || op == seq!['=', '=']
}

pub open spec fn op_ne(op: Seq<char>) -> bool {
    op == seq!['!', '=']
}

/// `a op b` for the ordering operators; false for any other operator.
pub open spec fn compare(op: Seq<char>, a: int, b: int) -> bool {
    if op == seq!['<'] {
        a < b
    } else if op == seq!['>'] {
        a > b
    } else if op == seq!['<', '='] {
        a <= b
    } else if op == seq!['>', '='] {
        a >= b
    } else {
        false
    }
}

/// Whether one conjunct `key op value` holds in `env`. A missing parameter
/// counts as null: `= null` holds of it, `!= null` does not, and `!=` a string
/// or integer literal does.
pub open spec fn conjunct_holds(c: (Seq<char>, Seq<char>, Seq<char>), env: Env) -> bool {
    let (key, op, value) = c;
    match param_of(env, key) {
        Some(v) => if op_eq(op) {
            if value == null_lit() {
                false
            } else if is_quoted(value) {
                match v {
                    Value::Str(s) => s@ == unquoted(value),
                    _ => false,
                }
            } else {
                match (i64_of(value), v) {
                    (Some(n), Value::Int(i)) => i as int == n,
                    _ => false,
                }
            }
        } else if op_ne(op) {
            if value == null_lit() {
                true
            } else if is_quoted(value) {
                match v {
                    Value::Str(s) => s@ != unquoted(value),
                    _ => true,
                }
            } else {
                match (i64_of(value), v) {
                    (Some(n), Value::Int(i)) => i as int != n,
                    _ => true,
                }
            }
        } else {
            match (i64_of(value), v) {
                (Some(n), Value::Int(i)) => compare(op, i as int, n),
                _ => false,
            }
        },
        None => if op_eq(op) {
            value == null_lit()
        } else if op_ne(op) {
            value != null_lit() && (is_quoted(value) || i64_of(value) is Some)
        } else {
            false
        },
    }
}

/// Whether a test holds: it parses, and every conjunct holds. A test that
/// does not parse is false.
pub open spec fn condition_holds(expr: Seq<char>, env: Env) -> bool {
    match parsed_conditions(expr) {
        Some(cs) => all_hold(cs, env),
        None => false,
    }
}

pub open spec fn all_hold(cs: Seq<(Seq<char>, Seq<char>, Seq<char>)>, env: Env) -> bool {
    forall|i: int| 0 <= i < cs.len() ==> conjunct_holds(#[trigger] cs[i], env)
}

fn unquote(v: &Vec<char>) -> (r: Vec<char>)
    ensures
        r@ == unquoted(v@),
{
    let mut a: usize = 0;
    assert(v@.subrange(0, v.len() as int) =~= v@);
    while a < v.len() && v[a] == '\''
        invariant
            a <= v.len(),
            strip_quotes_start(v@) == strip_quotes_start(v@.subrange(a as int, v.len() as int)),
        decreases v.len() - a,
    {
        assert(v@.subrange(a as int, v.len() as int).drop_first() =~= v@.subrange(
            a + 1,
            v.len() as int,
        ));
        a = a + 1;
    }
    let mid = sub_chars(v, a, v.len());
    proof {
        assert(v@.subrange(0, v.len() as int) =~= v@);
    }
    let mut b: usize = mid.len();
    assert(mid@.subrange(0, b as int) =~= mid@);
    while b > 0 && mid[b - 1] == '\''
        invariant
            b <= mid.len(),
            strip_quotes_end(mid@) == strip_quotes_end(mid@.subrange(0, b as int)),
        decreases b,
    {
        assert(mid@.subrange(0, b as int).drop_last() =~= mid@.subrange(0, b - 1));
        b = b - 1;
    }
    sub_chars(&mid, 0, b)
}

/// Whether `kv` holds in `scope` (see `conjunct_holds`).
pub fn evaluate_conjunct(kv: &KeyValue, scope: &Scope) -> (r: bool)
    ensures
        r == conjunct_holds((kv.key@, kv.condition@, kv.value@), scope@),
{
    let key = chars_of(kv.key.as_str());
    let op = chars_of(kv.condition.as_str());
    let value = chars_of(kv.value.as_str());
    let l_eq = vec!['='];
    let l_eq2 = vec!['=', '='];
    let l_ne = vec!['!', '='];
    let l_null = vec!['n', 'u', 'l', 'l'];
    let l_lt = vec!['<'];
    let l_gt = vec!['>'];
    let l_le = vec!['<', '='];
    let l_ge = vec!['>', '='];
    assert(l_eq@ =~= seq!['=']);
    assert(l_eq2@ =~= seq!['=', '=']);
    assert(l_ne@ =~= seq!['!', '=']);
    assert(l_null@ =~= null_lit());
    assert(l_lt@ =~= seq!['<']);
    assert(l_gt@ =~= seq!['>']);
    assert(l_le@ =~= seq!['<', '=']);
    assert(l_ge@ =~= seq!['>', '=']);
    let is_eq = chars_eq(&op, &l_eq) || chars_eq(&op, &l_eq2);
    let is_ne = chars_eq(&op, &l_ne);
    let is_null = chars_eq(&value, &l_null);
    let quoted = value.len() >= 1 && value[0] == '\'' && value[value.len() - 1] == '\'';
    let num = parse_i64(kv.value.as_str());
    match scope.get_param(&key) {
        Some(v) => {
            if is_eq {
                if is_null {
                    false
                } else if quoted {
                    match v {
                        Value::Str(s) => {
                            let sv = chars_of(s.as_str());
                            let u = unquote(&value);
                            chars_eq(&sv, &u)
                        },
                        _ => false,
                    }
                } else {
                    match (num, v) {
                        (Some(n), Value::Int(i)) => *i == n,
                        _ => false,
                    }
                }
            } else if is_ne {
                if is_null {
                    true
                } else if quoted {
                    match v {
                        Value::Str(s) => {
                            let sv = chars_of(s.as_str());
                            let u = unquote(&value);
                            !chars_eq(&sv, &u)
                        },
                        _ => true,
                    }
                } else {
                    match (num, v) {
                        (Some(n), Value::Int(i)) => *i != n,
                        _ => true,
                    }
                }
            } else {
                match (num, v) {
                    (Some(n), Value::Int(i)) => {
                        if chars_eq(&op, &l_lt) {
                            *i < n
                        } else if chars_eq(&op, &l_gt) {
                            *i > n
                        } else if chars_eq(&op, &l_le) {
                            *i <= n
                        } else if chars_eq(&op, &l_ge) {
                            *i >= n
                        } else {
                            false
                        }
                    },
                    _ => false,
                }
            }
        },
        None => {
            if is_eq {
                is_null
            } else if is_ne {
                !is_null && (quoted || num.is_some())
            } else {
                false
            }
        },
    }
}

/// Whether a test holds in `scope` (see `condition_holds`).
pub fn evaluate_in_scope(condition: &str, scope: &Scope) -> (r: bool)
    ensures
        r == condition_holds(condition@, scope@),
{
    match KeyValue::parse_conditions(condition) {
        Ok(kvs) => {
            let ghost cs = parsed_conditions(condition@)->0;
            assert forall|k: int| 0 <= k < kvs.len() implies #[trigger] cs[k] == (
                kvs@[k].key@,
                kvs@[k].condition@,
                kvs@[k].value@,
            ) by {
                assert(kvs@.map_values(|k: KeyValue| (k.key@, k.condition@, k.value@))[k] == cs[k]);
            }
            let mut i: usize = 0;
            while i < kvs.len()
                invariant
                    i <= kvs.len(),
                    cs.len() == kvs.len(),
                    parsed_conditions(condition@) == Some(cs),
                    forall|k: int| 0 <= k < kvs.len() ==> #[trigger] cs[k] == (kvs@[k].key@, kvs@[k].condition@, kvs@[k].value@),
                    forall|k: int| 0 <= k < i ==> conjunct_holds(#[trigger] cs[k], scope@),
                decreases kvs.len() - i,
            {
                if !evaluate_conjunct(&kvs[i], scope) {
                    assert(!conjunct_holds(cs[i as int], scope@));
                    return false;
                }
                i = i + 1;
            }
            true
        },
        Err(_) => false,
    }
}

/// Whether a test holds in `params`.
pub fn evaluate_condition(condition: &str, params: &Params) -> (r: bool)
    ensures
        r == condition_holds(condition@, params@),
{
    let scope = Scope::of_params(params);
    evaluate_in_scope(condition, &scope)
}

} // verus!
