//! Evaluation of a dynamic SQL tree against a parameter environment.
use vstd::prelude::*;
use crate::text::{
    trim, trim_start, trim_end, starts_with, ends_with, unbreak, is_blank, chars_of, sub_chars,
    trim_chars, trim_start_chars, trim_end_chars, chars_starts_with, chars_ends_with, extend_chars,
    unbreak_chars, blank, string_of,
};
use crate::value::{Value, raw_text, quoted_text, render_value};
use crate::params::{
    Env, Params, Scope, index_of, param_of, collection_of, child_env, find_char_from, opt_str,
};
use crate::condition::{condition_holds, split_from, evaluate_in_scope, split_on};
use crate::model::{DynamicSqlNode, Mapper, fragment_of};

verus! {

/// What a placeholder opened by `opener` (`$` or `#`) turns into.
pub open spec fn placeholder_text(opener: char, v: Option<Value>) -> Seq<char> {
    if opener == '#' {
        quoted_text(v)
    } else {
        raw_text(v)
    }
}

/// Replaces each `<opener>{key}` of `s`, left to right and without overlap,
/// by the text of the value `key` names; `key` runs to the first `}`.
pub open spec fn subst(s: Seq<char>, opener: char, env: Env) -> Seq<char>
    decreases s.len(),
{
    if s.len() < 2 {
        s
    } else {
        let d = index_of(s.subrange(2, s.len() as int), '}');
        if s[0] == opener && s[1] == '{' && 0 <= d < s.len() - 2 {
            placeholder_text(opener, param_of(env, s.subrange(2, 2 + d))) + subst(
                s.subrange(3 + d, s.len() as int),
                opener,
                env,
            )
        } else {
            seq![s[0]] + subst(s.drop_first(), opener, env)
        }
    }
}

/// A text node's output: `${..}` first, then `#{..}` in what that gave.
pub open spec fn text_output(s: Seq<char>, env: Env) -> Seq<char> {
    subst(subst(s, '$', env), '#', env)
}

/// `s` with the first of `toks` that it starts with removed, and the
/// whitespace after it.
pub open spec fn strip_prefix_tokens(s: Seq<char>, toks: Seq<Seq<char>>) -> Seq<char>
    decreases toks.len(),
{
    if toks.len() == 0 {
        s
    } else if starts_with(s, toks[0]) {
        trim_start(s.subrange(toks[0].len() as int, s.len() as int))
    } else {
        strip_prefix_tokens(s, toks.drop_first())
    }
}

/// `s` with the first of `toks` that it ends with removed, and the
/// whitespace before it.
pub open spec fn strip_suffix_tokens(s: Seq<char>, toks: Seq<Seq<char>>) -> Seq<char>
    decreases toks.len(),
{
    if toks.len() == 0 {
        s
    } else if ends_with(s, toks[0]) {
        trim_end(s.subrange(0, s.len() - toks[0].len()))
    } else {
        strip_suffix_tokens(s, toks.drop_first())
    }
}

/// An override list: its pieces between `sep`, each trimmed.
pub open spec fn override_tokens(o: Seq<char>, sep: char) -> Seq<Seq<char>> {
    split_from(o, seq![sep], 0).map_values(|t: Seq<char>| trim(t))
}

/// One space between the two when neither is empty.
pub open spec fn space_between(a: Seq<char>, b: Seq<char>) -> Seq<char> {
    if a.len() > 0 && b.len() > 0 {
        seq![' ']
    } else {
        Seq::empty()
    }
}

/// The output of a `trim` whose body gave `body`: each list of overrides is
/// matched against the text with its surrounding whitespace trimmed.
pub open spec fn trim_output(
    body: Seq<char>,
    prefix: Option<Seq<char>>,
    prefix_overrides: Option<Seq<char>>,
    suffix: Option<Seq<char>>,
    suffix_overrides: Option<Seq<char>>,
) -> Seq<char> {
    let s1 = match prefix_overrides {
        Some(o) => strip_prefix_tokens(trim(body), override_tokens(o, ',')),
        None => body,
    };
    let s2 = match suffix_overrides {
        Some(o) => strip_suffix_tokens(trim(s1), override_tokens(o, ',')),
        None => s1,
    };
    let s3 = match prefix {
        Some(p) => if s2.len() > 0 {
            trim_end(p) + space_between(trim_end(p), trim_start(s2)) + trim_start(s2)
        } else {
            s2
        },
        None => s2,
    };
    match suffix {
        Some(x) => if s3.len() > 0 {
            trim_end(s3) + space_between(trim_end(s3), trim_start(x)) + trim_start(x)
        } else {
            s3
        },
        None => s3,
    }
}

pub open spec fn and_token() -> Seq<char> {
    seq!['A', 'N', 'D', ' ']
}

pub open spec fn or_token() -> Seq<char> {
    seq!['O', 'R', ' ']
}

pub open spec fn where_keyword() -> Seq<char> {
    seq!['W', 'H', 'E', 'R', 'E', ' ']
}

pub open spec fn set_keyword() -> Seq<char> {
    seq!['S', 'E', 'T', ' ']
}

/// The output of a `where` whose body gave `body`, trimmed: a leading `AND ` or `OR `
/// (or one of the given `|`-separated overrides) is dropped, and what is left,
/// if anything, follows `WHERE `.
pub open spec fn where_output(
    body: Seq<char>,
    prefix_overrides: Option<Seq<char>>,
    suffix_overrides: Option<Seq<char>>,
) -> Seq<char> {
    let toks = match prefix_overrides {
        Some(o) => override_tokens(o, '|'),
        None => seq![and_token(), or_token()],
    };
    let s1 = strip_prefix_tokens(trim(body), toks);
    let s2 = match suffix_overrides {
        Some(o) => strip_suffix_tokens(s1, override_tokens(o, ',')),
        None => s1,
    };
    if s2.len() > 0 {
        where_keyword() + trim_start(s2)
    } else {
        Seq::empty()
    }
}

/// The output of a `set` whose body gave `body`, trimmed: a trailing `,` (or one of
/// the given `|`-separated overrides) is dropped, and what is left, if
/// anything, follows `SET `.
pub open spec fn set_output(
    body: Seq<char>,
    prefix_overrides: Option<Seq<char>>,
    suffix_overrides: Option<Seq<char>>,
) -> Seq<char> {
    let s1 = match prefix_overrides {
        Some(o) => strip_prefix_tokens(trim(body), override_tokens(o, '|')),
        None => trim(body),
    };
    let toks = match suffix_overrides {
        Some(o) => override_tokens(o, '|'),
        None => seq![seq![',']],
    };
    let s2 = strip_suffix_tokens(s1, toks);
    if s2.len() > 0 {
        set_keyword() + trim_start(s2)
    } else {
        Seq::empty()
    }
}

pub open spec fn opt_view(o: Option<String>) -> Option<Seq<char>> {
    match o {
        Some(s) => Some(s@),
        None => None,
    }
}

/// The sequence a `foreach` runs over: a collection bound to the key, else an
/// array that the (possibly dotted) key names.
pub open spec fn items_of(env: Env, key: Seq<char>) -> Option<Seq<Value>> {
    match collection_of(env, key) {
        Some(s) => Some(s),
        None => match param_of(env, key) {
            Some(Value::Array(a)) => Some(a@),
            _ => None,
        },
    }
}

/// Orders a `choose` above the walk over its branches.
pub open spec fn node_rank(n: DynamicSqlNode) -> nat {
    match n {
        DynamicSqlNode::Choose { whens, otherwise: _ } => (whens.len() + 1) as nat,
        _ => 0,
    }
}

/// The output of one node. `fuel` bounds how deep includes nest: past it an
/// include gives nothing, which only a cycle of fragments can reach.
pub open spec fn node_output(n: DynamicSqlNode, env: Env, m: Mapper, fuel: nat) -> Seq<char>
    decreases fuel, n, node_rank(n),
{
    match n {
        DynamicSqlNode::Text(c) => text_output(c@, env),
        DynamicSqlNode::If { test, contents } => if condition_holds(test@, env) {
            body_output(contents@, env, m, fuel)
        } else {
            Seq::empty()
        },
        DynamicSqlNode::Choose { whens: _, otherwise: _ } => choose_output(n, env, m, fuel, 0),
        DynamicSqlNode::Foreach { collection, item, index, open, separator, close, contents } => {
            match items_of(env, collection@) {
                Some(items) => if items.len() == 0 {
                    Seq::empty()
                } else {
                    open@ + iterations(
                        contents@,
                        env,
                        item@,
                        opt_view(index),
                        items,
                        separator@,
                        m,
                        fuel,
                        items.len(),
                    ) + close@
                },
                None => Seq::empty(),
            }
        },
        DynamicSqlNode::Trim { prefix, prefix_overrides, suffix, suffix_overrides, contents } => {
            trim_output(
                body_output(contents@, env, m, fuel),
                opt_view(prefix),
                opt_view(prefix_overrides),
                opt_view(suffix),
                opt_view(suffix_overrides),
            )
        },
        DynamicSqlNode::Bind { name: _, value: _ } => Seq::empty(),
        DynamicSqlNode::Include { ref_id } => if fuel == 0 {
            Seq::empty()
        } else {
            match fragment_of(m.sql_fragments@, ref_id@) {
                Some(ns) => joined_parts(ns, env, m, (fuel - 1) as nat),
                None => Seq::empty(),
            }
        },
        DynamicSqlNode::Where { prefix_overrides, suffix_overrides, contents } => where_output(
            body_output(contents@, env, m, fuel),
            opt_view(prefix_overrides),
            opt_view(suffix_overrides),
        ),
        DynamicSqlNode::SetClause { prefix_overrides, suffix_overrides, contents } => set_output(
            body_output(contents@, env, m, fuel),
            opt_view(prefix_overrides),
            opt_view(suffix_overrides),
        ),
    }
}

/// The outputs of `s` that are not blank, joined by single spaces.
pub open spec fn joined_parts(s: Seq<DynamicSqlNode>, env: Env, m: Mapper, fuel: nat) -> Seq<char>
    decreases fuel, s, 0nat,
{
    if s.len() == 0 {
        Seq::empty()
    } else {
        let pre = joined_parts(s.drop_last(), env, m, fuel);
        let t = node_output(s.last(), env, m, fuel);
        if is_blank(t) {
            pre
        } else if pre.len() == 0 {
            t
        } else {
            pre + seq![' '] + t
        }
    }
}

/// The output of a body: its non-blank parts joined by single spaces, with
/// `\r` deleted and `\n` made a space; spacing inside the parts is kept.
pub open spec fn body_output(s: Seq<DynamicSqlNode>, env: Env, m: Mapper, fuel: nat) -> Seq<char>
    decreases fuel, s, 1nat,
{
    unbreak(joined_parts(s, env, m, fuel))
}

/// The first `k` iterations of a `foreach`, separated by the separator with
/// a space on each side.
pub open spec fn iterations(
    contents: Seq<DynamicSqlNode>,
    env: Env,
    item: Seq<char>,
    index: Option<Seq<char>>,
    items: Seq<Value>,
    sep: Seq<char>,
    m: Mapper,
    fuel: nat,
    k: nat,
) -> Seq<char>
    decreases fuel, contents, k + 2,
{
    if k == 0 {
        Seq::empty()
    } else {
        let body = body_output(
            contents,
            child_env(env, item, index, items[k - 1], k - 1),
            m,
            fuel,
        );
        if k == 1 {
            body
        } else {
            iterations(contents, env, item, index, items, sep, m, fuel, (k - 1) as nat) + seq![' ']
                + sep + seq![' '] + body
        }
    }
}

/// The output of the `choose` node `n` from its `k`-th branch on: the first
/// branch whose test holds, else the `otherwise` body, else nothing.
pub open spec fn choose_output(n: DynamicSqlNode, env: Env, m: Mapper, fuel: nat, k: nat) -> Seq<
    char,
>
    decreases fuel, n, node_rank(n) - k - 1,
{
    match n {
        DynamicSqlNode::Choose { whens, otherwise } => if k >= whens.len() {
            match otherwise {
                Some(b) => body_output(b@, env, m, fuel),
                None => Seq::empty(),
            }
        } else if condition_holds(whens@[k as int].0@, env) {
            body_output(whens@[k as int].1@, env, m, fuel)
        } else {
            choose_output(n, env, m, fuel, k + 1)
        },
        _ => Seq::empty(),
    }
}

/// Replaces the placeholders opened by `opener` (see `subst`).
pub fn substitute(s: &Vec<char>, opener: char, scope: &Scope) -> (r: Vec<char>)
    ensures
        r@ == subst(s@, opener, scope@),
{
    let mut out: Vec<char> = Vec::new();
    let mut i: usize = 0;
    assert(s@.subrange(0, s.len() as int) =~= s@);
    while i < s.len()
        invariant
            i <= s.len(),
            out@ + subst(s@.subrange(i as int, s.len() as int), opener, scope@) == subst(
                s@,
                opener,
                scope@,
            ),
        decreases s.len() - i,
    {
        let ghost t = s@.subrange(i as int, s.len() as int);
        let ghost pre = out@;
        if s.len() - i >= 2 && s[i] == opener && s[i + 1] == '{' {
            let j = find_char_from(s, '}', i + 2);
            assert(t.subrange(2, t.len() as int) =~= s@.subrange(i + 2, s.len() as int));
            if j < s.len() {
                let key = sub_chars(s, i + 2, j);
                assert(t.subrange(2, 2 + (j - i - 2)) =~= key@);
                assert(t.subrange(3 + (j - i - 2), t.len() as int) =~= s@.subrange(
                    j + 1,
                    s.len() as int,
                ));
                let v = scope.get_param(&key);
                render_value(v, opener == '#', &mut out);
                assert(out@ + subst(s@.subrange(j + 1, s.len() as int), opener, scope@) =~= pre
                    + subst(t, opener, scope@));
                i = j + 1;
                continue;
            }
        }
        out.push(s[i]);
        proof {
            if t.len() >= 2 {
                assert(t.drop_first() =~= s@.subrange(i + 1, s.len() as int));
            } else {
                assert(s@.subrange(i + 1, s.len() as int) =~= Seq::<char>::empty());
                assert(t =~= seq![s@[i as int]]);
            }
            assert(out@ + subst(s@.subrange(i + 1, s.len() as int), opener, scope@) =~= pre + subst(
                t,
                opener,
                scope@,
            ));
        }
        i = i + 1;
    }
    assert(s@.subrange(s.len() as int, s.len() as int) =~= Seq::<char>::empty());
    out
}

/// A text node's output (see `text_output`).
pub fn text_chars(c: &String, scope: &Scope) -> (r: Vec<char>)
    ensures
        r@ == text_output(c@, scope@),
{
    let v = chars_of(c.as_str());
    let a = substitute(&v, '$', scope);
    substitute(&a, '#', scope)
}

/// The pieces of an override list (see `override_tokens`).
fn override_list(o: &String, sep: char) -> (r: Vec<Vec<char>>)
    ensures
        r@.map_values(|t: Vec<char>| t@) == override_tokens(o@, sep),
{
    let ov = chars_of(o.as_str());
    let mut sv: Vec<char> = Vec::new();
    sv.push(sep);
    assert(sv@ =~= seq![sep]);
    let pieces = split_on(&ov, &sv);
    let mut out: Vec<Vec<char>> = Vec::new();
    let mut i: usize = 0;
    while i < pieces.len()
        invariant
            i <= pieces.len(),
            out.len() == i,
            forall|k: int| 0 <= k < i ==> (#[trigger] out@[k])@ == trim(pieces@[k]@),
        decreases pieces.len() - i,
    {
        out.push(trim_chars(&pieces[i]));
        i = i + 1;
    }
    assert(out@.map_values(|t: Vec<char>| t@) =~= pieces@.map_values(|v: Vec<char>| v@).map_values(
        |t: Seq<char>| trim(t),
    ));
    out
}

fn strip_prefix_list(s: Vec<char>, toks: &Vec<Vec<char>>) -> (r: Vec<char>)
    ensures
        r@ == strip_prefix_tokens(s@, toks@.map_values(|t: Vec<char>| t@)),
{
    let ghost tv = toks@.map_values(|t: Vec<char>| t@);
    let mut i: usize = 0;
    assert(tv.subrange(0, tv.len() as int) =~= tv);
    while i < toks.len()
        invariant
            i <= toks.len(),
            tv == toks@.map_values(|t: Vec<char>| t@),
            strip_prefix_tokens(s@, tv) == strip_prefix_tokens(
                s@,
                tv.subrange(i as int, tv.len() as int),
            ),
        decreases toks.len() - i,
    {
        let ghost rest = tv.subrange(i as int, tv.len() as int);
        assert(rest[0] == toks@[i as int]@);
        assert(rest.drop_first() =~= tv.subrange(i + 1, tv.len() as int));
        if chars_starts_with(&s, &toks[i]) {
            let tail = sub_chars(&s, toks[i].len(), s.len());
            return trim_start_chars(&tail);
        }
        i = i + 1;
    }
    assert(tv.subrange(tv.len() as int, tv.len() as int) =~= Seq::<Seq<char>>::empty());
    s
}

fn strip_suffix_list(s: Vec<char>, toks: &Vec<Vec<char>>) -> (r: Vec<char>)
    ensures
        r@ == strip_suffix_tokens(s@, toks@.map_values(|t: Vec<char>| t@)),
{
    let ghost tv = toks@.map_values(|t: Vec<char>| t@);
    let mut i: usize = 0;
    assert(tv.subrange(0, tv.len() as int) =~= tv);
    while i < toks.len()
        invariant
            i <= toks.len(),
            tv == toks@.map_values(|t: Vec<char>| t@),
            strip_suffix_tokens(s@, tv) == strip_suffix_tokens(
                s@,
                tv.subrange(i as int, tv.len() as int),
            ),
        decreases toks.len() - i,
    {
        let ghost rest = tv.subrange(i as int, tv.len() as int);
        assert(rest[0] == toks@[i as int]@);
        assert(rest.drop_first() =~= tv.subrange(i + 1, tv.len() as int));
        if chars_ends_with(&s, &toks[i]) {
            let head = sub_chars(&s, 0, s.len() - toks[i].len());
            return trim_end_chars(&head);
        }
        i = i + 1;
    }
    assert(tv.subrange(tv.len() as int, tv.len() as int) =~= Seq::<Seq<char>>::empty());
    s
}

fn join_spaced(a: &Vec<char>, b: &Vec<char>) -> (r: Vec<char>)
    ensures
        r@ == a@ + space_between(a@, b@) + b@,
{
    let mut r: Vec<char> = Vec::new();
    extend_chars(&mut r, a);
    if a.len() > 0 && b.len() > 0 {
        r.push(' ');
    }
    extend_chars(&mut r, b);
    assert(r@ =~= a@ + space_between(a@, b@) + b@);
    r
}

/// The output of a `trim` node whose body gave `body` (see `trim_output`).
pub fn apply_trim(
    body: Vec<char>,
    prefix: &Option<String>,
    prefix_overrides: &Option<String>,
    suffix: &Option<String>,
    suffix_overrides: &Option<String>,
) -> (r: Vec<char>)
    ensures
        r@ == trim_output(
            body@,
            opt_view(*prefix),
            opt_view(*prefix_overrides),
            opt_view(*suffix),
            opt_view(*suffix_overrides),
        ),
{
    let s1 = match prefix_overrides {
        Some(o) => strip_prefix_list(trim_chars(&body), &override_list(o, ',')),
        None => body,
    };
    let s2 = match suffix_overrides {
        Some(o) => strip_suffix_list(trim_chars(&s1), &override_list(o, ',')),
        None => s1,
    };
    let s3 = match prefix {
        Some(p) => {
            if s2.len() > 0 {
                let pv = chars_of(p.as_str());
                join_spaced(&trim_end_chars(&pv), &trim_start_chars(&s2))
            } else {
                s2
            }
        },
        None => s2,
    };
    match suffix {
        Some(x) => {
            if s3.len() > 0 {
                let xv = chars_of(x.as_str());
                join_spaced(&trim_end_chars(&s3), &trim_start_chars(&xv))
            } else {
                s3
            }
        },
        None => s3,
    }
}

fn keyword_then(k: Vec<char>, s: &Vec<char>) -> (r: Vec<char>)
    ensures
        r@ == k@ + trim_start(s@),
{
    let mut r = k;
    let t = trim_start_chars(s);
    extend_chars(&mut r, &t);
    r
}

/// The output of a `where` node whose body gave `body` (see `where_output`).
pub fn apply_where(
    body: Vec<char>,
    prefix_overrides: &Option<String>,
    suffix_overrides: &Option<String>,
) -> (r: Vec<char>)
    ensures
        r@ == where_output(body@, opt_view(*prefix_overrides), opt_view(*suffix_overrides)),
{
    let body = trim_chars(&body);
    let toks = match prefix_overrides {
        Some(o) => override_list(o, '|'),
        None => {
            let a = vec!['A', 'N', 'D', ' '];
            let b = vec!['O', 'R', ' '];
            let t = vec![a, b];
            assert(t@.map_values(|t: Vec<char>| t@) =~= seq![and_token(), or_token()]);
            t
        },
    };
    let s1 = strip_prefix_list(body, &toks);
    let s2 = match suffix_overrides {
        Some(o) => strip_suffix_list(s1, &override_list(o, ',')),
        None => s1,
    };
    if s2.len() > 0 {
        let k = vec!['W', 'H', 'E', 'R', 'E', ' '];
        assert(k@ =~= where_keyword());
        keyword_then(k, &s2)
    } else {
        Vec::new()
    }
}

/// The output of a `set` node whose body gave `body` (see `set_output`).
pub fn apply_set(
    body: Vec<char>,
    prefix_overrides: &Option<String>,
    suffix_overrides: &Option<String>,
) -> (r: Vec<char>)
    ensures
        r@ == set_output(body@, opt_view(*prefix_overrides), opt_view(*suffix_overrides)),
{
    let body = trim_chars(&body);
    let s1 = match prefix_overrides {
        Some(o) => strip_prefix_list(body, &override_list(o, '|')),
        None => body,
    };
    let toks = match suffix_overrides {
        Some(o) => override_list(o, '|'),
        None => {
            let c = vec![','];
            assert(c@ =~= seq![',']);
            let t = vec![c];
            assert(t@.map_values(|t: Vec<char>| t@) =~= seq![seq![',']]);
            t
        },
    };
    let s2 = strip_suffix_list(s1, &toks);
    if s2.len() > 0 {
        let k = vec!['S', 'E', 'T', ' '];
        assert(k@ =~= set_keyword());
        keyword_then(k, &s2)
    } else {
        Vec::new()
    }
}

/// The output of one node (see `node_output`).
pub fn node_chars(n: &DynamicSqlNode, scope: &Scope, m: &Mapper, fuel: usize) -> (r: Vec<char>)
    ensures
        r@ == node_output(*n, scope@, *m, fuel as nat),
    decreases fuel, *n, node_rank(*n),
{
    match n {
        DynamicSqlNode::Text(c) => text_chars(c, scope),
        DynamicSqlNode::If { test, contents } => {
            if evaluate_in_scope(test.as_str(), scope) {
                body_chars(contents, scope, m, fuel)
            } else {
                Vec::new()
            }
        },
        DynamicSqlNode::Choose { whens, otherwise } => {
            let mut k: usize = 0;
            while k < whens.len()
                invariant
                    k <= whens.len(),
                    *n == (DynamicSqlNode::Choose { whens: *whens, otherwise: *otherwise }),
                    node_output(*n, scope@, *m, fuel as nat) == choose_output(
                        *n,
                        scope@,
                        *m,
                        fuel as nat,
                        k as nat,
                    ),
                decreases whens.len() - k,
            {
                if evaluate_in_scope(whens[k].0.as_str(), scope) {
                    proof {
                        vstd::std_specs::vec::axiom_vec_index_decreases(*whens, k as int);
                        assert(decreases_to!(*n => (*n)->Choose_whens));
                    }
                    return body_chars(&whens[k].1, scope, m, fuel);
                }
                k = k + 1;
            }
            match otherwise {
                Some(b) => {
                    proof {
                        assert(decreases_to!(*n => (*n)->Choose_otherwise));
                    }
                    body_chars(b, scope, m, fuel)
                },
                None => Vec::new(),
            }
        },
        DynamicSqlNode::Foreach { collection, item, index, open, separator, close, contents } => {
            let key = chars_of(collection.as_str());
            let found: Option<&Vec<Value>> = match scope.get_collection(&key) {
                Some(v) => Some(v),
                None => match scope.get_param(&key) {
                    Some(Value::Array(a)) => Some(a),
                    _ => None,
                },
            };
            match found {
                None => Vec::new(),
                Some(items) => {
                    if items.len() == 0 {
                        return Vec::new();
                    }
                    let mut idx: Vec<Value> = Vec::new();
                    let mut k: usize = 0;
                    while k < items.len()
                        invariant
                            k <= items.len(),
                            idx.len() == k,
                            forall|j: int| 0 <= j < k ==> #[trigger] idx@[j] == Value::Int(j as i64),
                        decreases items.len() - k,
                    {
                        idx.push(Value::Int(k as i64));
                        k = k + 1;
                    }
                    let sep = chars_of(separator.as_str());
                    let index_name: Option<&str> = match index {
                        Some(x) => Some(x.as_str()),
                        None => None,
                    };
                    assert(opt_str(index_name) == opt_view(*index));
                    let mut acc: Vec<char> = Vec::new();
                    let mut k: usize = 0;
                    while k < items.len()
                        invariant
                            k <= items.len(),
                            idx.len() == items.len(),
                            forall|j: int| 0 <= j < idx.len() ==> #[trigger] idx@[j] == Value::Int(j as i64),
                            sep@ == separator@,
                            opt_str(index_name) == opt_view(*index),
                            *n == (DynamicSqlNode::Foreach {
                                collection: *collection,
                                item: *item,
                                index: *index,
                                open: *open,
                                separator: *separator,
                                close: *close,
                                contents: *contents,
                            }),
                            acc@ == iterations(
                                contents@,
                                scope@,
                                item@,
                                opt_view(*index),
                                items@,
                                separator@,
                                *m,
                                fuel as nat,
                                k as nat,
                            ),
                        decreases items.len() - k,
                    {
                        let child = scope.child(item.as_str(), index_name, &items[k], &idx[k], k);
                        proof {
                            assert(decreases_to!(*n => (*n)->Foreach_contents));
                        }
                        let b = body_chars(contents, &child, m, fuel);
                        if k > 0 {
                            acc.push(' ');
                            extend_chars(&mut acc, &sep);
                            acc.push(' ');
                        }
                        extend_chars(&mut acc, &b);
                        k = k + 1;
                    }
                    let mut out = chars_of(open.as_str());
                    extend_chars(&mut out, &acc);
                    let c = chars_of(close.as_str());
                    extend_chars(&mut out, &c);
                    out
                },
            }
        },
        DynamicSqlNode::Trim { prefix, prefix_overrides, suffix, suffix_overrides, contents } => {
            let b = body_chars(contents, scope, m, fuel);
            apply_trim(b, prefix, prefix_overrides, suffix, suffix_overrides)
        },
        DynamicSqlNode::Bind { name: _, value: _ } => Vec::new(),
        DynamicSqlNode::Include { ref_id } => {
            if fuel == 0 {
                Vec::new()
            } else {
                match m.fragment(ref_id.as_str()) {
                    Some(ns) => joined_chars(ns, scope, m, fuel - 1),
                    None => Vec::new(),
                }
            }
        },
        DynamicSqlNode::Where { prefix_overrides, suffix_overrides, contents } => {
            let b = body_chars(contents, scope, m, fuel);
            apply_where(b, prefix_overrides, suffix_overrides)
        },
        DynamicSqlNode::SetClause { prefix_overrides, suffix_overrides, contents } => {
            let b = body_chars(contents, scope, m, fuel);
            apply_set(b, prefix_overrides, suffix_overrides)
        },
    }
}

/// The non-blank outputs of `s` joined by spaces (see `joined_parts`).
pub fn joined_chars(s: &Vec<DynamicSqlNode>, scope: &Scope, m: &Mapper, fuel: usize) -> (r: Vec<
    char,
>)
    ensures
        r@ == joined_parts(s@, scope@, *m, fuel as nat),
    decreases fuel, s@, 0nat,
{
    let mut out: Vec<char> = Vec::new();
    let mut i: usize = 0;
    while i < s.len()
        invariant
            i <= s.len(),
            out@ == joined_parts(s@.subrange(0, i as int), scope@, *m, fuel as nat),
        decreases s.len() - i,
    {
        assert(s@.subrange(0, i + 1).drop_last() =~= s@.subrange(0, i as int));
        let t = node_chars(&s[i], scope, m, fuel);
        if !blank(&t) {
            if out.len() > 0 {
                out.push(' ');
            }
            extend_chars(&mut out, &t);
        }
        i = i + 1;
    }
    assert(s@.subrange(0, s.len() as int) =~= s@);
    out
}

/// The output of a body (see `body_output`).
pub fn body_chars(s: &Vec<DynamicSqlNode>, scope: &Scope, m: &Mapper, fuel: usize) -> (r: Vec<char>)
    ensures
        r@ == body_output(s@, scope@, *m, fuel as nat),
    decreases fuel, s@, 1nat,
{
    let j = joined_chars(s, scope, m, fuel);
    unbreak_chars(&j)
}

/// Generates the SQL text of `node` in `params`. Includes may nest as deep as
/// there are fragments.
pub fn generate_sql(node: &DynamicSqlNode, params: &Params, mapper: &Mapper) -> (r: String)
    ensures
        r@ == node_output(*node, params@, *mapper, mapper.sql_fragments.len() as nat),
{
    let scope = Scope::of_params(params);
    let v = node_chars(node, &scope, mapper, mapper.sql_fragments.len());
    string_of(&v)
}

/// The keys of the placeholders opened by `opener` in `s` (as `subst` finds
/// them) that name nothing in `env`, in order.
pub open spec fn missing_keys(s: Seq<char>, opener: char, env: Env) -> Seq<Seq<char>>
    decreases s.len(),
{
    if s.len() < 2 {
        Seq::empty()
    } else {
        let d = index_of(s.subrange(2, s.len() as int), '}');
        if s[0] == opener && s[1] == '{' && 0 <= d < s.len() - 2 {
            let key = s.subrange(2, 2 + d);
            (if param_of(env, key) is None {
                seq![key]
            } else {
                Seq::empty()
            }) + missing_keys(s.subrange(3 + d, s.len() as int), opener, env)
        } else {
            missing_keys(s.drop_first(), opener, env)
        }
    }
}

/// What a text node finds missing: the keys of its `${..}` placeholders, then
/// those of the `#{..}` placeholders in the text that the first pass gave.
pub open spec fn text_missing(s: Seq<char>, env: Env) -> Seq<Seq<char>> {
    missing_keys(s, '$', env) + missing_keys(subst(s, '$', env), '#', env)
}

fn missing_in(s: &Vec<char>, opener: char, scope: &Scope, out: &mut Vec<String>)
    ensures
        final(out)@.map_values(|k: String| k@) == old(out)@.map_values(|k: String| k@)
            + missing_keys(s@, opener, scope@),
{
    let ghost start = old(out)@.map_values(|k: String| k@);
    let mut i: usize = 0;
    assert(s@.subrange(0, s.len() as int) =~= s@);
    while i < s.len()
        invariant
            i <= s.len(),
            out@.map_values(|k: String| k@) + missing_keys(
                s@.subrange(i as int, s.len() as int),
                opener,
                scope@,
            ) == start + missing_keys(s@, opener, scope@),
        decreases s.len() - i,
    {
        let ghost t = s@.subrange(i as int, s.len() as int);
        let ghost pre = out@.map_values(|k: String| k@);
        if s.len() - i >= 2 && s[i] == opener && s[i + 1] == '{' {
            let j = find_char_from(s, '}', i + 2);
            assert(t.subrange(2, t.len() as int) =~= s@.subrange(i + 2, s.len() as int));
            if j < s.len() {
                let key = sub_chars(s, i + 2, j);
                assert(t.subrange(2, 2 + (j - i - 2)) =~= key@);
                assert(t.subrange(3 + (j - i - 2), t.len() as int) =~= s@.subrange(
                    j + 1,
                    s.len() as int,
                ));
                let ghost found = if param_of(scope@, key@) is None {
                    seq![key@]
                } else {
                    Seq::<Seq<char>>::empty()
                };
                if scope.get_param(&key).is_none() {
                    out.push(string_of(&key));
                }
                assert(out@.map_values(|k: String| k@) =~= pre + found);
                assert(pre + found + missing_keys(s@.subrange(j + 1, s.len() as int), opener, scope@)
                    =~= pre + missing_keys(t, opener, scope@));
                i = j + 1;
                continue;
            }
        }
        proof {
            if t.len() >= 2 {
                assert(t.drop_first() =~= s@.subrange(i + 1, s.len() as int));
            } else {
                assert(s@.subrange(i + 1, s.len() as int) =~= Seq::<char>::empty());
            }
        }
        i = i + 1;
    }
    assert(s@.subrange(s.len() as int, s.len() as int) =~= Seq::<char>::empty());
    assert(out@.map_values(|k: String| k@) =~= out@.map_values(|k: String| k@) + Seq::<
        Seq<char>,
    >::empty());
}

/// The keys of the placeholders of a text node that name nothing in `params`
/// (see `text_missing`): each becomes `NULL` in the output, and a caller can
/// report them.
pub fn missing_placeholders(text: &str, params: &Params) -> (r: Vec<String>)
    ensures
        r@.map_values(|k: String| k@) == text_missing(text@, params@),
{
    let scope = Scope::of_params(params);
    let v = chars_of(text);
    let mut out: Vec<String> = Vec::new();
    assert(out@.map_values(|k: String| k@) =~= Seq::<Seq<char>>::empty());
    missing_in(&v, '$', &scope, &mut out);
    let a = substitute(&v, '$', &scope);
    missing_in(&a, '#', &scope, &mut out);
    assert(Seq::<Seq<char>>::empty() + missing_keys(v@, '$', scope@) =~= missing_keys(v@, '$', scope@));
    out
}

/// The ids of the includes in `n`, in document order, that name no fragment
/// of `frags`: each expands to nothing, and a caller can report them.
pub open spec fn unresolved_in(n: DynamicSqlNode, frags: Seq<(String, Vec<DynamicSqlNode>)>) -> Seq<
    Seq<char>,
>
    decreases n,
{
    match n {
        DynamicSqlNode::Include { ref_id } => if fragment_of(frags, ref_id@) is None {
            seq![ref_id@]
        } else {
            Seq::empty()
        },
        DynamicSqlNode::If { test: _, contents } => unresolved_list(contents@, frags),
        DynamicSqlNode::Foreach { contents, .. } => unresolved_list(contents@, frags),
        DynamicSqlNode::Trim { contents, .. } => unresolved_list(contents@, frags),
        DynamicSqlNode::Where { contents, .. } => unresolved_list(contents@, frags),
        DynamicSqlNode::SetClause { contents, .. } => unresolved_list(contents@, frags),
        DynamicSqlNode::Choose { whens, otherwise } => unresolved_whens(whens@, frags) + match otherwise {
            Some(b) => unresolved_list(b@, frags),
            None => Seq::empty(),
        },
        _ => Seq::empty(),
    }
}

pub open spec fn unresolved_list(s: Seq<DynamicSqlNode>, frags: Seq<(String, Vec<DynamicSqlNode>)>) -> Seq<
    Seq<char>,
>
    decreases s,
{
    if s.len() == 0 {
        Seq::empty()
    } else {
        unresolved_list(s.drop_last(), frags) + unresolved_in(s.last(), frags)
    }
}

pub open spec fn unresolved_whens(
    s: Seq<(String, Vec<DynamicSqlNode>)>,
    frags: Seq<(String, Vec<DynamicSqlNode>)>,
) -> Seq<Seq<char>>
    decreases s,
{
    if s.len() == 0 {
        Seq::empty()
    } else {
        unresolved_whens(s.drop_last(), frags) + unresolved_list(s.last().1@, frags)
    }
}

fn unresolved_node(n: &DynamicSqlNode, m: &Mapper, out: &mut Vec<String>)
    ensures
        final(out)@.map_values(|k: String| k@) == old(out)@.map_values(|k: String| k@)
            + unresolved_in(*n, m.sql_fragments@),
    decreases *n,
{
    let ghost pre = out@.map_values(|k: String| k@);
    match n {
        DynamicSqlNode::Include { ref_id } => {
            if m.fragment(ref_id.as_str()).is_none() {
                out.push(ref_id.clone());
            }
            assert(out@.map_values(|k: String| k@) =~= pre + unresolved_in(*n, m.sql_fragments@));
        },
        DynamicSqlNode::If { test: _, contents } => {
            proof {
                assert(decreases_to!(*n => (*n)->If_contents));
            }
            unresolved_nodes(contents, m, out);
        },
        DynamicSqlNode::Foreach { contents, .. } => {
            proof {
                assert(decreases_to!(*n => (*n)->Foreach_contents));
            }
            unresolved_nodes(contents, m, out);
        },
        DynamicSqlNode::Trim { contents, .. } => {
            proof {
                assert(decreases_to!(*n => (*n)->Trim_contents));
            }
            unresolved_nodes(contents, m, out);
        },
        DynamicSqlNode::Where { contents, .. } => {
            proof {
                assert(decreases_to!(*n => (*n)->Where_contents));
            }
            unresolved_nodes(contents, m, out);
        },
        DynamicSqlNode::SetClause { contents, .. } => {
            proof {
                assert(decreases_to!(*n => (*n)->SetClause_contents));
            }
            unresolved_nodes(contents, m, out);
        },
        DynamicSqlNode::Choose { whens, otherwise } => {
            let mut k: usize = 0;
            while k < whens.len()
                invariant
                    k <= whens.len(),
                    *n == (DynamicSqlNode::Choose { whens: *whens, otherwise: *otherwise }),
                    out@.map_values(|k: String| k@) == pre + unresolved_whens(
                        whens@.subrange(0, k as int),
                        m.sql_fragments@,
                    ),
                decreases whens.len() - k,
            {
                assert(whens@.subrange(0, k + 1).drop_last() =~= whens@.subrange(0, k as int));
                proof {
                    vstd::std_specs::vec::axiom_vec_index_decreases(*whens, k as int);
                    assert(decreases_to!(*n => (*n)->Choose_whens));
                }
                let ghost mid = out@.map_values(|k: String| k@);
                unresolved_nodes(&whens[k].1, m, out);
                k = k + 1;
                assert(mid + unresolved_list(whens@[k - 1].1@, m.sql_fragments@) =~= pre
                    + unresolved_whens(whens@.subrange(0, k as int), m.sql_fragments@));
            }
            assert(whens@.subrange(0, whens.len() as int) =~= whens@);
            let ghost mid = out@.map_values(|k: String| k@);
            match otherwise {
                Some(b) => {
                    proof {
                        assert(decreases_to!(*n => (*n)->Choose_otherwise));
                    }
                    unresolved_nodes(b, m, out);
                    assert(mid + unresolved_list(b@, m.sql_fragments@) =~= pre + unresolved_in(
                        *n,
                        m.sql_fragments@,
                    ));
                },
                None => {
                    assert(mid =~= pre + unresolved_in(*n, m.sql_fragments@));
                },
            }
        },
        _ => {
            assert(out@.map_values(|k: String| k@) =~= pre + unresolved_in(*n, m.sql_fragments@));
        },
    }
}

fn unresolved_nodes(s: &Vec<DynamicSqlNode>, m: &Mapper, out: &mut Vec<String>)
    ensures
        final(out)@.map_values(|k: String| k@) == old(out)@.map_values(|k: String| k@)
            + unresolved_list(s@, m.sql_fragments@),
    decreases s@,
{
    let ghost pre = out@.map_values(|k: String| k@);
    let mut i: usize = 0;
    while i < s.len()
        invariant
            i <= s.len(),
            out@.map_values(|k: String| k@) == pre + unresolved_list(
                s@.subrange(0, i as int),
                m.sql_fragments@,
            ),
        decreases s.len() - i,
    {
        assert(s@.subrange(0, i + 1).drop_last() =~= s@.subrange(0, i as int));
        let ghost mid = out@.map_values(|k: String| k@);
        unresolved_node(&s[i], m, out);
        i = i + 1;
        assert(mid + unresolved_in(s@[i - 1], m.sql_fragments@) =~= pre + unresolved_list(
            s@.subrange(0, i as int),
            m.sql_fragments@,
        ));
    }
    assert(s@.subrange(0, s.len() as int) =~= s@);
}

impl Mapper {
    /// The ids of the includes in `node` that name no fragment of this mapper
    /// (see `unresolved_in`).
    pub fn unresolved_includes(&self, node: &DynamicSqlNode) -> (r: Vec<String>)
        ensures
            r@.map_values(|k: String| k@) == unresolved_in(*node, self.sql_fragments@),
    {
        let mut out: Vec<String> = Vec::new();
        assert(out@.map_values(|k: String| k@) =~= Seq::<Seq<char>>::empty());
        unresolved_node(node, self, &mut out);
        assert(Seq::<Seq<char>>::empty() + unresolved_in(*node, self.sql_fragments@) =~= unresolved_in(
            *node,
            self.sql_fragments@,
        ));
        out
    }
}

} // verus!
