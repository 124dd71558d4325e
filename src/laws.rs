//! Properties of generation that hold for every input.
use vstd::prelude::*;
use crate::text::{is_blank, unbreak, starts_with, ends_with, trim, trim_start, trim_end};
use crate::value::{Value, quote_doubled};
use crate::params::{Env, param_of, index_of, lemma_index_of};
use crate::condition::{conjunct_holds, null_lit, condition_holds, parsed_conditions, all_hold};
use crate::model::{DynamicSqlNode, Mapper};
use crate::generator::{
    node_output, body_output, joined_parts, text_output, subst, items_of, strip_prefix_tokens,
    strip_suffix_tokens, and_token, or_token,
    where_keyword, set_keyword, opt_view, placeholder_text,
};

verus! {

/// The non-blank outputs of the text nodes of `s`, joined by single spaces.
pub open spec fn literal_join(s: Seq<DynamicSqlNode>, env: Env) -> Seq<char>
    decreases s.len(),
{
    if s.len() == 0 {
        Seq::empty()
    } else {
        let pre = literal_join(s.drop_last(), env);
        let t = match s.last() {
            DynamicSqlNode::Text(c) => text_output(c@, env),
            _ => Seq::empty(),
        };
        if is_blank(t) {
            pre
        } else if pre.len() == 0 {
            t
        } else {
            pre + seq![' '] + t
        }
    }
}

proof fn lemma_joined_literal(s: Seq<DynamicSqlNode>, env: Env, m: Mapper, fuel: nat)
    requires
        forall|i: int| 0 <= i < s.len() ==> #[trigger] s[i] is Text,
    ensures
        joined_parts(s, env, m, fuel) == literal_join(s, env),
    decreases s.len(),
{
    if s.len() > 0 {
        assert forall|i: int| 0 <= i < s.drop_last().len() implies #[trigger] s.drop_last()[i] is Text by {
            assert(s.drop_last()[i] == s[i]);
        }
        lemma_joined_literal(s.drop_last(), env, m, fuel);
        assert(s[s.len() - 1] is Text);
        let t = match s.last() {
            DynamicSqlNode::Text(c) => text_output(c@, env),
            _ => Seq::empty(),
        };
        assert(node_output(s.last(), env, m, fuel) == t);
    }
}

/// A statement body of literal text alone, in the bare `Trim` that wraps
/// several nodes, gives the substituted texts that are not blank, joined by
/// single spaces, with `\r` deleted and `\n` made a space.
pub proof fn law_literal_body(contents: Vec<DynamicSqlNode>, env: Env, m: Mapper, fuel: nat)
    requires
        forall|i: int| 0 <= i < contents@.len() ==> #[trigger] contents@[i] is Text,
    ensures
        node_output(
            DynamicSqlNode::Trim {
                prefix: None,
                prefix_overrides: None,
                suffix: None,
                suffix_overrides: None,
                contents,
            },
            env,
            m,
            fuel,
        ) == unbreak(literal_join(contents@, env)),
{
    lemma_joined_literal(contents@, env, m, fuel);
}

/// A single text node gives its text with the placeholders substituted.
pub proof fn law_literal_text(c: String, env: Env, m: Mapper, fuel: nat)
    ensures
        node_output(DynamicSqlNode::Text(c), env, m, fuel) == text_output(c@, env),
{
}

/// A `foreach` over an empty or missing collection gives nothing: no
/// `open`, no `close`.
pub proof fn law_foreach_empty(n: DynamicSqlNode, env: Env, m: Mapper, fuel: nat)
    requires
        n is Foreach,
        items_of(env, n->Foreach_collection@) matches Some(s) ==> s.len() == 0,
    ensures
        node_output(n, env, m, fuel) == Seq::<char>::empty(),
{
}

proof fn lemma_strip_prefix_empty(toks: Seq<Seq<char>>)
    ensures
        strip_prefix_tokens(Seq::empty(), toks) == Seq::<char>::empty(),
    decreases toks.len(),
{
    if toks.len() > 0 {
        lemma_strip_prefix_empty(toks.drop_first());
        if starts_with(Seq::<char>::empty(), toks[0]) {
            assert(Seq::<char>::empty().subrange(toks[0].len() as int, 0) =~= Seq::<char>::empty());
        }
    }
}

proof fn lemma_strip_suffix_empty(toks: Seq<Seq<char>>)
    ensures
        strip_suffix_tokens(Seq::empty(), toks) == Seq::<char>::empty(),
    decreases toks.len(),
{
    if toks.len() > 0 {
        lemma_strip_suffix_empty(toks.drop_first());
        if ends_with(Seq::<char>::empty(), toks[0]) {
            assert(Seq::<char>::empty().subrange(0, 0) =~= Seq::<char>::empty());
        }
    }
}

/// A `where` whose body gives nothing but whitespace gives nothing: no `WHERE`.
pub proof fn law_where_empty(
    prefix_overrides: Option<String>,
    suffix_overrides: Option<String>,
    contents: Vec<DynamicSqlNode>,
    env: Env,
    m: Mapper,
    fuel: nat,
)
    requires
        trim(body_output(contents@, env, m, fuel)) == Seq::<char>::empty(),
    ensures
        node_output(
            DynamicSqlNode::Where { prefix_overrides, suffix_overrides, contents },
            env,
            m,
            fuel,
        ) == Seq::<char>::empty(),
{
    let toks = match opt_view(prefix_overrides) {
        Some(o) => crate::generator::override_tokens(o, '|'),
        None => seq![and_token(), or_token()],
    };
    lemma_strip_prefix_empty(toks);
    match opt_view(suffix_overrides) {
        Some(o) => {
            lemma_strip_suffix_empty(crate::generator::override_tokens(o, ','));
        },
        None => {},
    }
}

/// A `where` whose body, trimmed, starts with `AND ` or `OR ` drops that
/// token and the whitespace after it before `WHERE ` is put in front.
pub proof fn law_where_strips_connective(contents: Vec<DynamicSqlNode>, env: Env, m: Mapper, fuel: nat)
    requires
        starts_with(trim(body_output(contents@, env, m, fuel)), and_token()) || starts_with(
            trim(body_output(contents@, env, m, fuel)),
            or_token(),
        ),
    ensures
        ({
            let b = trim(body_output(contents@, env, m, fuel));
            let k: int = if starts_with(b, and_token()) {
                4
            } else {
                3
            };
            let rest = trim_start(b.subrange(k, b.len() as int));
            node_output(
                DynamicSqlNode::Where { prefix_overrides: None, suffix_overrides: None, contents },
                env,
                m,
                fuel,
            ) == if rest.len() > 0 {
                where_keyword() + trim_start(rest)
            } else {
                Seq::empty()
            }
        }),
{
    let toks = seq![and_token(), or_token()];
    assert(toks[0] == and_token());
    assert(toks.drop_first()[0] == or_token());
    assert(toks.drop_first().drop_first().len() == 0);
    reveal_with_fuel(strip_prefix_tokens, 3);
}

/// A `set` whose body, trimmed, ends with `,` drops that comma (and the
/// whitespace before it) before `SET ` is put in front.
pub proof fn law_set_strips_comma(contents: Vec<DynamicSqlNode>, env: Env, m: Mapper, fuel: nat)
    requires
        ends_with(trim(body_output(contents@, env, m, fuel)), seq![',']),
    ensures
        ({
            let b = trim(body_output(contents@, env, m, fuel));
            let rest = trim_end(b.subrange(0, b.len() - 1));
            node_output(
                DynamicSqlNode::SetClause { prefix_overrides: None, suffix_overrides: None, contents },
                env,
                m,
                fuel,
            ) == if rest.len() > 0 {
                set_keyword() + trim_start(rest)
            } else {
                Seq::empty()
            }
        }),
{
    let toks = seq![seq![',']];
    assert(toks[0] == seq![',']);
}

/// `${key}` puts a string value in verbatim; `#{key}` puts it in single
/// quotes with each quote inside doubled.
pub proof fn law_string_placeholders(key: Seq<char>, v: String, env: Env)
    requires
        param_of(env, key) == Some(Value::Str(v)),
        !key.contains('}'),
    ensures
        subst(seq!['$', '{'] + key + seq!['}'], '$', env) == v@,
        subst(seq!['#', '{'] + key + seq!['}'], '#', env) == seq!['\''] + quote_doubled(v@)
            + seq!['\''],
{
    let a = seq!['$', '{'] + key + seq!['}'];
    let h = seq!['#', '{'] + key + seq!['}'];
    assert(a[0] == '$' && a[1] == '{');
    assert(h[0] == '#' && h[1] == '{');
    assert(a.subrange(2, a.len() as int) =~= key + seq!['}']);
    assert(h.subrange(2, h.len() as int) =~= key + seq!['}']);
    assert forall|k: int| 0 <= k < key.len() implies (key + seq!['}'])[k] != '}' by {
        assert((key + seq!['}'])[k] == key[k]);
    }
    lemma_index_of(key + seq!['}'], '}', key.len() as int);
    assert(a.subrange(2, 2 + key.len() as int) =~= key);
    assert(h.subrange(2, 2 + key.len() as int) =~= key);
    assert(a.subrange(3 + key.len() as int, a.len() as int) =~= Seq::<char>::empty());
    assert(h.subrange(3 + key.len() as int, h.len() as int) =~= Seq::<char>::empty());
    assert(subst(Seq::<char>::empty(), '$', env) == Seq::<char>::empty());
    assert(subst(Seq::<char>::empty(), '#', env) == Seq::<char>::empty());
    let d = index_of(a.subrange(2, a.len() as int), '}');
    assert(d == key.len());
    assert(subst(a, '$', env) == placeholder_text('$', param_of(env, a.subrange(2, 2 + d))) + subst(
        a.subrange(3 + d, a.len() as int),
        '$',
        env,
    ));
    assert(subst(h, '#', env) == placeholder_text('#', param_of(env, h.subrange(2, 2 + d))) + subst(
        h.subrange(3 + d, h.len() as int),
        '#',
        env,
    ));
    assert(v@ + Seq::<char>::empty() =~= v@);
    assert(seq!['\''] + quote_doubled(v@) + seq!['\''] + Seq::<char>::empty() =~= seq!['\'']
        + quote_doubled(v@) + seq!['\'']);
}

/// A missing parameter counts as null: `key = null` holds and `key != null`
/// does not; a present one gives the reverse.
pub proof fn law_null_tests(key: Seq<char>, env: Env)
    ensures
        conjunct_holds((key, seq!['='], null_lit()), env) == (param_of(env, key) is None),
        conjunct_holds((key, seq!['=', '='], null_lit()), env) == (param_of(env, key) is None),
        conjunct_holds((key, seq!['!', '='], null_lit()), env) == (param_of(env, key) is Some),
{
}

proof fn lemma_subst_without_opener(s: Seq<char>, opener: char, env: Env)
    requires
        !s.contains(opener),
    ensures
        subst(s, opener, env) == s,
    decreases s.len(),
{
    if s.len() >= 2 {
        assert(s[0] != opener);
        assert(!s.drop_first().contains(opener)) by {
            if s.drop_first().contains(opener) {
                let j = choose|j: int| 0 <= j < s.drop_first().len() && s.drop_first()[j] == opener;
                assert(s[j + 1] == opener);
            }
        }
        lemma_subst_without_opener(s.drop_first(), opener, env);
        assert(seq![s[0]] + s.drop_first() =~= s);
    }
}

/// A text node `${key}` whose key names a string gives the string as it is,
/// when the string holds no `#` for the later `#{..}` pass to read.
pub proof fn law_text_raw_string(key: Seq<char>, v: String, env: Env)
    requires
        param_of(env, key) == Some(Value::Str(v)),
        !key.contains('}'),
        !v@.contains('#'),
    ensures
        text_output(seq!['$', '{'] + key + seq!['}'], env) == v@,
{
    law_string_placeholders(key, v, env);
    lemma_subst_without_opener(v@, '#', env);
}

/// A text node `#{key}` whose key names a string gives it in single quotes,
/// each quote inside doubled, when the key holds no `$` for the earlier
/// `${..}` pass to read.
pub proof fn law_text_quoted_string(key: Seq<char>, v: String, env: Env)
    requires
        param_of(env, key) == Some(Value::Str(v)),
        !key.contains('}'),
        !key.contains('$'),
    ensures
        text_output(seq!['#', '{'] + key + seq!['}'], env) == seq!['\''] + quote_doubled(v@)
            + seq!['\''],
{
    let h = seq!['#', '{'] + key + seq!['}'];
    assert(!h.contains('$')) by {
        if h.contains('$') {
            let j = choose|j: int| 0 <= j < h.len() && h[j] == '$';
            assert(key[j - 2] == '$');
        }
    }
    lemma_subst_without_opener(h, '$', env);
    law_string_placeholders(key, v, env);
}

/// A test that is one null comparison holds as the comparison does: `= null`
/// and `== null` exactly when the key names nothing, `!= null` exactly when it
/// names something.
pub proof fn law_null_conditions(expr: Seq<char>, key: Seq<char>, op: Seq<char>, env: Env)
    requires
        parsed_conditions(expr) == Some(seq![(key, op, null_lit())]),
        op == seq!['='] || op == seq!['=', '='] || op == seq!['!', '='],
    ensures
        condition_holds(expr, env) == if op == seq!['!', '='] {
            param_of(env, key) is Some
        } else {
            param_of(env, key) is None
        },
{
    law_null_tests(key, env);
    let cs = seq![(key, op, null_lit())];
    assert(all_hold(cs, env) == conjunct_holds(cs[0], env));
}

} // verus!
