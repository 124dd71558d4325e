//! Parameter values: a JSON-like sum type and the text each value takes in SQL.
use vstd::prelude::*;
use crate::text::{chars_of, extend_chars};

verus! {

/// A parameter value.
#[derive(Debug)]
pub enum Value {
    Null,
    Bool(bool),
    /// A number that fits in an `i64`.
    Int(i64),
    /// Any other number, held as its decimal text.
    Decimal(String),
    Str(String),
    Array(Vec<Value>),
    /// Named fields, in the order they are written out; where a name repeats, the last one counts.
    Object(Vec<(String, Value)>),
}

pub open spec fn digit(d: int) -> char {
    if d == 0 {
        '0'
    } else if d == 1 {
        '1'
    } else if d == 2 {
        '2'
    } else if d == 3 {
        '3'
    } else if d == 4 {
        '4'
    } else if d == 5 {
        '5'
    } else if d == 6 {
        '6'
    } else if d == 7 {
        '7'
    } else if d == 8 {
        '8'
    } else {
        '9'
    }
}

/// Decimal digits of `n`, most significant first.
pub open spec fn nat_text(n: nat) -> Seq<char>
    decreases n,
{
    if n < 10 {
        seq![digit(n as int)]
    } else {
        nat_text(n / 10).push(digit((n % 10) as int))
    }
}

/// Decimal text of `i`, with a leading `-` when negative.
pub open spec fn int_text(i: int) -> Seq<char> {
    if i < 0 {
        seq!['-'] + nat_text((-i) as nat)
    } else {
        nat_text(i as nat)
    }
}

fn digit_char(d: u64) -> (c: char)
    requires
        d < 10,
    ensures
        c == digit(d as int),
{
    if d == 0 {
        '0'
    } else if d == 1 {
        '1'
    } else if d == 2 {
        '2'
    } else if d == 3 {
        '3'
    } else if d == 4 {
        '4'
    } else if d == 5 {
        '5'
    } else if d == 6 {
        '6'
    } else if d == 7 {
        '7'
    } else if d == 8 {
        '8'
    } else {
        '9'
    }
}

pub fn nat_chars(n: u64) -> (r: Vec<char>)
    ensures
        r@ == nat_text(n as nat),
    decreases n,
{
    if n < 10 {
        let mut v: Vec<char> = Vec::new();
        v.push(digit_char(n));
        v
    } else {
        let mut v = nat_chars(n / 10);
        v.push(digit_char(n % 10));
        v
    }
}

pub fn int_chars(i: i64) -> (r: Vec<char>)
    ensures
        r@ == int_text(i as int),
{
    if i < 0 {
        let m: u64 = (-(i as i128)) as u64;
        let mut v: Vec<char> = Vec::new();
        v.push('-');
        let d = nat_chars(m);
        extend_chars(&mut v, &d);
        v
    } else {
        nat_chars(i as u64)
    }
}

/// The JSON string literal that serde_json writes for `s`.
pub uninterp spec fn json_quoted(s: Seq<char>) -> Seq<char>;

/// Relies on `serde_json::to_string` on a `str`: the JSON string literal of
/// `s`, quotes and escapes included. Serialising a `str` does not fail.
#[verifier::external_body]
fn json_string_literal(s: &str) -> (r: String)
    ensures
        r@ == json_quoted(s@),
{
    serde_json::to_string(s).unwrap_or_default()
}

/// Compact JSON text of a value: no spaces, fields in their stored order,
/// and of the fields that share a name only the last.
pub open spec fn json_text(v: Value) -> Seq<char>
    decreases v,
{
    match v {
        Value::Null => seq!['n', 'u', 'l', 'l'],
        Value::Bool(b) => if b {
            seq!['t', 'r', 'u', 'e']
        } else {
            seq!['f', 'a', 'l', 's', 'e']
        },
        Value::Int(i) => int_text(i as int),
        Value::Decimal(t) => t@,
        Value::Str(s) => json_quoted(s@),
        Value::Array(items) => seq!['['] + json_items(items@) + seq![']'],
        Value::Object(fields) => seq!['{'] + json_fields(fields@) + seq!['}'],
    }
}

/// The JSON texts of `s`, comma separated.
pub open spec fn json_items(s: Seq<Value>) -> Seq<char>
    decreases s,
{
    if s.len() == 0 {
        Seq::empty()
    } else if s.len() == 1 {
        json_text(s[0])
    } else {
        json_items(s.drop_last()) + seq![','] + json_text(s.last())
    }
}

/// Some field of `s` is called `k`.
pub open spec fn has_field(s: Seq<(String, Value)>, k: Seq<char>) -> bool {
    exists|j: int| 0 <= j < s.len() && (#[trigger] s[j]).0@ == k
}

/// The `"name":value` pairs of `s`, comma separated, leaving out each field
/// that a later field of the same name overrides.
pub open spec fn json_fields(s: Seq<(String, Value)>) -> Seq<char>
    decreases s,
{
    if s.len() == 0 {
        Seq::empty()
    } else {
        let rest = json_fields(s.drop_first());
        if has_field(s.drop_first(), s[0].0@) {
            rest
        } else {
            let pair = json_quoted(s[0].0@) + seq![':'] + json_text(s[0].1);
            if rest.len() == 0 {
                pair
            } else {
                pair + seq![','] + rest
            }
        }
    }
}

/// Appends the compact JSON text of `v` (see `json_text`).
pub fn json_chars(v: &Value, out: &mut Vec<char>)
    ensures
        final(out)@ == old(out)@ + json_text(*v),
    decreases v, 0nat,
{
    match v {
        Value::Null => {
            out.push('n');
            out.push('u');
            out.push('l');
            out.push('l');
        },
        Value::Bool(b) => {
            if *b {
                out.push('t');
                out.push('r');
                out.push('u');
                out.push('e');
            } else {
                out.push('f');
                out.push('a');
                out.push('l');
                out.push('s');
                out.push('e');
            }
        },
        Value::Int(i) => {
            let t = int_chars(*i);
            extend_chars(out, &t);
        },
        Value::Decimal(t) => {
            let t = chars_of(t.as_str());
            extend_chars(out, &t);
        },
        Value::Str(s) => {
            let q = json_string_literal(s.as_str());
            let t = chars_of(q.as_str());
            extend_chars(out, &t);
        },
        Value::Array(items) => {
            out.push('[');
            let ghost start = out@;
            let mut i: usize = 0;
            while i < items.len()
                invariant
                    i <= items.len(),
                    *v == Value::Array(*items),
                    out@ == start + json_items(items@.subrange(0, i as int)),
                decreases items.len() - i,
            {
                assert(items@.subrange(0, i + 1).drop_last() =~= items@.subrange(0, i as int));
                if i > 0 {
                    out.push(',');
                }
                proof {
                    vstd::std_specs::vec::axiom_vec_index_decreases(*items, i as int);
                    assert(decreases_to!(*v => (*v)->Array_0));
                    assert(decreases_to!(*v => items[i as int]));
                }
                json_chars(&items[i], out);
                i = i + 1;
                assert(out@ =~= start + json_items(items@.subrange(0, i as int)));
            }
            assert(items@.subrange(0, items.len() as int) =~= items@);
            out.push(']');
        },
        Value::Object(fields) => {
            out.push('{');
            proof {
                assert(decreases_to!(*v => (*v)->Object_0));
                assert(fields@.subrange(0, fields.len() as int) =~= fields@);
            }
            let f = json_fields_chars(fields, 0);
            extend_chars(out, &f);
            out.push('}');
        },
    }
    assert(final(out)@ =~= old(out)@ + json_text(*v));
}

/// The pairs of `fields[from..]` (see `json_fields`).
fn json_fields_chars(fields: &Vec<(String, Value)>, from: usize) -> (r: Vec<char>)
    requires
        from <= fields.len(),
    ensures
        r@ == json_fields(fields@.subrange(from as int, fields.len() as int)),
    decreases fields@, fields.len() - from,
{
    let ghost s = fields@.subrange(from as int, fields.len() as int);
    if from == fields.len() {
        return Vec::new();
    }
    assert(s.drop_first() =~= fields@.subrange(from + 1, fields.len() as int));
    let rest = json_fields_chars(fields, from + 1);
    let name = chars_of(fields[from].0.as_str());
    let mut j = from + 1;
    while j < fields.len()
        invariant
            from < j <= fields.len(),
            s == fields@.subrange(from as int, fields.len() as int),
            name@ == fields@[from as int].0@,
            rest@ == json_fields(s.drop_first()),
            s.drop_first() =~= fields@.subrange(from + 1, fields.len() as int),
            forall|k: int| from + 1 <= k < j ==> (#[trigger] fields@[k]).0@ != name@,
        decreases fields.len() - j,
    {
        let other = chars_of(fields[j].0.as_str());
        if crate::text::chars_eq(&other, &name) {
            assert(s.drop_first()[j - from - 1] == fields@[j as int]);
            assert(s[0] == fields@[from as int]);
            assert(has_field(s.drop_first(), s[0].0@));
            return rest;
        }
        j = j + 1;
    }
    assert(!has_field(s.drop_first(), s[0].0@)) by {
        assert forall|k: int| 0 <= k < s.drop_first().len() implies (#[trigger] s.drop_first()[k]).0@
            != s[0].0@ by {
            assert(s.drop_first()[k] == fields@[from + 1 + k]);
        }
    }
    let mut out: Vec<char> = Vec::new();
    let q = json_string_literal(fields[from].0.as_str());
    let qc = chars_of(q.as_str());
    extend_chars(&mut out, &qc);
    out.push(':');
    proof {
        vstd::std_specs::vec::axiom_vec_index_decreases(*fields, from as int);
        assert(decreases_to!(fields@ => fields@[from as int]));
    }
    json_chars(&fields[from].1, &mut out);
    if rest.len() > 0 {
        out.push(',');
        extend_chars(&mut out, &rest);
    }
    assert(out@ =~= json_fields(s));
    out
}

/// `s` with each single quote doubled.
pub open spec fn quote_doubled(s: Seq<char>) -> Seq<char>
    decreases s.len(),
{
    if s.len() == 0 {
        Seq::empty()
    } else if s.last() == '\'' {
        quote_doubled(s.drop_last()) + seq!['\'', '\'']
    } else {
        quote_doubled(s.drop_last()).push(s.last())
    }
}

/// The text that `${..}` puts in place of a value, or of a missing one.
pub open spec fn raw_text(v: Option<Value>) -> Seq<char> {
    match v {
        None => seq!['N', 'U', 'L', 'L'],
        Some(Value::Null) => seq!['N', 'U', 'L', 'L'],
        Some(Value::Bool(b)) => if b {
            seq!['1']
        } else {
            seq!['0']
        },
        Some(Value::Int(i)) => int_text(i as int),
        Some(Value::Decimal(t)) => t@,
        Some(Value::Str(s)) => s@,
        Some(x) => json_text(x),
    }
}

/// The text that `#{..}` puts in place of a value, or of a missing one:
/// strings and structured values become quoted literals.
pub open spec fn quoted_text(v: Option<Value>) -> Seq<char> {
    match v {
        Some(Value::Str(s)) => seq!['\''] + quote_doubled(s@) + seq!['\''],
        Some(Value::Array(a)) => seq!['\''] + json_text(Value::Array(a)) + seq!['\''],
        Some(Value::Object(f)) => seq!['\''] + json_text(Value::Object(f)) + seq!['\''],
        _ => raw_text(v),
    }
}

fn quote_doubled_chars(s: &String, out: &mut Vec<char>)
    ensures
        final(out)@ == old(out)@ + quote_doubled(s@),
{
    let cs = chars_of(s.as_str());
    let ghost start = out@;
    let mut i: usize = 0;
    while i < cs.len()
        invariant
            i <= cs.len(),
            cs@ == s@,
            out@ == start + quote_doubled(cs@.subrange(0, i as int)),
        decreases cs.len() - i,
    {
        assert(cs@.subrange(0, i + 1).drop_last() =~= cs@.subrange(0, i as int));
        if cs[i] == '\'' {
            out.push('\'');
            out.push('\'');
        } else {
            out.push(cs[i]);
        }
        i = i + 1;
        assert(out@ =~= start + quote_doubled(cs@.subrange(0, i as int)));
    }
    assert(cs@.subrange(0, cs.len() as int) =~= cs@);
}

pub open spec fn opt_value(v: Option<&Value>) -> Option<Value> {
    match v {
        Some(x) => Some(*x),
        None => None,
    }
}

/// Appends the text that `${..}` (when `quoted` is false) or `#{..}` (when
/// it is true) puts in place of `v`.
pub fn render_value(v: Option<&Value>, quoted: bool, out: &mut Vec<char>)
    ensures
        final(out)@ == old(out)@ + (if quoted {
            quoted_text(opt_value(v))
        } else {
            raw_text(opt_value(v))
        }),
{
    match v {
        None => {
            out.push('N');
            out.push('U');
            out.push('L');
            out.push('L');
        },
        Some(Value::Null) => {
            out.push('N');
            out.push('U');
            out.push('L');
            out.push('L');
        },
        Some(Value::Bool(b)) => {
            out.push(if *b { '1' } else { '0' });
        },
        Some(Value::Int(i)) => {
            let t = int_chars(*i);
            extend_chars(out, &t);
        },
        Some(Value::Decimal(t)) => {
            let t = chars_of(t.as_str());
            extend_chars(out, &t);
        },
        Some(Value::Str(s)) => {
            if quoted {
                out.push('\'');
                quote_doubled_chars(s, out);
                out.push('\'');
            } else {
                let t = chars_of(s.as_str());
                extend_chars(out, &t);
            }
        },
        Some(x) => {
            if quoted {
                out.push('\'');
                json_chars(x, out);
                out.push('\'');
            } else {
                json_chars(x, out);
            }
        },
    }
    assert(final(out)@ =~= old(out)@ + (if quoted {
        quoted_text(opt_value(v))
    } else {
        raw_text(opt_value(v))
    }));
}

} // verus!
