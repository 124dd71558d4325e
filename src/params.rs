//! Parameter environments and the lookups the generator makes in them.
use vstd::prelude::*;
use crate::text::{chars_of, chars_eq, sub_chars};
use crate::value::{Value, opt_value};

verus! {

/// A parameter environment.
#[derive(Debug)]
pub enum Params {
    /// Named values; a dotted key reads through nested objects. Where a name
    /// repeats, the last binding counts.
    Object(Vec<(String, Value)>),
    /// Named sequences of values; only collections can be read from it.
    Collections(Vec<(String, Vec<Value>)>),
}

/// What an environment binds, as the generator sees it.
pub enum Env {
    Object(Seq<(Seq<char>, Value)>),
    Collections(Seq<(Seq<char>, Seq<Value>)>),
}

impl View for Params {
    type V = Env;

    open spec fn view(&self) -> Env {
        match self {
            Params::Object(b) => Env::Object(
                params_bindings(b@),
            ),
            Params::Collections(c) => Env::Collections(
                collections_view(c@),
            ),
        }
    }
}

impl Params {
    /// An empty object-map environment.
    pub fn new_object() -> (r: Params)
        ensures
            r@ == Env::Object(Seq::empty()),
    {
        let r = Params::Object(Vec::new());
        proof {
            if let Env::Object(b) = r@ {
                assert(b =~= Seq::empty());
            }
        }
        r
    }

    /// An empty collection-map environment.
    pub fn new_collections() -> (r: Params)
        ensures
            r@ == Env::Collections(Seq::empty()),
    {
        let r = Params::Collections(Vec::new());
        proof {
            if let Env::Collections(c) = r@ {
                assert(c =~= Seq::empty());
            }
        }
        r
    }
}

pub open spec fn params_bindings(b: Seq<(String, Value)>) -> Seq<(Seq<char>, Value)> {
    b.map_values(|e: (String, Value)| (e.0@, e.1))
}

pub open spec fn collections_view(c: Seq<(String, Vec<Value>)>) -> Seq<(Seq<char>, Seq<Value>)> {
    c.map_values(|e: (String, Vec<Value>)| (e.0@, e.1@))
}

pub open spec fn scope_bindings<'a>(b: Seq<(&'a str, &'a Value)>) -> Seq<(Seq<char>, Value)> {
    b.map_values(|e: (&'a str, &'a Value)| (e.0@, *e.1))
}

/// The last binding of `k` in `b`.
pub open spec fn binding_of(b: Seq<(Seq<char>, Value)>, k: Seq<char>) -> Option<Value>
    decreases b.len(),
{
    if b.len() == 0 {
        None
    } else if b.last().0 == k {
        Some(b.last().1)
    } else {
        binding_of(b.drop_last(), k)
    }
}

/// The last binding of `k` in a collection map.
pub open spec fn collection_binding_of(c: Seq<(Seq<char>, Seq<Value>)>, k: Seq<char>) -> Option<
    Seq<Value>,
>
    decreases c.len(),
{
    if c.len() == 0 {
        None
    } else if c.last().0 == k {
        Some(c.last().1)
    } else {
        collection_binding_of(c.drop_last(), k)
    }
}

/// The field `k` of an object's fields; the last one where the name repeats.
pub open spec fn field_of(f: Seq<(String, Value)>, k: Seq<char>) -> Option<Value>
    decreases f.len(),
{
    if f.len() == 0 {
        None
    } else if f.last().0@ == k {
        Some(f.last().1)
    } else {
        field_of(f.drop_last(), k)
    }
}

/// The index of the first `c` in `s`, or `s.len()` when there is none.
pub open spec fn index_of(s: Seq<char>, c: char) -> int
    decreases s.len(),
{
    if s.len() == 0 {
        0
    } else if s[0] == c {
        0
    } else {
        1 + index_of(s.drop_first(), c)
    }
}

/// Reads the dotted path `r` inside `v`: each segment names a field of an object.
pub open spec fn descend(v: Value, r: Seq<char>) -> Option<Value>
    decreases r.len()
    via descend_decreases
{
    let d = index_of(r, '.');
    match v {
        Value::Object(f) => match field_of(f@, r.subrange(0, d)) {
            Some(c) => if d >= r.len() {
                Some(c)
            } else {
                descend(c, r.subrange(d + 1, r.len() as int))
            },
            None => None,
        },
        _ => None,
    }
}

/// The value a (possibly dotted) key names in an environment.
pub open spec fn param_of(env: Env, key: Seq<char>) -> Option<Value> {
    match env {
        Env::Collections(_) => None,
        Env::Object(b) => {
            let d = index_of(key, '.');
            if d >= key.len() {
                binding_of(b, key)
            } else {
                match binding_of(b, key.subrange(0, d)) {
                    Some(v) => descend(v, key.subrange(d + 1, key.len() as int)),
                    None => None,
                }
            }
        },
    }
}

/// The collection a key names: an array bound to it, or the sequence a
/// collection map holds for it.
pub open spec fn collection_of(env: Env, key: Seq<char>) -> Option<Seq<Value>> {
    match env {
        Env::Object(b) => match binding_of(b, key) {
            Some(Value::Array(items)) => Some(items@),
            _ => None,
        },
        Env::Collections(c) => collection_binding_of(c, key),
    }
}

/// The bindings a child environment starts from.
pub open spec fn inherited(env: Env) -> Seq<(Seq<char>, Value)> {
    match env {
        Env::Object(b) => b,
        Env::Collections(_) => Seq::empty(),
    }
}

/// The environment of one iteration: the parent's bindings, then the item,
/// then the index when there is one.
pub open spec fn child_env(env: Env, item: Seq<char>, index: Option<Seq<char>>, v: Value, i: int) -> Env {
    let b = inherited(env).push((item, v));
    match index {
        Some(x) => Env::Object(b.push((x, Value::Int(i as i64)))),
        None => Env::Object(b),
    }
}

pub proof fn lemma_index_of_bounds(s: Seq<char>, c: char)
    ensures
        0 <= index_of(s, c) <= s.len(),
    decreases s.len(),
{
    if s.len() > 0 && s[0] != c {
        lemma_index_of_bounds(s.drop_first(), c);
    }
}

#[via_fn]
proof fn descend_decreases(v: Value, r: Seq<char>) {
    lemma_index_of_bounds(r, '.');
}

pub proof fn lemma_index_of(s: Seq<char>, c: char, i: int)
    requires
        0 <= i <= s.len(),
        forall|k: int| 0 <= k < i ==> s[k] != c,
        i == s.len() || s[i] == c,
    ensures
        index_of(s, c) == i,
    decreases s.len(),
{
    if s.len() > 0 && s[0] != c {
        assert forall|k: int| 0 <= k < i - 1 implies s.drop_first()[k] != c by {
            assert(s[k + 1] != c);
        }
        lemma_index_of(s.drop_first(), c, i - 1);
    }
}

/// The index of the first `c` in `v`, or `v.len()`.
pub fn find_char(v: &Vec<char>, c: char) -> (r: usize)
    ensures
        r as int == index_of(v@, c),
        r <= v.len(),
{
    let mut i: usize = 0;
    while i < v.len() && v[i] != c
        invariant
            i <= v.len(),
            forall|k: int| 0 <= k < i ==> v@[k] != c,
        decreases v.len() - i,
    {
        i = i + 1;
    }
    proof {
        lemma_index_of(v@, c, i as int);
    }
    i
}

/// The index of the first `c` at or after `from` in `v`, or `v.len()`.
pub fn find_char_from(v: &Vec<char>, c: char, from: usize) -> (r: usize)
    requires
        from <= v.len(),
    ensures
        r as int == from + index_of(v@.subrange(from as int, v.len() as int), c),
        from <= r <= v.len(),
{
    let mut i: usize = from;
    while i < v.len() && v[i] != c
        invariant
            from <= i <= v.len(),
            forall|k: int| from <= k < i ==> v@[k] != c,
        decreases v.len() - i,
    {
        i = i + 1;
    }
    proof {
        let t = v@.subrange(from as int, v.len() as int);
        assert forall|k: int| 0 <= k < i - from implies t[k] != c by {
            assert(v@[from + k] != c);
        }
        lemma_index_of(t, c, i - from);
    }
    i
}

/// The bindings a lookup sees while generating: borrowed names and values.
pub struct Scope<'a> {
    pub bindings: Vec<(&'a str, &'a Value)>,
    pub collections: Option<&'a Vec<(String, Vec<Value>)>>,
}

impl<'a> View for Scope<'a> {
    type V = Env;

    open spec fn view(&self) -> Env {
        match self.collections {
            Some(c) => Env::Collections(collections_view(c@)),
            None => Env::Object(
                scope_bindings(self.bindings@),
            ),
        }
    }
}

impl<'a> Scope<'a> {
    /// The scope that reads `p`.
    pub fn of_params(p: &'a Params) -> (r: Scope<'a>)
        ensures
            r@ == p@,
    {
        match p {
            Params::Object(b) => {
                let mut out: Vec<(&'a str, &'a Value)> = Vec::new();
                let mut i: usize = 0;
                while i < b.len()
                    invariant
                        i <= b.len(),
                        out.len() == i,
                        forall|k: int|
                            0 <= k < i ==> (#[trigger] out@[k]).0@ == b@[k].0@ && *out@[k].1
                                == b@[k].1,
                    decreases b.len() - i,
                {
                    out.push((b[i].0.as_str(), &b[i].1));
                    i = i + 1;
                }
                let r = Scope { bindings: out, collections: None };
                assert(scope_bindings(r.bindings@)
                    =~= params_bindings(b@));
                r
            },
            Params::Collections(c) => Scope { bindings: Vec::new(), collections: Some(c) },
        }
    }

    /// The scope of one iteration (see `child_env`).
    pub fn child<'b>(
        &self,
        item: &'b str,
        index: Option<&'b str>,
        v: &'b Value,
        iv: &'b Value,
        i: usize,
    ) -> (r: Scope<'b>) where 'a: 'b
        requires
            *iv == Value::Int(i as i64),
        ensures
            r@ == child_env(self@, item@, opt_str(index), *v, i as int),
    {
        let mut out: Vec<(&'b str, &'b Value)> = Vec::new();
        if self.collections.is_none() {
            let mut k: usize = 0;
            while k < self.bindings.len()
                invariant
                    k <= self.bindings.len(),
                    out@ =~= self.bindings@.subrange(0, k as int),
                decreases self.bindings.len() - k,
            {
                out.push(self.bindings[k]);
                k = k + 1;
            }
            assert(self.bindings@.subrange(0, self.bindings.len() as int) =~= self.bindings@);
        }
        let ghost base = out@;
        out.push((item, v));
        match index {
            Some(x) => {
                out.push((x, iv));
            },
            None => {},
        }
        let r = Scope { bindings: out, collections: None };
        proof {
            assert(scope_bindings(base) =~= inherited(self@));
            match index {
                Some(x) => {
                    assert(scope_bindings(r.bindings@) =~= inherited(self@).push((item@, *v)).push(
                        (x@, Value::Int(i as i64)),
                    ));
                },
                None => {
                    assert(scope_bindings(r.bindings@) =~= inherited(self@).push((item@, *v)));
                },
            }
        }
        r
    }
}

pub open spec fn opt_items(s: Option<&Vec<Value>>) -> Option<Seq<Value>> {
    match s {
        Some(x) => Some(x@),
        None => None,
    }
}

/// The field `k` of `f`.
pub fn field_get<'v>(f: &'v Vec<(String, Value)>, k: &Vec<char>) -> (r: Option<&'v Value>)
    ensures
        opt_value(r) == field_of(f@, k@),
{
    let mut j = f.len();
    assert(f@.subrange(0, j as int) =~= f@);
    while j > 0
        invariant
            j <= f.len(),
            field_of(f@, k@) == field_of(f@.subrange(0, j as int), k@),
        decreases j,
    {
        assert(f@.subrange(0, j as int).drop_last() =~= f@.subrange(0, j - 1));
        let name = chars_of(f[j - 1].0.as_str());
        if chars_eq(&name, k) {
            return Some(&f[j - 1].1);
        }
        j = j - 1;
    }
    None
}

/// Reads the dotted path `r` inside `v` (see `descend`).
pub fn descend_get<'v>(v: &'v Value, r: &Vec<char>) -> (res: Option<&'v Value>)
    ensures
        opt_value(res) == descend(*v, r@),
    decreases r.len(),
{
    let d = find_char(r, '.');
    let seg = sub_chars(r, 0, d);
    match v {
        Value::Object(f) => match field_get(f, &seg) {
            Some(c) => {
                if d >= r.len() {
                    Some(c)
                } else {
                    let rest = sub_chars(r, d + 1, r.len());
                    descend_get(c, &rest)
                }
            },
            None => None,
        },
        _ => None,
    }
}

impl<'a> Scope<'a> {
    /// The last binding of `k`, ignoring collections.
    fn binding(&self, k: &Vec<char>) -> (r: Option<&'a Value>)
        ensures
            opt_value(r) == binding_of(
                scope_bindings(self.bindings@),
                k@,
            ),
    {
        let ghost bv = scope_bindings(self.bindings@);
        let mut j = self.bindings.len();
        assert(bv.subrange(0, j as int) =~= bv);
        while j > 0
            invariant
                j <= self.bindings.len(),
                bv == scope_bindings(self.bindings@),
                binding_of(bv, k@) == binding_of(bv.subrange(0, j as int), k@),
            decreases j,
        {
            assert(bv.subrange(0, j as int).drop_last() =~= bv.subrange(0, j - 1));
            assert(bv[j - 1] == (self.bindings@[j - 1].0@, *self.bindings@[j - 1].1));
            let name = chars_of(self.bindings[j - 1].0);
            if chars_eq(&name, k) {
                return Some(self.bindings[j - 1].1);
            }
            j = j - 1;
        }
        None
    }

    /// The value a (possibly dotted) key names.
    pub fn get_param(&self, key: &Vec<char>) -> (r: Option<&'a Value>)
        ensures
            opt_value(r) == param_of(self@, key@),
    {
        if self.collections.is_some() {
            return None;
        }
        let d = find_char(key, '.');
        if d >= key.len() {
            self.binding(key)
        } else {
            let first = sub_chars(key, 0, d);
            match self.binding(&first) {
                Some(v) => {
                    let rest = sub_chars(key, d + 1, key.len());
                    descend_get(v, &rest)
                },
                None => None,
            }
        }
    }

    /// The collection a key names (see `collection_of`).
    pub fn get_collection(&self, key: &Vec<char>) -> (r: Option<&'a Vec<Value>>)
        ensures
            opt_items(r) == collection_of(self@, key@),
    {
        match self.collections {
            Some(c) => {
                let ghost cv = collections_view(c@);
                let mut j = c.len();
                assert(cv.subrange(0, j as int) =~= cv);
                while j > 0
                    invariant
                        j <= c.len(),
                        cv == collections_view(c@),
                        self.collections == Some(c),
                        collection_binding_of(cv, key@) == collection_binding_of(
                            cv.subrange(0, j as int),
                            key@,
                        ),
                    decreases j,
                {
                    assert(cv.subrange(0, j as int).drop_last() =~= cv.subrange(0, j - 1));
                    assert(cv[j - 1] == (c@[j - 1].0@, c@[j - 1].1@));
                    let name = chars_of(c[j - 1].0.as_str());
                    if chars_eq(&name, key) {
                        return Some(&c[j - 1].1);
                    }
                    j = j - 1;
                }
                None
            },
            None => match self.binding(key) {
                Some(Value::Array(items)) => Some(items),
                _ => None,
            },
        }
    }
}

impl Params {
    /// The value a (possibly dotted) key names; always none in a collection map.
    pub fn get_param(&self, key: &str) -> (r: Option<&Value>)
        ensures
            opt_value(r) == param_of(self@, key@),
    {
        let scope = Scope::of_params(self);
        let k = chars_of(key);
        scope.get_param(&k)
    }

    /// The collection a key names (see `collection_of`).
    pub fn get_collection(&self, key: &str) -> (r: Option<&Vec<Value>>)
        ensures
            opt_items(r) == collection_of(self@, key@),
    {
        let scope = Scope::of_params(self);
        let k = chars_of(key);
        scope.get_collection(&k)
    }

    /// Binds `key` to `v` in an object map, over any earlier binding of it.
    /// A collection map is left as it is.
    pub fn insert_value(&mut self, key: String, v: Value)
        ensures
            match old(self)@ {
                Env::Object(b) => final(self)@ == Env::Object(b.push((key@, v))),
                Env::Collections(_) => final(self)@ == old(self)@,
            },
    {
        match self {
            Params::Object(b) => {
                let ghost pre = b@;
                b.push((key, v));
                assert(params_bindings(b@) =~= params_bindings(pre).push((key@, v)));
            },
            Params::Collections(_) => {},
        }
    }

    /// Binds `key` to the sequence `vs` in a collection map, over any earlier
    /// binding of it. An object map is left as it is.
    pub fn insert_collection(&mut self, key: String, vs: Vec<Value>)
        ensures
            match old(self)@ {
                Env::Collections(c) => final(self)@ == Env::Collections(c.push((key@, vs@))),
                Env::Object(_) => final(self)@ == old(self)@,
            },
    {
        match self {
            Params::Collections(c) => {
                let ghost pre = c@;
                c.push((key, vs));
                assert(collections_view(c@) =~= collections_view(pre).push((key@, vs@)));
            },
            Params::Object(_) => {},
        }
    }
}

pub open spec fn opt_str(s: Option<&str>) -> Option<Seq<char>> {
    match s {
        Some(x) => Some(x@),
        None => None,
    }
}

} // verus!
