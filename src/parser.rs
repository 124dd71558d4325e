//! From the events of a mapper document to a `Mapper`.
use vstd::prelude::*;
use vstd::string::StringSliceAdditionalSpecFns;
use crate::text::{trim, is_blank, chars_of, chars_eq, sub_chars, trim_chars, string_of, blank, extend_chars};
use crate::params::{index_of, find_char_from};
use crate::model::{
    Mapper, SqlStatement, ResultMap, ResultColumn, mapper_view, statement_view, result_map_view,
    column_view, DynamicSqlNode, nodes_view, node_view, whens_view, lemma_nodes_view_push,
    lemma_whens_view_push, NodeModel, StatementModel, StatementType, ColumnModel, ResultMapModel, MapperModel,
};
use crate::xml::{XmlEvent, Tag, ParseError, read_events, document_events};

verus! {

/// What a failed parse reports: the element, and the attribute it lacks.
pub type Missing = (Seq<char>, Seq<char>);

/// The value of the first attribute called `name`.
pub open spec fn attr_of(attrs: Seq<(String, String)>, name: Seq<char>) -> Option<Seq<char>>
    decreases attrs.len(),
{
    if attrs.len() == 0 {
        None
    } else if attrs[0].0@ == name {
        Some(attrs[0].1@)
    } else {
        attr_of(attrs.drop_first(), name)
    }
}

pub open spec fn attr_or_empty(attrs: Seq<(String, String)>, name: Seq<char>) -> Seq<char> {
    match attr_of(attrs, name) {
        Some(v) => v,
        None => Seq::empty(),
    }
}

/// The literal token an unknown element leaves in the text: `<name/>`.
pub open spec fn element_token(name: Seq<char>) -> Seq<char> {
    seq!['<'] + name + seq!['/', '>']
}

/// The nodes, the direct text and the position after a body that starts at
/// `pos`, given what came before it. A body ends at an end tag (consumed), at
/// the end of the document, or when `fuel` runs out.
pub open spec fn parse_body(
    evs: Seq<XmlEvent>,
    pos: int,
    fuel: nat,
    nodes: Seq<NodeModel>,
    text: Seq<char>,
) -> Result<(Seq<NodeModel>, Seq<char>, int), Missing>
    decreases fuel, 0nat,
{
    if fuel == 0 || pos < 0 || pos >= evs.len() {
        Ok((nodes, text, pos))
    } else {
        match evs[pos] {
            XmlEvent::End(_) => Ok((nodes, text, pos + 1)),
            XmlEvent::Eof => Ok((nodes, text, pos)),
            XmlEvent::Other => parse_body(evs, pos + 1, (fuel - 1) as nat, nodes, text),
            XmlEvent::Text(t) => parse_body(
                evs,
                pos + 1,
                (fuel - 1) as nat,
                if is_blank(t@) {
                    nodes
                } else {
                    nodes.push(NodeModel::Text(t@))
                },
                text + t@,
            ),
            XmlEvent::Start(tag) => match element(evs, pos, (fuel - 1) as nat, tag, true) {
                Ok((ns, tx, next)) => parse_body(evs, next, (fuel - 1) as nat, nodes + ns, text + tx),
                Err(e) => Err(e),
            },
            XmlEvent::Empty(tag) => match element(evs, pos, (fuel - 1) as nat, tag, false) {
                Ok((ns, tx, next)) => parse_body(evs, next, (fuel - 1) as nat, nodes + ns, text + tx),
                Err(e) => Err(e),
            },
        }
    }
}

/// The body of the element at `pos`: parsed when it has one, else empty.
pub open spec fn body_of(evs: Seq<XmlEvent>, pos: int, fuel: nat, has_body: bool) -> Result<
    (Seq<NodeModel>, Seq<char>, int),
    Missing,
>
    decreases fuel, 1nat,
{
    if has_body {
        parse_body(evs, pos + 1, fuel, Seq::empty(), Seq::empty())
    } else {
        Ok((Seq::empty(), Seq::empty(), pos + 1))
    }
}

/// What the element `tag` at `pos` adds to the body it stands in: its nodes,
/// its text, and the position after it.
pub open spec fn element(evs: Seq<XmlEvent>, pos: int, fuel: nat, tag: Tag, has_body: bool) -> Result<
    (Seq<NodeModel>, Seq<char>, int),
    Missing,
>
    decreases fuel, 2nat,
{
    let name = tag.name@;
    let attrs = tag.attrs@;
    if name == "if"@ {
        match attr_of(attrs, "test"@) {
            None => Err(("if"@, "test"@)),
            Some(t) => match body_of(evs, pos, fuel, has_body) {
                Ok((ns, _, e)) => Ok((seq![NodeModel::If { test: trim(t), contents: ns }], Seq::empty(), e)),
                Err(x) => Err(x),
            },
        }
    } else if name == "include"@ {
        match attr_of(attrs, "refid"@) {
            None => Err(("include"@, "refid"@)),
            Some(r) => Ok(
                (
                    seq![NodeModel::Include { ref_id: r }],
                    Seq::empty(),
                    if has_body {
                        pos + 2
                    } else {
                        pos + 1
                    },
                ),
            ),
        }
    } else if name == "foreach"@ {
        match attr_of(attrs, "collection"@) {
            None => Err(("foreach"@, "collection"@)),
            Some(c) => match body_of(evs, pos, fuel, has_body) {
                Ok((ns, _, e)) => Ok(
                    (
                        seq![
                            NodeModel::Foreach {
                                collection: c,
                                item: attr_or_empty(attrs, "item"@),
                                index: attr_of(attrs, "index"@),
                                open: attr_or_empty(attrs, "open"@),
                                separator: attr_or_empty(attrs, "separator"@),
                                close: attr_or_empty(attrs, "close"@),
                                contents: ns,
                            },
                        ],
                        Seq::empty(),
                        e,
                    ),
                ),
                Err(x) => Err(x),
            },
        }
    } else if name == "choose"@ {
        if has_body {
            match parse_choose(evs, pos + 1, fuel, Seq::empty(), None) {
                Ok((ws, ow, e)) => Ok(
                    (seq![NodeModel::Choose { whens: ws, otherwise: ow }], Seq::empty(), e),
                ),
                Err(x) => Err(x),
            }
        } else {
            Ok(
                (
                    seq![NodeModel::Choose { whens: Seq::empty(), otherwise: None }],
                    Seq::empty(),
                    pos + 1,
                ),
            )
        }
    } else if name == "bind"@ {
        match (attr_of(attrs, "name"@), attr_of(attrs, "value"@)) {
            (None, _) => Err(("bind"@, "name"@)),
            (_, None) => Err(("bind"@, "value"@)),
            (Some(n), Some(v)) => match body_of(evs, pos, fuel, has_body) {
                Ok((_, _, e)) => Ok((seq![NodeModel::Bind { name: n, value: v }], Seq::empty(), e)),
                Err(x) => Err(x),
            },
        }
    } else {
        match body_of(evs, pos, fuel, has_body) {
            Ok((ns, tx, e)) => if name == "trim"@ {
                Ok(
                    (
                        seq![
                            NodeModel::Trim {
                                prefix: attr_of(attrs, "prefix"@),
                                prefix_overrides: attr_of(attrs, "prefixOverrides"@),
                                suffix: attr_of(attrs, "suffix"@),
                                suffix_overrides: attr_of(attrs, "suffixOverrides"@),
                                contents: ns,
                            },
                        ],
                        Seq::empty(),
                        e,
                    ),
                )
            } else if name == "where"@ {
                Ok(
                    (
                        seq![
                            NodeModel::Where {
                                prefix_overrides: None,
                                suffix_overrides: None,
                                contents: ns,
                            },
                        ],
                        Seq::empty(),
                        e,
                    ),
                )
            } else if name == "set"@ {
                Ok(
                    (
                        seq![
                            NodeModel::SetClause {
                                prefix_overrides: None,
                                suffix_overrides: None,
                                contents: ns,
                            },
                        ],
                        Seq::empty(),
                        e,
                    ),
                )
            } else {
                Ok((ns, element_token(name) + tx, e))
            },
            Err(x) => Err(x),
        }
    }
}

/// The branches of a `choose` whose children start at `pos`, given those
/// already read: each `when` in order, and the last `otherwise`. Other
/// content is passed over.
pub open spec fn parse_choose(
    evs: Seq<XmlEvent>,
    pos: int,
    fuel: nat,
    whens: Seq<(Seq<char>, Seq<NodeModel>)>,
    otherwise: Option<Seq<NodeModel>>,
) -> Result<(Seq<(Seq<char>, Seq<NodeModel>)>, Option<Seq<NodeModel>>, int), Missing>
    decreases fuel, 0nat,
{
    if fuel == 0 || pos < 0 || pos >= evs.len() {
        Ok((whens, otherwise, pos))
    } else {
        match evs[pos] {
            XmlEvent::End(_) => Ok((whens, otherwise, pos + 1)),
            XmlEvent::Eof => Ok((whens, otherwise, pos)),
            XmlEvent::Start(tag) => choose_child(evs, pos, (fuel - 1) as nat, whens, otherwise, tag, true),
            XmlEvent::Empty(tag) => choose_child(evs, pos, (fuel - 1) as nat, whens, otherwise, tag, false),
            _ => parse_choose(evs, pos + 1, (fuel - 1) as nat, whens, otherwise),
        }
    }
}

pub open spec fn choose_child(
    evs: Seq<XmlEvent>,
    pos: int,
    fuel: nat,
    whens: Seq<(Seq<char>, Seq<NodeModel>)>,
    otherwise: Option<Seq<NodeModel>>,
    tag: Tag,
    has_body: bool,
) -> Result<(Seq<(Seq<char>, Seq<NodeModel>)>, Option<Seq<NodeModel>>, int), Missing>
    decreases fuel, 2nat,
{
    if tag.name@ == "when"@ {
        match attr_of(tag.attrs@, "test"@) {
            None => Err(("when"@, "test"@)),
            Some(t) => match body_of(evs, pos, fuel, has_body) {
                Ok((ns, _, e)) => parse_choose(evs, e, fuel, whens.push((trim(t), ns)), otherwise),
                Err(x) => Err(x),
            },
        }
    } else {
        match body_of(evs, pos, fuel, has_body) {
            Ok((ns, _, e)) => parse_choose(
                evs,
                e,
                fuel,
                whens,
                if tag.name@ == "otherwise"@ {
                    Some(ns)
                } else {
                    otherwise
                },
            ),
            Err(x) => Err(x),
        }
    }
}

/// The names of the `#{..}` placeholders of `s` in order, repeats included:
/// what stands before the first `:` or `,` inside the braces, trimmed. A
/// `#{` that no `}` closes names nothing.
pub open spec fn raw_param_names(s: Seq<char>) -> Seq<Seq<char>>
    decreases s.len(),
{
    if s.len() < 2 {
        Seq::empty()
    } else if s[0] == '#' && s[1] == '{' {
        let inner = s.subrange(2, s.len() as int);
        let d = index_of(inner, '}');
        if 0 <= d < inner.len() {
            let body = inner.subrange(0, d);
            let name = trim(body.subrange(0, name_end(body)));
            (if name.len() > 0 {
                seq![name]
            } else {
                Seq::empty()
            }) + raw_param_names(inner.subrange(d + 1, inner.len() as int))
        } else {
            Seq::empty()
        }
    } else {
        raw_param_names(s.drop_first())
    }
}

/// Where the name part of a placeholder ends: at the first `:` or `,`.
pub open spec fn name_end(b: Seq<char>) -> int
    decreases b.len(),
{
    if b.len() == 0 {
        0
    } else if b[0] == ':' || b[0] == ',' {
        0
    } else {
        1 + name_end(b.drop_first())
    }
}

/// `s` without repeats, first occurrences kept in order.
pub open spec fn dedup(s: Seq<Seq<char>>) -> Seq<Seq<char>>
    decreases s.len(),
{
    if s.len() == 0 {
        Seq::empty()
    } else if dedup(s.drop_last()).contains(s.last()) {
        dedup(s.drop_last())
    } else {
        dedup(s.drop_last()).push(s.last())
    }
}

pub open spec fn param_names(s: Seq<char>) -> Seq<Seq<char>> {
    dedup(raw_param_names(s))
}

/// The kind a statement element names.
pub open spec fn statement_kind(name: Seq<char>) -> Option<StatementType> {
    if name == "select"@ {
        Some(StatementType::Select)
    } else if name == "insert"@ {
        Some(StatementType::Insert)
    } else if name == "update"@ {
        Some(StatementType::Update)
    } else if name == "delete"@ {
        Some(StatementType::Delete)
    } else {
        None
    }
}

/// One node as it is; several inside a bare `Trim`; none as nothing.
pub open spec fn wrap_nodes(ns: Seq<NodeModel>) -> Option<NodeModel> {
    if ns.len() == 0 {
        None
    } else if ns.len() == 1 {
        Some(ns[0])
    } else {
        Some(
            NodeModel::Trim {
                prefix: None,
                prefix_overrides: None,
                suffix: None,
                suffix_overrides: None,
                contents: ns,
            },
        )
    }
}

pub open spec fn make_statement(
    kind: StatementType,
    id: Seq<char>,
    attrs: Seq<(String, String)>,
    ns: Seq<NodeModel>,
    text: Seq<char>,
) -> StatementModel {
    StatementModel {
        id,
        stmt_type: Some(kind),
        parameter_type: attr_of(attrs, "parameterType"@),
        result_type: attr_of(attrs, "resultType"@),
        result_map: attr_of(attrs, "resultMap"@),
        sql: text,
        dynamic_sql: wrap_nodes(ns),
        parameters: param_names(text),
    }
}

pub open spec fn make_column(attrs: Seq<(String, String)>) -> ColumnModel {
    ColumnModel {
        property: attr_or_empty(attrs, "property"@),
        column: attr_or_empty(attrs, "column"@),
        java_type: attr_of(attrs, "javaType"@),
        jdbc_type: attr_of(attrs, "jdbcType"@),
    }
}

/// The index of the first entry whose id is `id`, or `s.len()`.
pub open spec fn id_index<T>(s: Seq<T>, id: Seq<char>, key: spec_fn(T) -> Seq<char>) -> int
    decreases s.len(),
{
    if s.len() == 0 {
        0
    } else if key(s[0]) == id {
        0
    } else {
        1 + id_index(s.drop_first(), id, key)
    }
}

/// `s` with the entry of the same id replaced by `x`, or `x` added at the
/// end when there is none.
pub open spec fn upsert<T>(s: Seq<T>, x: T, key: spec_fn(T) -> Seq<char>) -> Seq<T> {
    let i = id_index(s, key(x), key);
    if 0 <= i < s.len() {
        s.update(i, x)
    } else {
        s.push(x)
    }
}

pub open spec fn statement_key() -> spec_fn(StatementModel) -> Seq<char> {
    |s: StatementModel| s.id
}

pub open spec fn fragment_key() -> spec_fn((Seq<char>, Seq<NodeModel>)) -> Seq<char> {
    |f: (Seq<char>, Seq<NodeModel>)| f.0
}

pub open spec fn result_map_key() -> spec_fn(ResultMapModel) -> Seq<char> {
    |r: ResultMapModel| r.id
}

/// Passes over the rest of an element whose start tag is already read, with
/// `depth` elements open; the position after the end tag that closes them.
pub open spec fn skip_element(evs: Seq<XmlEvent>, pos: int, fuel: nat, depth: nat) -> int
    decreases fuel,
{
    if fuel == 0 || pos < 0 || pos >= evs.len() {
        pos
    } else {
        match evs[pos] {
            XmlEvent::Start(_) => skip_element(evs, pos + 1, (fuel - 1) as nat, depth + 1),
            XmlEvent::End(_) => if depth <= 1 {
                pos + 1
            } else {
                skip_element(evs, pos + 1, (fuel - 1) as nat, (depth - 1) as nat)
            },
            XmlEvent::Eof => pos,
            _ => skip_element(evs, pos + 1, (fuel - 1) as nat, depth),
        }
    }
}

/// The columns of a result map whose children start at `pos`: each `result`
/// element (the event after a non-empty one is passed over); other elements
/// are skipped whole.
pub open spec fn parse_columns(evs: Seq<XmlEvent>, pos: int, fuel: nat, cols: Seq<ColumnModel>) -> (
    Seq<ColumnModel>,
    int,
)
    decreases fuel,
{
    if fuel == 0 || pos < 0 || pos >= evs.len() {
        (cols, pos)
    } else {
        match evs[pos] {
            XmlEvent::Start(tag) => if tag.name@ == "result"@ {
                parse_columns(evs, pos + 2, (fuel - 1) as nat, cols.push(make_column(tag.attrs@)))
            } else {
                parse_columns(
                    evs,
                    skip_element(evs, pos + 1, (fuel - 1) as nat, 1),
                    (fuel - 1) as nat,
                    cols,
                )
            },
            XmlEvent::Empty(tag) => if tag.name@ == "result"@ {
                parse_columns(evs, pos + 1, (fuel - 1) as nat, cols.push(make_column(tag.attrs@)))
            } else {
                parse_columns(evs, pos + 1, (fuel - 1) as nat, cols)
            },
            XmlEvent::End(_) => (cols, pos + 1),
            XmlEvent::Eof => (cols, pos),
            _ => parse_columns(evs, pos + 1, (fuel - 1) as nat, cols),
        }
    }
}

pub open spec fn empty_mapper() -> MapperModel {
    MapperModel {
        namespace: Seq::empty(),
        statements: Seq::empty(),
        result_maps: Seq::empty(),
        fragments: Seq::empty(),
    }
}

/// What one top-level element does: whether a mapper element is open now,
/// the mapper so far, and the position after the element.
pub open spec fn top_element(
    evs: Seq<XmlEvent>,
    pos: int,
    fuel: nat,
    in_mapper: bool,
    m: MapperModel,
    tag: Tag,
    has_body: bool,
) -> Result<(bool, MapperModel, int), Missing> {
    let name = tag.name@;
    let attrs = tag.attrs@;
    if name == "mapper"@ || name == "sqlmap"@ {
        Ok(
            (
                true,
                match attr_of(attrs, "namespace"@) {
                    Some(ns) => MapperModel { namespace: ns, ..m },
                    None => m,
                },
                pos + 1,
            ),
        )
    } else if in_mapper && statement_kind(name) is Some {
        match attr_of(attrs, "id"@) {
            None => Err((name, "id"@)),
            Some(id) => match body_of(evs, pos, fuel, has_body) {
                Ok((ns, tx, e)) => Ok(
                    (
                        true,
                        MapperModel {
                            statements: upsert(
                                m.statements,
                                make_statement(statement_kind(name)->0, id, attrs, ns, tx),
                                statement_key(),
                            ),
                            ..m
                        },
                        e,
                    ),
                ),
                Err(x) => Err(x),
            },
        }
    } else if in_mapper && name == "sql"@ {
        match attr_of(attrs, "id"@) {
            None => Err(("sql"@, "id"@)),
            Some(id) => match body_of(evs, pos, fuel, has_body) {
                Ok((ns, _, e)) => Ok(
                    (
                        true,
                        MapperModel { fragments: upsert(m.fragments, (id, ns), fragment_key()), ..m },
                        e,
                    ),
                ),
                Err(x) => Err(x),
            },
        }
    } else if in_mapper && name == "resultMap"@ {
        let (cols, e) = if has_body {
            parse_columns(evs, pos + 1, fuel, Seq::empty())
        } else {
            (Seq::empty(), pos + 1)
        };
        let rm = ResultMapModel {
            id: attr_or_empty(attrs, "id"@),
            map_type: attr_or_empty(attrs, "type"@),
            columns: cols,
        };
        Ok((true, MapperModel { result_maps: upsert(m.result_maps, rm, result_map_key()), ..m }, e))
    } else {
        Ok((in_mapper, m, pos + 1))
    }
}

/// The mapper that the events from `pos` on complete. The walk stops at the
/// end tag of the mapper element or at the end of the document.
pub open spec fn parse_top(evs: Seq<XmlEvent>, pos: int, fuel: nat, in_mapper: bool, m: MapperModel) -> Result<
    MapperModel,
    Missing,
>
    decreases fuel,
{
    if fuel == 0 || pos < 0 || pos >= evs.len() {
        Ok(m)
    } else {
        let step = match evs[pos] {
            XmlEvent::Start(tag) => top_element(evs, pos, (fuel - 1) as nat, in_mapper, m, tag, true),
            XmlEvent::Empty(tag) => top_element(evs, pos, (fuel - 1) as nat, in_mapper, m, tag, false),
            _ => Ok((in_mapper, m, pos + 1)),
        };
        match evs[pos] {
            XmlEvent::Eof => Ok(m),
            XmlEvent::End(n) => if n@ == "mapper"@ || n@ == "sqlmap"@ {
                Ok(m)
            } else {
                parse_top(evs, pos + 1, (fuel - 1) as nat, in_mapper, m)
            },
            _ => match step {
                Ok((im, m2, next)) => parse_top(evs, next, (fuel - 1) as nat, im, m2),
                Err(x) => Err(x),
            },
        }
    }
}

/// The mapper a document's events describe.
pub open spec fn parse_mapper_events(evs: Seq<XmlEvent>) -> Result<MapperModel, Missing> {
    parse_top(evs, 0, (evs.len() + 1) as nat, false, empty_mapper())
}

/// Whether `s` is the text `lit`.
pub fn is_named(s: &String, lit: &str) -> (r: bool)
    ensures
        r == (s@ == lit@),
{
    let a = chars_of(s.as_str());
    let b = chars_of(lit);
    chars_eq(&a, &b)
}

/// The value of the first attribute called `name`.
pub fn find_attr<'t>(attrs: &'t Vec<(String, String)>, name: &str) -> (r: Option<&'t String>)
    ensures
        match r {
            Some(v) => attr_of(attrs@, name@) == Some(v@),
            None => attr_of(attrs@, name@) is None,
        },
{
    let mut i: usize = 0;
    assert(attrs@.subrange(0, attrs.len() as int) =~= attrs@);
    while i < attrs.len()
        invariant
            i <= attrs.len(),
            attr_of(attrs@, name@) == attr_of(attrs@.subrange(i as int, attrs.len() as int), name@),
        decreases attrs.len() - i,
    {
        assert(attrs@.subrange(i as int, attrs.len() as int).drop_first() =~= attrs@.subrange(
            i + 1,
            attrs.len() as int,
        ));
        if is_named(&attrs[i].0, name) {
            return Some(&attrs[i].1);
        }
        i = i + 1;
    }
    None
}

pub fn attr_string(attrs: &Vec<(String, String)>, name: &str) -> (r: Option<String>)
    ensures
        match r {
            Some(v) => attr_of(attrs@, name@) == Some(v@),
            None => attr_of(attrs@, name@) is None,
        },
{
    match find_attr(attrs, name) {
        Some(v) => Some(v.clone()),
        None => None,
    }
}

pub fn attr_or_empty_string(attrs: &Vec<(String, String)>, name: &str) -> (r: String)
    ensures
        r@ == attr_or_empty(attrs@, name@),
{
    match find_attr(attrs, name) {
        Some(v) => v.clone(),
        None => String::new(),
    }
}

proof fn lemma_name_end(b: Seq<char>, i: int)
    requires
        0 <= i <= b.len(),
        forall|k: int| 0 <= k < i ==> b[k] != ':' && b[k] != ',',
        i == b.len() || b[i] == ':' || b[i] == ',',
    ensures
        name_end(b) == i,
    decreases b.len(),
{
    if b.len() > 0 && b[0] != ':' && b[0] != ',' {
        assert forall|k: int| 0 <= k < i - 1 implies b.drop_first()[k] != ':' && b.drop_first()[k]
            != ',' by {
            assert(b[k + 1] != ':' && b[k + 1] != ',');
        }
        lemma_name_end(b.drop_first(), i - 1);
    }
}

fn name_end_exec(b: &Vec<char>) -> (r: usize)
    ensures
        r as int == name_end(b@),
        r <= b.len(),
{
    let mut i: usize = 0;
    while i < b.len() && b[i] != ':' && b[i] != ','
        invariant
            i <= b.len(),
            forall|k: int| 0 <= k < i ==> b@[k] != ':' && b@[k] != ',',
        decreases b.len() - i,
    {
        i = i + 1;
    }
    proof {
        lemma_name_end(b@, i as int);
    }
    i
}

fn contains_chars(v: &Vec<Vec<char>>, x: &Vec<char>) -> (r: bool)
    ensures
        r == v@.map_values(|t: Vec<char>| t@).contains(x@),
{
    let ghost vv = v@.map_values(|t: Vec<char>| t@);
    let mut i: usize = 0;
    while i < v.len()
        invariant
            i <= v.len(),
            vv == v@.map_values(|t: Vec<char>| t@),
            forall|k: int| 0 <= k < i ==> vv[k] != x@,
        decreases v.len() - i,
    {
        if chars_eq(&v[i], x) {
            assert(vv[i as int] == x@);
            return true;
        }
        i = i + 1;
    }
    false
}

/// The names of the `#{..}` placeholders of `sql` (see `param_names`).
pub fn extract_parameters(sql: &String) -> (r: Vec<String>)
    ensures
        r@.map_values(|p: String| p@) == param_names(sql@),
{
    let s = chars_of(sql.as_str());
    let mut raw: Vec<Vec<char>> = Vec::new();
    let mut i: usize = 0;
    assert(s@.subrange(0, s.len() as int) =~= s@);
    while i < s.len()
        invariant
            i <= s.len(),
            s@ == sql@,
            raw@.map_values(|t: Vec<char>| t@) + raw_param_names(s@.subrange(i as int, s.len() as int))
                == raw_param_names(s@),
        decreases s.len() - i,
    {
        let ghost t = s@.subrange(i as int, s.len() as int);
        let ghost before = raw@.map_values(|t: Vec<char>| t@);
        if s.len() - i >= 2 && s[i] == '#' && s[i + 1] == '{' {
            let j = find_char_from(&s, '}', i + 2);
            let ghost inner = t.subrange(2, t.len() as int);
            assert(inner =~= s@.subrange(i + 2, s.len() as int));
            if j < s.len() {
                let body = sub_chars(&s, i + 2, j);
                assert(body@ =~= inner.subrange(0, j - (i + 2)));
                let ne = name_end_exec(&body);
                let head = sub_chars(&body, 0, ne);
                let name = trim_chars(&head);
                if name.len() > 0 {
                    raw.push(name);
                    assert(raw@.map_values(|t: Vec<char>| t@) =~= before.push(name@));
                }
                let next = j + 1;
                proof {
                    assert(inner.subrange(j - (i + 2) + 1, inner.len() as int) =~= s@.subrange(
                        next as int,
                        s.len() as int,
                    ));
                    let nm = if name.len() > 0 {
                        seq![name@]
                    } else {
                        Seq::<Seq<char>>::empty()
                    };
                    assert(raw_param_names(t) == nm + raw_param_names(
                        s@.subrange(next as int, s.len() as int),
                    ));
                    assert(raw@.map_values(|t: Vec<char>| t@) =~= before + nm);
                    assert(before + nm + raw_param_names(s@.subrange(next as int, s.len() as int))
                        =~= before + (nm + raw_param_names(s@.subrange(next as int, s.len() as int))));
                }
                i = next;
            } else {
                proof {
                    assert(raw_param_names(t) == Seq::<Seq<char>>::empty());
                    assert(s@.subrange(s.len() as int, s.len() as int) =~= Seq::<char>::empty());
                    assert(before + Seq::<Seq<char>>::empty() =~= before);
                }
                i = s.len();
            }
        } else {
            proof {
                if t.len() >= 2 {
                    assert(t.drop_first() =~= s@.subrange(i + 1, s.len() as int));
                } else {
                    assert(s@.subrange(i + 1, s.len() as int) =~= Seq::<char>::empty());
                }
            }
            i = i + 1;
        }
    }
    assert(s@.subrange(s.len() as int, s.len() as int) =~= Seq::<char>::empty());
    let ghost rv = raw@.map_values(|t: Vec<char>| t@);
    assert(rv =~= raw_param_names(s@));
    let mut uniq: Vec<Vec<char>> = Vec::new();
    let mut k: usize = 0;
    while k < raw.len()
        invariant
            k <= raw.len(),
            rv == raw@.map_values(|t: Vec<char>| t@),
            uniq@.map_values(|t: Vec<char>| t@) == dedup(rv.subrange(0, k as int)),
        decreases raw.len() - k,
    {
        assert(rv.subrange(0, k + 1).drop_last() =~= rv.subrange(0, k as int));
        let ghost before = uniq@.map_values(|t: Vec<char>| t@);
        if !contains_chars(&uniq, &raw[k]) {
            let c = sub_chars(&raw[k], 0, raw[k].len());
            uniq.push(c);
            assert(raw[k as int]@.subrange(0, raw[k as int].len() as int) =~= raw[k as int]@);
            assert(uniq@.map_values(|t: Vec<char>| t@) =~= before.push(rv[k as int]));
        }
        k = k + 1;
    }
    assert(rv.subrange(0, raw.len() as int) =~= rv);
    let mut out: Vec<String> = Vec::new();
    let mut k: usize = 0;
    while k < uniq.len()
        invariant
            k <= uniq.len(),
            out.len() == k,
            forall|j: int| 0 <= j < k ==> (#[trigger] out@[j])@ == uniq@[j]@,
        decreases uniq.len() - k,
    {
        out.push(string_of(&uniq[k]));
        k = k + 1;
    }
    assert(out@.map_values(|p: String| p@) =~= uniq@.map_values(|t: Vec<char>| t@));
    out
}

pub proof fn lemma_id_index<T>(s: Seq<T>, id: Seq<char>, key: spec_fn(T) -> Seq<char>, i: int)
    requires
        0 <= i <= s.len(),
        forall|k: int| 0 <= k < i ==> key(#[trigger] s[k]) != id,
        i == s.len() || key(s[i]) == id,
    ensures
        id_index(s, id, key) == i,
    decreases s.len(),
{
    if s.len() > 0 && key(s[0]) != id {
        assert forall|k: int| 0 <= k < i - 1 implies key(#[trigger] s.drop_first()[k]) != id by {
            assert(s.drop_first()[k] == s[k + 1]);
        }
        lemma_id_index(s.drop_first(), id, key, i - 1);
    }
}

pub proof fn lemma_nodes_view_concat(a: Seq<DynamicSqlNode>, b: Seq<DynamicSqlNode>)
    ensures
        nodes_view(a + b) == nodes_view(a) + nodes_view(b),
    decreases b.len(),
{
    if b.len() == 0 {
        assert(a + b =~= a);
        assert(nodes_view(a) + nodes_view(b) =~= nodes_view(a));
    } else {
        assert((a + b).drop_last() =~= a + b.drop_last());
        lemma_nodes_view_concat(a, b.drop_last());
        assert(nodes_view(a) + nodes_view(b.drop_last()).push(node_view(b.last())) =~= (nodes_view(
            a,
        ) + nodes_view(b.drop_last())).push(node_view(b.last())));
    }
}

/// What a parse failure reports, as the contracts see it.
pub open spec fn err_view(e: ParseError) -> Missing {
    match e {
        ParseError::MissingAttribute(a, b) => (a@, b@),
        _ => (Seq::empty(), Seq::empty()),
    }
}

pub open spec fn body_view(r: Result<(Vec<DynamicSqlNode>, Vec<char>, usize), ParseError>) -> Result<
    (Seq<NodeModel>, Seq<char>, int),
    Missing,
> {
    match r {
        Ok((ns, tx, e)) => Ok((nodes_view(ns@), tx@, e as int)),
        Err(x) => Err(err_view(x)),
    }
}

fn missing(element: &str, attr: &str) -> (r: ParseError)
    ensures
        err_view(r) == (element@, attr@),
        r is MissingAttribute,
{
    ParseError::MissingAttribute(element.to_owned(), attr.to_owned())
}

fn one(n: DynamicSqlNode) -> (r: Vec<DynamicSqlNode>)
    ensures
        nodes_view(r@) == seq![node_view(n)],
{
    let mut v: Vec<DynamicSqlNode> = Vec::new();
    v.push(n);
    proof {
        lemma_nodes_view_push(Seq::empty(), v@[0]);
        assert(Seq::<DynamicSqlNode>::empty().push(v@[0]) =~= v@);
    }
    v
}

proof fn lemma_nodes_view_empty()
    ensures
        nodes_view(Seq::<DynamicSqlNode>::empty()) == Seq::<NodeModel>::empty(),
{
}

/// Parses a body (see `parse_body`).
fn body_exec(evs: &Vec<XmlEvent>, pos: usize, fuel: usize) -> (r: Result<
    (Vec<DynamicSqlNode>, Vec<char>, usize),
    ParseError,
>)
    requires
        pos <= evs.len() + 1,
        evs.len() + 2 < usize::MAX,
    ensures
        body_view(r) == parse_body(evs@, pos as int, fuel as nat, Seq::empty(), Seq::empty()),
        r matches Ok((_, _, e)) ==> e <= evs.len() + 1,
        r matches Err(x) ==> x is MissingAttribute,
    decreases fuel, 0nat,
{
    let mut nodes: Vec<DynamicSqlNode> = Vec::new();
    let mut text: Vec<char> = Vec::new();
    let mut p = pos;
    let mut f = fuel;
    proof {
        lemma_nodes_view_empty();
    }
    loop
        invariant
            p <= evs.len() + 1,
            f <= fuel,
            evs.len() + 2 < usize::MAX,
            parse_body(evs@, pos as int, fuel as nat, Seq::empty(), Seq::empty()) == parse_body(
                evs@,
                p as int,
                f as nat,
                nodes_view(nodes@),
                text@,
            ),
        decreases f,
    {
        if f == 0 || p >= evs.len() {
            return Ok((nodes, text, p));
        }
        match &evs[p] {
            XmlEvent::End(_) => {
                return Ok((nodes, text, p + 1));
            },
            XmlEvent::Eof => {
                return Ok((nodes, text, p));
            },
            XmlEvent::Other => {},
            XmlEvent::Text(t) => {
                let tv = chars_of(t.as_str());
                if !blank(&tv) {
                    proof {
                        lemma_nodes_view_push(nodes@, DynamicSqlNode::Text(*t));
                    }
                    nodes.push(DynamicSqlNode::Text(t.clone()));
                }
                extend_chars(&mut text, &tv);
            },
            XmlEvent::Start(tag) => {
                match element_exec(evs, p, f - 1, tag, true) {
                    Ok((mut ns, tx, next)) => {
                        proof {
                            lemma_nodes_view_concat(nodes@, ns@);
                        }
                        nodes.append(&mut ns);
                        extend_chars(&mut text, &tx);
                        p = next;
                        f = f - 1;
                        continue;
                    },
                    Err(x) => {
                        return Err(x);
                    },
                }
            },
            XmlEvent::Empty(tag) => {
                match element_exec(evs, p, f - 1, tag, false) {
                    Ok((mut ns, tx, next)) => {
                        proof {
                            lemma_nodes_view_concat(nodes@, ns@);
                        }
                        nodes.append(&mut ns);
                        extend_chars(&mut text, &tx);
                        p = next;
                        f = f - 1;
                        continue;
                    },
                    Err(x) => {
                        return Err(x);
                    },
                }
            },
        }
        p = p + 1;
        f = f - 1;
    }
}

/// The body of the element at `pos` (see `body_of`).
fn body_of_exec(evs: &Vec<XmlEvent>, pos: usize, fuel: usize, has_body: bool) -> (r: Result<
    (Vec<DynamicSqlNode>, Vec<char>, usize),
    ParseError,
>)
    requires
        pos < evs.len(),
        evs.len() + 2 < usize::MAX,
    ensures
        body_view(r) == body_of(evs@, pos as int, fuel as nat, has_body),
        r matches Ok((_, _, e)) ==> e <= evs.len() + 1,
        r matches Err(x) ==> x is MissingAttribute,
    decreases fuel, 1nat,
{
    if has_body {
        body_exec(evs, pos + 1, fuel)
    } else {
        proof {
            lemma_nodes_view_empty();
        }
        Ok((Vec::new(), Vec::new(), pos + 1))
    }
}

fn trimmed(s: &String) -> (r: String)
    ensures
        r@ == trim(s@),
{
    let v = chars_of(s.as_str());
    string_of(&trim_chars(&v))
}

/// What one element adds to its body (see `element`).
fn element_exec(evs: &Vec<XmlEvent>, pos: usize, fuel: usize, tag: &Tag, has_body: bool) -> (r: Result<
    (Vec<DynamicSqlNode>, Vec<char>, usize),
    ParseError,
>)
    requires
        pos < evs.len(),
        evs.len() + 2 < usize::MAX,
    ensures
        body_view(r) == element(evs@, pos as int, fuel as nat, *tag, has_body),
        r matches Ok((_, _, e)) ==> e <= evs.len() + 1,
        r matches Err(x) ==> x is MissingAttribute,
    decreases fuel, 2nat,
{
    let attrs = &tag.attrs;
    if is_named(&tag.name, "if") {
        match find_attr(attrs, "test") {
            None => Err(missing("if", "test")),
            Some(t) => match body_of_exec(evs, pos, fuel, has_body) {
                Ok((ns, _, e)) => Ok((one(DynamicSqlNode::If { test: trimmed(t), contents: ns }), Vec::new(), e)),
                Err(x) => Err(x),
            },
        }
    } else if is_named(&tag.name, "include") {
        match find_attr(attrs, "refid") {
            None => Err(missing("include", "refid")),
            Some(rf) => Ok(
                (
                    one(DynamicSqlNode::Include { ref_id: rf.clone() }),
                    Vec::new(),
                    if has_body {
                        pos + 2
                    } else {
                        pos + 1
                    },
                ),
            ),
        }
    } else if is_named(&tag.name, "foreach") {
        match find_attr(attrs, "collection") {
            None => Err(missing("foreach", "collection")),
            Some(c) => match body_of_exec(evs, pos, fuel, has_body) {
                Ok((ns, _, e)) => Ok(
                    (
                        one(
                            DynamicSqlNode::Foreach {
                                collection: c.clone(),
                                item: attr_or_empty_string(attrs, "item"),
                                index: attr_string(attrs, "index"),
                                open: attr_or_empty_string(attrs, "open"),
                                separator: attr_or_empty_string(attrs, "separator"),
                                close: attr_or_empty_string(attrs, "close"),
                                contents: ns,
                            },
                        ),
                        Vec::new(),
                        e,
                    ),
                ),
                Err(x) => Err(x),
            },
        }
    } else if is_named(&tag.name, "choose") {
        if has_body {
            match choose_exec(evs, pos + 1, fuel) {
                Ok((ws, ow, e)) => Ok(
                    (one(DynamicSqlNode::Choose { whens: ws, otherwise: ow }), Vec::new(), e),
                ),
                Err(x) => Err(x),
            }
        } else {
            let r = one(DynamicSqlNode::Choose { whens: Vec::new(), otherwise: None });
            proof {
                assert(whens_view(Seq::<(String, Vec<DynamicSqlNode>)>::empty()) == Seq::<
                    (Seq<char>, Seq<NodeModel>),
                >::empty());
            }
            Ok((r, Vec::new(), pos + 1))
        }
    } else if is_named(&tag.name, "bind") {
        match (find_attr(attrs, "name"), find_attr(attrs, "value")) {
            (None, _) => Err(missing("bind", "name")),
            (_, None) => Err(missing("bind", "value")),
            (Some(n), Some(v)) => match body_of_exec(evs, pos, fuel, has_body) {
                Ok((_, _, e)) => Ok(
                    (one(DynamicSqlNode::Bind { name: n.clone(), value: v.clone() }), Vec::new(), e),
                ),
                Err(x) => Err(x),
            },
        }
    } else {
        match body_of_exec(evs, pos, fuel, has_body) {
            Ok((ns, tx, e)) => {
                if is_named(&tag.name, "trim") {
                    Ok(
                        (
                            one(
                                DynamicSqlNode::Trim {
                                    prefix: attr_string(attrs, "prefix"),
                                    prefix_overrides: attr_string(attrs, "prefixOverrides"),
                                    suffix: attr_string(attrs, "suffix"),
                                    suffix_overrides: attr_string(attrs, "suffixOverrides"),
                                    contents: ns,
                                },
                            ),
                            Vec::new(),
                            e,
                        ),
                    )
                } else if is_named(&tag.name, "where") {
                    Ok(
                        (
                            one(
                                DynamicSqlNode::Where {
                                    prefix_overrides: None,
                                    suffix_overrides: None,
                                    contents: ns,
                                },
                            ),
                            Vec::new(),
                            e,
                        ),
                    )
                } else if is_named(&tag.name, "set") {
                    Ok(
                        (
                            one(
                                DynamicSqlNode::SetClause {
                                    prefix_overrides: None,
                                    suffix_overrides: None,
                                    contents: ns,
                                },
                            ),
                            Vec::new(),
                            e,
                        ),
                    )
                } else {
                    let mut t: Vec<char> = Vec::new();
                    t.push('<');
                    let nv = chars_of(tag.name.as_str());
                    extend_chars(&mut t, &nv);
                    t.push('/');
                    t.push('>');
                    extend_chars(&mut t, &tx);
                    assert(t@ =~= element_token(tag.name@) + tx@);
                    Ok((ns, t, e))
                }
            },
            Err(x) => Err(x),
        }
    }
}

pub open spec fn choose_view(
    r: Result<(Vec<(String, Vec<DynamicSqlNode>)>, Option<Vec<DynamicSqlNode>>, usize), ParseError>,
) -> Result<(Seq<(Seq<char>, Seq<NodeModel>)>, Option<Seq<NodeModel>>, int), Missing> {
    match r {
        Ok((ws, ow, e)) => Ok(
            (
                whens_view(ws@),
                match ow {
                    Some(b) => Some(nodes_view(b@)),
                    None => None,
                },
                e as int,
            ),
        ),
        Err(x) => Err(err_view(x)),
    }
}

pub open spec fn otherwise_view(ow: Option<Vec<DynamicSqlNode>>) -> Option<Seq<NodeModel>> {
    match ow {
        Some(b) => Some(nodes_view(b@)),
        None => None,
    }
}

/// Parses the branches of a `choose` (see `parse_choose`).
fn choose_exec(evs: &Vec<XmlEvent>, pos: usize, fuel: usize) -> (r: Result<
    (Vec<(String, Vec<DynamicSqlNode>)>, Option<Vec<DynamicSqlNode>>, usize),
    ParseError,
>)
    requires
        pos <= evs.len() + 1,
        evs.len() + 2 < usize::MAX,
    ensures
        choose_view(r) == parse_choose(evs@, pos as int, fuel as nat, Seq::empty(), None),
        r matches Ok((_, _, e)) ==> e <= evs.len() + 1,
        r matches Err(x) ==> x is MissingAttribute,
    decreases fuel, 0nat,
{
    let mut ws: Vec<(String, Vec<DynamicSqlNode>)> = Vec::new();
    let mut ow: Option<Vec<DynamicSqlNode>> = None;
    let mut p = pos;
    let mut f = fuel;
    assert(whens_view(ws@) == Seq::<(Seq<char>, Seq<NodeModel>)>::empty());
    loop
        invariant
            p <= evs.len() + 1,
            f <= fuel,
            evs.len() + 2 < usize::MAX,
            parse_choose(evs@, pos as int, fuel as nat, Seq::empty(), None) == parse_choose(
                evs@,
                p as int,
                f as nat,
                whens_view(ws@),
                otherwise_view(ow),
            ),
        decreases f,
    {
        if f == 0 || p >= evs.len() {
            return Ok((ws, ow, p));
        }
        let (tag, hb) = match &evs[p] {
            XmlEvent::End(_) => {
                return Ok((ws, ow, p + 1));
            },
            XmlEvent::Eof => {
                return Ok((ws, ow, p));
            },
            XmlEvent::Start(tag) => (tag, true),
            XmlEvent::Empty(tag) => (tag, false),
            _ => {
                p = p + 1;
                f = f - 1;
                continue;
            },
        };
        let g = f - 1;
        assert(parse_choose(evs@, p as int, f as nat, whens_view(ws@), otherwise_view(ow))
            == choose_child(evs@, p as int, g as nat, whens_view(ws@), otherwise_view(ow), *tag, hb));
        if is_named(&tag.name, "when") {
            match find_attr(&tag.attrs, "test") {
                None => {
                    return Err(missing("when", "test"));
                },
                Some(t) => match body_of_exec(evs, p, g, hb) {
                    Ok((ns, _, e)) => {
                        let w = (trimmed(t), ns);
                        proof {
                            lemma_whens_view_push(ws@, w);
                        }
                        ws.push(w);
                        p = e;
                    },
                    Err(x) => {
                        return Err(x);
                    },
                },
            }
        } else {
            match body_of_exec(evs, p, g, hb) {
                Ok((ns, _, e)) => {
                    if is_named(&tag.name, "otherwise") {
                        ow = Some(ns);
                    }
                    p = e;
                },
                Err(x) => {
                    return Err(x);
                },
            }
        }
        f = g;
    }
}

/// Puts `st` in the place of the statement with its id, or at the end.
fn upsert_statement(v: &mut Vec<SqlStatement>, st: SqlStatement)
    ensures
        final(v)@.map_values(|s: SqlStatement| statement_view(s)) == upsert(
            old(v)@.map_values(|s: SqlStatement| statement_view(s)),
            statement_view(st),
            statement_key(),
        ),
{
    let ghost sv = old(v)@.map_values(|s: SqlStatement| statement_view(s));
    let mut i: usize = 0;
    while i < v.len() && !is_named(&v[i].id, st.id.as_str())
        invariant
            i <= v.len(),
            *v == *old(v),
            sv == old(v)@.map_values(|s: SqlStatement| statement_view(s)),
            forall|k: int| 0 <= k < i ==> (statement_key())(#[trigger] sv[k]) != st.id@,
        decreases v.len() - i,
    {
        i = i + 1;
    }
    proof {
        lemma_id_index(sv, st.id@, statement_key(), i as int);
    }
    if i < v.len() {
        v[i] = st;
    } else {
        v.push(st);
    }
    assert(final(v)@.map_values(|s: SqlStatement| statement_view(s)) =~= upsert(
        sv,
        statement_view(st),
        statement_key(),
    ));
}

/// Puts the fragment in the place of the one with its id, or at the end.
fn upsert_fragment(v: &mut Vec<(String, Vec<DynamicSqlNode>)>, fr: (String, Vec<DynamicSqlNode>))
    ensures
        final(v)@.map_values(|f: (String, Vec<DynamicSqlNode>)| (f.0@, nodes_view(f.1@))) == upsert(
            old(v)@.map_values(|f: (String, Vec<DynamicSqlNode>)| (f.0@, nodes_view(f.1@))),
            (fr.0@, nodes_view(fr.1@)),
            fragment_key(),
        ),
{
    let ghost sv = old(v)@.map_values(|f: (String, Vec<DynamicSqlNode>)| (f.0@, nodes_view(f.1@)));
    let mut i: usize = 0;
    while i < v.len() && !is_named(&v[i].0, fr.0.as_str())
        invariant
            i <= v.len(),
            *v == *old(v),
            sv == old(v)@.map_values(|f: (String, Vec<DynamicSqlNode>)| (f.0@, nodes_view(f.1@))),
            forall|k: int| 0 <= k < i ==> (fragment_key())(#[trigger] sv[k]) != fr.0@,
        decreases v.len() - i,
    {
        i = i + 1;
    }
    proof {
        lemma_id_index(sv, fr.0@, fragment_key(), i as int);
    }
    let ghost fv = (fr.0@, nodes_view(fr.1@));
    if i < v.len() {
        v[i] = fr;
    } else {
        v.push(fr);
    }
    assert(final(v)@.map_values(|f: (String, Vec<DynamicSqlNode>)| (f.0@, nodes_view(f.1@))) =~= upsert(
        sv,
        fv,
        fragment_key(),
    ));
}

/// Puts the result map in the place of the one with its id, or at the end.
fn upsert_result_map(v: &mut Vec<ResultMap>, rm: ResultMap)
    ensures
        final(v)@.map_values(|r: ResultMap| result_map_view(r)) == upsert(
            old(v)@.map_values(|r: ResultMap| result_map_view(r)),
            result_map_view(rm),
            result_map_key(),
        ),
{
    let ghost sv = old(v)@.map_values(|r: ResultMap| result_map_view(r));
    let mut i: usize = 0;
    while i < v.len() && !is_named(&v[i].id, rm.id.as_str())
        invariant
            i <= v.len(),
            *v == *old(v),
            sv == old(v)@.map_values(|r: ResultMap| result_map_view(r)),
            forall|k: int| 0 <= k < i ==> (result_map_key())(#[trigger] sv[k]) != rm.id@,
        decreases v.len() - i,
    {
        i = i + 1;
    }
    proof {
        lemma_id_index(sv, rm.id@, result_map_key(), i as int);
    }
    let ghost rv = result_map_view(rm);
    if i < v.len() {
        v[i] = rm;
    } else {
        v.push(rm);
    }
    assert(final(v)@.map_values(|r: ResultMap| result_map_view(r)) =~= upsert(
        sv,
        rv,
        result_map_key(),
    ));
}

/// Passes over the rest of an element (see `skip_element`).
fn skip_exec(evs: &Vec<XmlEvent>, pos: usize, fuel: usize) -> (r: usize)
    requires
        pos <= evs.len() + 1,
        evs.len() + 2 < usize::MAX,
    ensures
        r as int == skip_element(evs@, pos as int, fuel as nat, 1),
        r <= evs.len() + 1,
{
    let mut p = pos;
    let mut f = fuel;
    let mut depth: usize = 1;
    loop
        invariant
            p <= evs.len() + 1,
            depth >= 1,
            depth <= p + 1,
            evs.len() + 2 < usize::MAX,
            skip_element(evs@, pos as int, fuel as nat, 1) == skip_element(
                evs@,
                p as int,
                f as nat,
                depth as nat,
            ),
        decreases f,
    {
        if f == 0 || p >= evs.len() {
            return p;
        }
        match &evs[p] {
            XmlEvent::Start(_) => {
                depth = depth + 1;
            },
            XmlEvent::End(_) => {
                if depth <= 1 {
                    return p + 1;
                }
                depth = depth - 1;
            },
            XmlEvent::Eof => {
                return p;
            },
            _ => {},
        }
        p = p + 1;
        f = f - 1;
    }
}

fn make_column_exec(attrs: &Vec<(String, String)>) -> (r: ResultColumn)
    ensures
        column_view(r) == make_column(attrs@),
{
    ResultColumn {
        property: attr_or_empty_string(attrs, "property"),
        column: attr_or_empty_string(attrs, "column"),
        java_type: attr_string(attrs, "javaType"),
        jdbc_type: attr_string(attrs, "jdbcType"),
    }
}

/// The columns of a result map (see `parse_columns`).
fn columns_exec(evs: &Vec<XmlEvent>, pos: usize, fuel: usize) -> (r: (Vec<ResultColumn>, usize))
    requires
        pos <= evs.len() + 1,
        evs.len() + 2 < usize::MAX,
    ensures
        (r.0@.map_values(|c: ResultColumn| column_view(c)), r.1 as int) == parse_columns(
            evs@,
            pos as int,
            fuel as nat,
            Seq::empty(),
        ),
        r.1 <= evs.len() + 1,
{
    let mut cols: Vec<ResultColumn> = Vec::new();
    let mut p = pos;
    let mut f = fuel;
    assert(cols@.map_values(|c: ResultColumn| column_view(c)) =~= Seq::<ColumnModel>::empty());
    loop
        invariant
            p <= evs.len() + 1,
            evs.len() + 2 < usize::MAX,
            parse_columns(evs@, pos as int, fuel as nat, Seq::empty()) == parse_columns(
                evs@,
                p as int,
                f as nat,
                cols@.map_values(|c: ResultColumn| column_view(c)),
            ),
        decreases f,
    {
        if f == 0 || p >= evs.len() {
            return (cols, p);
        }
        let ghost before = cols@.map_values(|c: ResultColumn| column_view(c));
        match &evs[p] {
            XmlEvent::Start(tag) => {
                if is_named(&tag.name, "result") {
                    cols.push(make_column_exec(&tag.attrs));
                    assert(cols@.map_values(|c: ResultColumn| column_view(c)) =~= before.push(
                        make_column(tag.attrs@),
                    ));
                    p = p + 2;
                } else {
                    p = skip_exec(evs, p + 1, f - 1);
                }
            },
            XmlEvent::Empty(tag) => {
                if is_named(&tag.name, "result") {
                    cols.push(make_column_exec(&tag.attrs));
                    assert(cols@.map_values(|c: ResultColumn| column_view(c)) =~= before.push(
                        make_column(tag.attrs@),
                    ));
                }
                p = p + 1;
            },
            XmlEvent::End(_) => {
                return (cols, p + 1);
            },
            XmlEvent::Eof => {
                return (cols, p);
            },
            _ => {
                p = p + 1;
            },
        }
        f = f - 1;
    }
}

fn statement_kind_exec(name: &String) -> (r: Option<StatementType>)
    ensures
        r == statement_kind(name@),
{
    if is_named(name, "select") {
        Some(StatementType::Select)
    } else if is_named(name, "insert") {
        Some(StatementType::Insert)
    } else if is_named(name, "update") {
        Some(StatementType::Update)
    } else if is_named(name, "delete") {
        Some(StatementType::Delete)
    } else {
        None
    }
}

fn wrap_exec(ns: Vec<DynamicSqlNode>) -> (r: Option<DynamicSqlNode>)
    ensures
        match r {
            Some(n) => wrap_nodes(nodes_view(ns@)) == Some(node_view(n)),
            None => wrap_nodes(nodes_view(ns@)) is None,
        },
{
    proof {
        crate::model::lemma_nodes_view_len(ns@);
    }
    if ns.len() == 0 {
        None
    } else if ns.len() == 1 {
        let mut ns = ns;
        let ghost o = ns@;
        let n = ns.pop().unwrap();
        proof {
            assert(o =~= ns@.push(n));
            lemma_nodes_view_push(ns@, n);
            assert(ns@ =~= Seq::<DynamicSqlNode>::empty());
        }
        Some(n)
    } else {
        Some(
            DynamicSqlNode::Trim {
                prefix: None,
                prefix_overrides: None,
                suffix: None,
                suffix_overrides: None,
                contents: ns,
            },
        )
    }
}

/// What one top-level element does to `m` (see `top_element`).
fn top_element_exec(
    evs: &Vec<XmlEvent>,
    pos: usize,
    fuel: usize,
    in_mapper: bool,
    m: &mut Mapper,
    tag: &Tag,
    has_body: bool,
) -> (r: Result<(bool, usize), ParseError>)
    requires
        pos < evs.len(),
        evs.len() + 2 < usize::MAX,
    ensures
        match r {
            Ok((im, e)) => top_element(
                evs@,
                pos as int,
                fuel as nat,
                in_mapper,
                mapper_view(*old(m)),
                *tag,
                has_body,
            ) == Ok::<(bool, MapperModel, int), Missing>((im, mapper_view(*final(m)), e as int)) && e
                <= evs.len() + 1,
            Err(x) => top_element(
                evs@,
                pos as int,
                fuel as nat,
                in_mapper,
                mapper_view(*old(m)),
                *tag,
                has_body,
            ) == Err::<(bool, MapperModel, int), Missing>(err_view(x)) && x is MissingAttribute,
        },
{
    let attrs = &tag.attrs;
    let ghost mv = mapper_view(*old(m));
    if is_named(&tag.name, "mapper") || is_named(&tag.name, "sqlmap") {
        match find_attr(attrs, "namespace") {
            Some(ns) => {
                m.namespace = ns.clone();
                assert(mapper_view(*m) =~= MapperModel { namespace: ns@, ..mv });
            },
            None => {},
        }
        return Ok((true, pos + 1));
    }
    let kind = statement_kind_exec(&tag.name);
    if in_mapper && kind.is_some() {
        match find_attr(attrs, "id") {
            None => {
                let el = tag.name.clone();
                return Err(ParseError::MissingAttribute(el, "id".to_owned()));
            },
            Some(id) => match body_of_exec(evs, pos, fuel, has_body) {
                Ok((ns, tx, e)) => {
                    let sql = string_of(&tx);
                    let parameters = extract_parameters(&sql);
                    let ghost nsv = nodes_view(ns@);
                    let st = SqlStatement {
                        id: id.clone(),
                        stmt_type: kind,
                        parameter_type: attr_string(attrs, "parameterType"),
                        result_type: attr_string(attrs, "resultType"),
                        result_map: attr_string(attrs, "resultMap"),
                        sql,
                        dynamic_sql: wrap_exec(ns),
                        parameters,
                    };
                    assert(statement_view(st) == make_statement(kind->0, id@, attrs@, nsv, tx@));
                    upsert_statement(&mut m.statements, st);
                    assert(mapper_view(*m) =~= MapperModel {
                        statements: upsert(
                            mv.statements,
                            make_statement(kind->0, id@, attrs@, nsv, tx@),
                            statement_key(),
                        ),
                        ..mv
                    });
                    return Ok((true, e));
                },
                Err(x) => {
                    return Err(x);
                },
            },
        }
    }
    if in_mapper && is_named(&tag.name, "sql") {
        match find_attr(attrs, "id") {
            None => {
                return Err(missing("sql", "id"));
            },
            Some(id) => match body_of_exec(evs, pos, fuel, has_body) {
                Ok((ns, _, e)) => {
                    let ghost fv = (id@, nodes_view(ns@));
                    upsert_fragment(&mut m.sql_fragments, (id.clone(), ns));
                    assert(mapper_view(*m) =~= MapperModel {
                        fragments: upsert(mv.fragments, fv, fragment_key()),
                        ..mv
                    });
                    return Ok((true, e));
                },
                Err(x) => {
                    return Err(x);
                },
            },
        }
    }
    if in_mapper && is_named(&tag.name, "resultMap") {
        let (cols, e) = if has_body {
            columns_exec(evs, pos + 1, fuel)
        } else {
            (Vec::new(), pos + 1)
        };
        let rm = ResultMap {
            id: attr_or_empty_string(attrs, "id"),
            map_type: attr_or_empty_string(attrs, "type"),
            result_columns: cols,
        };
        proof {
            if !has_body {
                assert(rm.result_columns@.map_values(|c: ResultColumn| column_view(c)) =~= Seq::<
                    ColumnModel,
                >::empty());
            }
        }
        let ghost rv = result_map_view(rm);
        upsert_result_map(&mut m.result_maps, rm);
        assert(mapper_view(*m) =~= MapperModel {
            result_maps: upsert(mv.result_maps, rv, result_map_key()),
            ..mv
        });
        return Ok((true, e));
    }
    Ok((in_mapper, pos + 1))
}

pub proof fn lemma_id_index_spec<T>(s: Seq<T>, id: Seq<char>, key: spec_fn(T) -> Seq<char>)
    ensures
        0 <= id_index(s, id, key) <= s.len(),
        forall|k: int| 0 <= k < id_index(s, id, key) ==> key(#[trigger] s[k]) != id,
        id_index(s, id, key) < s.len() ==> key(s[id_index(s, id, key)]) == id,
    decreases s.len(),
{
    if s.len() > 0 && key(s[0]) != id {
        lemma_id_index_spec(s.drop_first(), id, key);
        assert forall|k: int| 0 <= k < id_index(s, id, key) implies key(#[trigger] s[k]) != id by {
            if k > 0 {
                assert(s[k] == s.drop_first()[k - 1]);
            }
        }
    }
}

/// No two entries of `s` share an id.
pub open spec fn unique_keys<T>(s: Seq<T>, key: spec_fn(T) -> Seq<char>) -> bool {
    forall|i: int, j: int| 0 <= i < j < s.len() ==> key(#[trigger] s[i]) != key(#[trigger] s[j])
}

pub proof fn lemma_upsert_unique<T>(s: Seq<T>, x: T, key: spec_fn(T) -> Seq<char>)
    requires
        unique_keys(s, key),
    ensures
        unique_keys(upsert(s, x, key), key),
{
    lemma_id_index_spec(s, key(x), key);
    let u = upsert(s, x, key);
    assert forall|i: int, j: int| 0 <= i < j < u.len() implies key(#[trigger] u[i]) != key(
        #[trigger] u[j],
    ) by {
        let n = id_index(s, key(x), key);
        if n < s.len() {
            if i == n {
                assert(key(u[i]) == key(s[n]));
            } else if j == n {
                assert(key(u[j]) == key(s[n]));
            }
        } else if j == s.len() {
            assert(key(s[i]) != key(x));
        }
    }
}

/// Statement ids are unique, and so are fragment ids and result-map ids.
pub open spec fn model_wf(m: MapperModel) -> bool {
    &&& unique_keys(m.statements, statement_key())
    &&& unique_keys(m.fragments, fragment_key())
    &&& unique_keys(m.result_maps, result_map_key())
}

proof fn lemma_top_element_wf(
    evs: Seq<XmlEvent>,
    pos: int,
    fuel: nat,
    im: bool,
    m: MapperModel,
    tag: Tag,
    hb: bool,
)
    requires
        model_wf(m),
    ensures
        top_element(evs, pos, fuel, im, m, tag, hb) matches Ok((_, m2, _)) ==> model_wf(m2),
{
    let name = tag.name@;
    let attrs = tag.attrs@;
    if name == "mapper"@ || name == "sqlmap"@ {
    } else if im && statement_kind(name) is Some {
        if let Some(id) = attr_of(attrs, "id"@) {
            if let Ok((ns, tx, e)) = body_of(evs, pos, fuel, hb) {
                lemma_upsert_unique(
                    m.statements,
                    make_statement(statement_kind(name)->0, id, attrs, ns, tx),
                    statement_key(),
                );
            }
        }
    } else if im && name == "sql"@ {
        if let Some(id) = attr_of(attrs, "id"@) {
            if let Ok((ns, _, e)) = body_of(evs, pos, fuel, hb) {
                lemma_upsert_unique(m.fragments, (id, ns), fragment_key());
            }
        }
    } else if im && name == "resultMap"@ {
        let (cols, e) = if hb {
            parse_columns(evs, pos + 1, fuel, Seq::empty())
        } else {
            (Seq::empty(), pos + 1)
        };
        let rm = ResultMapModel {
            id: attr_or_empty(attrs, "id"@),
            map_type: attr_or_empty(attrs, "type"@),
            columns: cols,
        };
        lemma_upsert_unique(m.result_maps, rm, result_map_key());
    }
}

proof fn lemma_parse_top_wf(evs: Seq<XmlEvent>, pos: int, fuel: nat, im: bool, m: MapperModel)
    requires
        model_wf(m),
    ensures
        parse_top(evs, pos, fuel, im, m) matches Ok(r) ==> model_wf(r),
    decreases fuel,
{
    if !(fuel == 0 || pos < 0 || pos >= evs.len()) {
        match evs[pos] {
            XmlEvent::Start(tag) => {
                lemma_top_element_wf(evs, pos, (fuel - 1) as nat, im, m, tag, true);
                if let Ok((im2, m2, next)) = top_element(evs, pos, (fuel - 1) as nat, im, m, tag, true) {
                    lemma_parse_top_wf(evs, next, (fuel - 1) as nat, im2, m2);
                }
            },
            XmlEvent::Empty(tag) => {
                lemma_top_element_wf(evs, pos, (fuel - 1) as nat, im, m, tag, false);
                if let Ok((im2, m2, next)) = top_element(evs, pos, (fuel - 1) as nat, im, m, tag, false) {
                    lemma_parse_top_wf(evs, next, (fuel - 1) as nat, im2, m2);
                }
            },
            XmlEvent::End(n) => {
                lemma_parse_top_wf(evs, pos + 1, (fuel - 1) as nat, im, m);
            },
            XmlEvent::Eof => {},
            _ => {
                lemma_parse_top_wf(evs, pos + 1, (fuel - 1) as nat, im, m);
            },
        }
    }
}

/// Every mapper a document parses into has unique statement ids, unique
/// fragment ids and unique result-map ids.
pub proof fn law_parsed_ids_unique(evs: Seq<XmlEvent>)
    ensures
        parse_mapper_events(evs) matches Ok(m) ==> model_wf(m),
{
    lemma_parse_top_wf(evs, 0, (evs.len() + 1) as nat, false, empty_mapper());
}

proof fn lemma_wf_of_view(m: Mapper)
    requires
        model_wf(mapper_view(m)),
    ensures
        m.wf(),
{
    let v = mapper_view(m);
    assert forall|i: int, j: int| 0 <= i < j < m.statements@.len() implies m.statements@[i].id@
        != m.statements@[j].id@ by {
        assert((statement_key())(v.statements[i]) != (statement_key())(v.statements[j]));
    }
    assert forall|i: int, j: int| 0 <= i < j < m.sql_fragments@.len() implies m.sql_fragments@[i].0@
        != m.sql_fragments@[j].0@ by {
        assert((fragment_key())(v.fragments[i]) != (fragment_key())(v.fragments[j]));
    }
    assert forall|i: int, j: int| 0 <= i < j < m.result_maps@.len() implies m.result_maps@[i].id@
        != m.result_maps@[j].id@ by {
        assert((result_map_key())(v.result_maps[i]) != (result_map_key())(v.result_maps[j]));
    }
}

fn new_mapper() -> (m: Mapper)
    ensures
        mapper_view(m) == empty_mapper(),
{
    let m = Mapper {
        namespace: String::new(),
        statements: Vec::new(),
        result_maps: Vec::new(),
        sql_fragments: Vec::new(),
    };
    assert(mapper_view(m).statements =~= empty_mapper().statements);
    assert(mapper_view(m).result_maps =~= empty_mapper().result_maps);
    assert(mapper_view(m).fragments =~= empty_mapper().fragments);
    m
}

/// Builds the mapper that a document's events describe (see
/// `parse_mapper_events`); the only failure is a missing required attribute.
pub fn parse_events(events: &Vec<XmlEvent>) -> (r: Result<Mapper, ParseError>)
    requires
        events.len() + 2 < usize::MAX,
    ensures
        match r {
            Ok(m) => parse_mapper_events(events@) == Ok::<MapperModel, Missing>(mapper_view(m))
                && m.wf(),
            Err(x) => x is MissingAttribute && parse_mapper_events(events@) == Err::<
                MapperModel,
                Missing,
            >(err_view(x)),
        },
{
    let mut m = new_mapper();
    let mut p: usize = 0;
    let mut f: usize = events.len() + 1;
    let mut im = false;
    loop
        invariant
            p <= events.len() + 1,
            events.len() + 2 < usize::MAX,
            parse_mapper_events(events@) == parse_top(events@, p as int, f as nat, im, mapper_view(m)),
        ensures
            parse_mapper_events(events@) == Ok::<MapperModel, Missing>(mapper_view(m)),
        decreases f,
    {
        if f == 0 || p >= events.len() {
            break;
        }
        let (tag, hb) = match &events[p] {
            XmlEvent::Eof => {
                break;
            },
            XmlEvent::End(n) => {
                if is_named(n, "mapper") || is_named(n, "sqlmap") {
                    break;
                }
                p = p + 1;
                f = f - 1;
                continue;
            },
            XmlEvent::Start(tag) => (tag, true),
            XmlEvent::Empty(tag) => (tag, false),
            _ => {
                p = p + 1;
                f = f - 1;
                continue;
            },
        };
        assert(parse_top(events@, p as int, f as nat, im, mapper_view(m)) == match top_element(
            events@,
            p as int,
            (f - 1) as nat,
            im,
            mapper_view(m),
            *tag,
            hb,
        ) {
            Ok((im2, m2, next)) => parse_top(events@, next, (f - 1) as nat, im2, m2),
            Err(x) => Err(x),
        });
        match top_element_exec(events, p, f - 1, im, &mut m, tag, hb) {
            Ok((im2, next)) => {
                im = im2;
                p = next;
            },
            Err(x) => {
                return Err(x);
            },
        }
        f = f - 1;
    }
    proof {
        law_parsed_ids_unique(events@);
        lemma_wf_of_view(m);
    }
    Ok(m)
}

/// `e` opens a statement element whose `id` is `id`.
pub open spec fn opens_statement(e: XmlEvent, id: Seq<char>) -> bool {
    match e {
        XmlEvent::Start(t) => statement_kind(t.name@) is Some && attr_of(t.attrs@, "id"@) == Some(id),
        XmlEvent::Empty(t) => statement_kind(t.name@) is Some && attr_of(t.attrs@, "id"@) == Some(id),
        _ => false,
    }
}

/// `e` opens a `sql` element whose `id` is `id`.
pub open spec fn opens_fragment(e: XmlEvent, id: Seq<char>) -> bool {
    match e {
        XmlEvent::Start(t) => t.name@ == "sql"@ && attr_of(t.attrs@, "id"@) == Some(id),
        XmlEvent::Empty(t) => t.name@ == "sql"@ && attr_of(t.attrs@, "id"@) == Some(id),
        _ => false,
    }
}

/// Every statement id and every fragment id of `m` is the `id` of a
/// statement element, or of a `sql` element, among `evs`.
pub open spec fn ids_from(evs: Seq<XmlEvent>, m: MapperModel) -> bool {
    &&& forall|i: int|
        0 <= i < m.statements.len() ==> exists|p: int|
            0 <= p < evs.len() && opens_statement(evs[p], (#[trigger] m.statements[i]).id)
    &&& forall|i: int|
        0 <= i < m.fragments.len() ==> exists|p: int|
            0 <= p < evs.len() && opens_fragment(evs[p], (#[trigger] m.fragments[i]).0)
}

proof fn lemma_upsert_members<T>(s: Seq<T>, x: T, key: spec_fn(T) -> Seq<char>)
    ensures
        forall|i: int|
            0 <= i < upsert(s, x, key).len() ==> #[trigger] upsert(s, x, key)[i] == x || (i
                < s.len() && upsert(s, x, key)[i] == s[i]),
{
}

proof fn lemma_top_element_ids(
    evs: Seq<XmlEvent>,
    pos: int,
    fuel: nat,
    im: bool,
    m: MapperModel,
    tag: Tag,
    hb: bool,
)
    requires
        0 <= pos < evs.len(),
        evs[pos] == (if hb {
            XmlEvent::Start(tag)
        } else {
            XmlEvent::Empty(tag)
        }),
        ids_from(evs, m),
    ensures
        top_element(evs, pos, fuel, im, m, tag, hb) matches Ok((_, m2, _)) ==> ids_from(evs, m2),
{
    let name = tag.name@;
    let attrs = tag.attrs@;
    if name == "mapper"@ || name == "sqlmap"@ {
    } else if im && statement_kind(name) is Some {
        if let Some(id) = attr_of(attrs, "id"@) {
            if let Ok((ns, tx, e)) = body_of(evs, pos, fuel, hb) {
                let x = make_statement(statement_kind(name)->0, id, attrs, ns, tx);
                lemma_upsert_members(m.statements, x, statement_key());
                let u = upsert(m.statements, x, statement_key());
                assert(opens_statement(evs[pos], x.id));
                assert forall|i: int| 0 <= i < u.len() implies exists|p: int|
                    0 <= p < evs.len() && opens_statement(evs[p], (#[trigger] u[i]).id) by {
                    if u[i] == x {
                        assert(opens_statement(evs[pos], u[i].id));
                    } else {
                        assert(u[i] == m.statements[i]);
                    }
                }
            }
        }
    } else if im && name == "sql"@ {
        if let Some(id) = attr_of(attrs, "id"@) {
            if let Ok((ns, _, e)) = body_of(evs, pos, fuel, hb) {
                let x = (id, ns);
                lemma_upsert_members(m.fragments, x, fragment_key());
                let u = upsert(m.fragments, x, fragment_key());
                assert(opens_fragment(evs[pos], x.0));
                assert forall|i: int| 0 <= i < u.len() implies exists|p: int|
                    0 <= p < evs.len() && opens_fragment(evs[p], (#[trigger] u[i]).0) by {
                    if u[i] == x {
                        assert(opens_fragment(evs[pos], u[i].0));
                    } else {
                        assert(u[i] == m.fragments[i]);
                    }
                }
            }
        }
    } else if im && name == "resultMap"@ {
    }
}

proof fn lemma_parse_top_ids(evs: Seq<XmlEvent>, pos: int, fuel: nat, im: bool, m: MapperModel)
    requires
        ids_from(evs, m),
    ensures
        parse_top(evs, pos, fuel, im, m) matches Ok(r) ==> ids_from(evs, r),
    decreases fuel,
{
    if !(fuel == 0 || pos < 0 || pos >= evs.len()) {
        match evs[pos] {
            XmlEvent::Start(tag) => {
                lemma_top_element_ids(evs, pos, (fuel - 1) as nat, im, m, tag, true);
                if let Ok((im2, m2, next)) = top_element(evs, pos, (fuel - 1) as nat, im, m, tag, true) {
                    lemma_parse_top_ids(evs, next, (fuel - 1) as nat, im2, m2);
                }
            },
            XmlEvent::Empty(tag) => {
                lemma_top_element_ids(evs, pos, (fuel - 1) as nat, im, m, tag, false);
                if let Ok((im2, m2, next)) = top_element(evs, pos, (fuel - 1) as nat, im, m, tag, false) {
                    lemma_parse_top_ids(evs, next, (fuel - 1) as nat, im2, m2);
                }
            },
            XmlEvent::Eof => {},
            _ => {
                lemma_parse_top_ids(evs, pos + 1, (fuel - 1) as nat, im, m);
            },
        }
    }
}

/// Every statement id and every fragment id of a parsed mapper is the `id`
/// attribute of a statement element, or of a `sql` element, of the document.
pub proof fn law_parsed_ids_come_from_the_document(evs: Seq<XmlEvent>)
    ensures
        parse_mapper_events(evs) matches Ok(m) ==> ids_from(evs, m),
{
    lemma_parse_top_ids(evs, 0, (evs.len() + 1) as nat, false, empty_mapper());
}

/// A parser of one mapper document.
#[derive(Debug)]
pub struct MyBatisXmlParser {
    pub xml: Vec<u8>,
}

impl MyBatisXmlParser {
    /// A parser of the document `xml_content`.
    pub fn new(xml_content: &str) -> (r: Self)
        ensures
            r.xml@ == xml_content.spec_bytes(),
    {
        Self::new_from_bytes(xml_content.as_bytes())
    }

    /// A parser of the document `xml_bytes`.
    pub fn new_from_bytes(xml_bytes: &[u8]) -> (r: Self)
        ensures
            r.xml@ == xml_bytes@,
    {
        MyBatisXmlParser { xml: vstd::slice::slice_to_vec(xml_bytes) }
    }

    /// Parses the document: reads its events (see `document_events`), then
    /// builds the mapper they describe (see `parse_events`). Malformed XML and
    /// bad UTF-8 come back as errors from the reading.
    pub fn parse_mapper(&mut self) -> (r: Result<Mapper, ParseError>)
        ensures
            match document_events(old(self).xml@) {
                Some(evs) => if evs.len() + 2 < usize::MAX {
                    match r {
                        Ok(m) => parse_mapper_events(evs) == Ok::<MapperModel, Missing>(
                            mapper_view(m),
                        ),
                        Err(x) => x is MissingAttribute && parse_mapper_events(evs) == Err::<
                            MapperModel,
                            Missing,
                        >(err_view(x)),
                    }
                } else {
                    r matches Err(x) && x is MalformedXml
                },
                None => r matches Err(x) && (x is MalformedXml || x is EncodingError),
            },
            r matches Ok(m) ==> m.wf(),
    {
        let events = read_events(self.xml.as_slice())?;
        if events.len() >= usize::MAX - 2 {
            return Err(ParseError::MalformedXml("too many events".to_owned()));
        }
        parse_events(&events)
    }
}

} // verus!
