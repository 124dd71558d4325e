//! The statement model that a mapper document parses into.
use vstd::prelude::*;
use crate::text::{chars_of, chars_eq};

verus! {

/// The kind of a mapped statement.
#[derive(Debug, Clone, Copy, PartialEq, Eq, Structural)]
pub enum StatementType {
    Select,
    Insert,
    Update,
    Delete,
}

/// A node of a dynamic SQL tree.
#[derive(Debug)]
pub enum DynamicSqlNode {
    Text(String),
    If { test: String, contents: Vec<DynamicSqlNode> },
    Choose { whens: Vec<(String, Vec<DynamicSqlNode>)>, otherwise: Option<Vec<DynamicSqlNode>> },
    Foreach {
        collection: String,
        item: String,
        index: Option<String>,
        open: String,
        separator: String,
        close: String,
        contents: Vec<DynamicSqlNode>,
    },
    Trim {
        prefix: Option<String>,
        prefix_overrides: Option<String>,
        suffix: Option<String>,
        suffix_overrides: Option<String>,
        contents: Vec<DynamicSqlNode>,
    },
    Bind { name: String, value: String },
    Include { ref_id: String },
    Where {
        prefix_overrides: Option<String>,
        suffix_overrides: Option<String>,
        contents: Vec<DynamicSqlNode>,
    },
    SetClause {
        prefix_overrides: Option<String>,
        suffix_overrides: Option<String>,
        contents: Vec<DynamicSqlNode>,
    },
}

/// A mapped statement.
#[derive(Debug)]
pub struct SqlStatement {
    pub id: String,
    pub stmt_type: Option<StatementType>,
    pub parameter_type: Option<String>,
    pub result_type: Option<String>,
    pub result_map: Option<String>,
    /// The literal text directly inside the statement element.
    pub sql: String,
    /// The body: its single node, or a bare `Trim` round several.
    pub dynamic_sql: Option<DynamicSqlNode>,
    /// The names of the `#{..}` placeholders of `sql`, first occurrence first.
    pub parameters: Vec<String>,
}

/// A result map; carried along, never consulted when generating.
#[derive(Debug)]
pub struct ResultMap {
    pub id: String,
    pub map_type: String,
    pub result_columns: Vec<ResultColumn>,
}

#[derive(Debug)]
pub struct ResultColumn {
    pub property: String,
    pub column: String,
    pub java_type: Option<String>,
    pub jdbc_type: Option<String>,
}

/// A parsed mapper document.
#[derive(Debug)]
pub struct Mapper {
    pub namespace: String,
    pub statements: Vec<SqlStatement>,
    pub result_maps: Vec<ResultMap>,
    /// Reusable fragments, by id.
    pub sql_fragments: Vec<(String, Vec<DynamicSqlNode>)>,
}

/// The body of the fragment named `id`; where an id repeats, the last one counts.
pub open spec fn fragment_of(s: Seq<(String, Vec<DynamicSqlNode>)>, id: Seq<char>) -> Option<
    Seq<DynamicSqlNode>,
>
    decreases s.len(),
{
    if s.len() == 0 {
        None
    } else if s.last().0@ == id {
        Some(s.last().1@)
    } else {
        fragment_of(s.drop_last(), id)
    }
}

/// The statement named `id`; where an id repeats, the last one counts.
pub open spec fn statement_of(s: Seq<SqlStatement>, id: Seq<char>) -> Option<SqlStatement>
    decreases s.len(),
{
    if s.len() == 0 {
        None
    } else if s.last().id@ == id {
        Some(s.last())
    } else {
        statement_of(s.drop_last(), id)
    }
}

/// The ids of `s` are pairwise distinct.
pub open spec fn distinct_ids<T>(s: Seq<T>, id: spec_fn(T) -> Seq<char>) -> bool {
    forall|i: int, j: int| 0 <= i < j < s.len() ==> id(s[i]) != id(s[j])
}

impl Mapper {
    /// Statement ids are unique, and so are fragment ids and result-map ids.
    pub open spec fn wf(&self) -> bool {
        &&& distinct_ids(self.statements@, |s: SqlStatement| s.id@)
        &&& distinct_ids(self.sql_fragments@, |f: (String, Vec<DynamicSqlNode>)| f.0@)
        &&& distinct_ids(self.result_maps@, |r: ResultMap| r.id@)
    }

    /// The fragment named `id`.
    pub fn fragment(&self, id: &str) -> (r: Option<&Vec<DynamicSqlNode>>)
        ensures
            match r {
                Some(v) => fragment_of(self.sql_fragments@, id@) == Some(v@),
                None => fragment_of(self.sql_fragments@, id@) is None,
            },
    {
        let k = chars_of(id);
        let mut j = self.sql_fragments.len();
        assert(self.sql_fragments@.subrange(0, j as int) =~= self.sql_fragments@);
        while j > 0
            invariant
                j <= self.sql_fragments.len(),
                k@ == id@,
                fragment_of(self.sql_fragments@, id@) == fragment_of(
                    self.sql_fragments@.subrange(0, j as int),
                    id@,
                ),
            decreases j,
        {
            let name = chars_of(self.sql_fragments[j - 1].0.as_str());
            assert(self.sql_fragments@.subrange(0, j as int).drop_last()
                =~= self.sql_fragments@.subrange(0, j - 1));
            if chars_eq(&name, &k) {
                return Some(&self.sql_fragments[j - 1].1);
            }
            j = j - 1;
        }
        None
    }

    /// The statement named `id`.
    pub fn statement(&self, id: &str) -> (r: Option<&SqlStatement>)
        ensures
            match r {
                Some(s) => statement_of(self.statements@, id@) == Some(*s),
                None => statement_of(self.statements@, id@) is None,
            },
    {
        let k = chars_of(id);
        let mut j = self.statements.len();
        assert(self.statements@.subrange(0, j as int) =~= self.statements@);
        while j > 0
            invariant
                j <= self.statements.len(),
                k@ == id@,
                statement_of(self.statements@, id@) == statement_of(
                    self.statements@.subrange(0, j as int),
                    id@,
                ),
            decreases j,
        {
            let name = chars_of(self.statements[j - 1].id.as_str());
            assert(self.statements@.subrange(0, j as int).drop_last() =~= self.statements@.subrange(
                0,
                j - 1,
            ));
            if chars_eq(&name, &k) {
                return Some(&self.statements[j - 1]);
            }
            j = j - 1;
        }
        None
    }
}

/// A node as the contracts see it.
pub enum NodeModel {
    Text(Seq<char>),
    If { test: Seq<char>, contents: Seq<NodeModel> },
    Choose { whens: Seq<(Seq<char>, Seq<NodeModel>)>, otherwise: Option<Seq<NodeModel>> },
    Foreach {
        collection: Seq<char>,
        item: Seq<char>,
        index: Option<Seq<char>>,
        open: Seq<char>,
        separator: Seq<char>,
        close: Seq<char>,
        contents: Seq<NodeModel>,
    },
    Trim {
        prefix: Option<Seq<char>>,
        prefix_overrides: Option<Seq<char>>,
        suffix: Option<Seq<char>>,
        suffix_overrides: Option<Seq<char>>,
        contents: Seq<NodeModel>,
    },
    Bind { name: Seq<char>, value: Seq<char> },
    Include { ref_id: Seq<char> },
    Where {
        prefix_overrides: Option<Seq<char>>,
        suffix_overrides: Option<Seq<char>>,
        contents: Seq<NodeModel>,
    },
    SetClause {
        prefix_overrides: Option<Seq<char>>,
        suffix_overrides: Option<Seq<char>>,
        contents: Seq<NodeModel>,
    },
}

pub open spec fn sview(o: Option<String>) -> Option<Seq<char>> {
    match o {
        Some(s) => Some(s@),
        None => None,
    }
}

pub open spec fn node_view(n: DynamicSqlNode) -> NodeModel
    decreases n,
{
    match n {
        DynamicSqlNode::Text(c) => NodeModel::Text(c@),
        DynamicSqlNode::If { test, contents } => NodeModel::If {
            test: test@,
            contents: nodes_view(contents@),
        },
        DynamicSqlNode::Choose { whens, otherwise } => NodeModel::Choose {
            whens: whens_view(whens@),
            otherwise: match otherwise {
                Some(b) => Some(nodes_view(b@)),
                None => None,
            },
        },
        DynamicSqlNode::Foreach { collection, item, index, open, separator, close, contents } => {
            NodeModel::Foreach {
                collection: collection@,
                item: item@,
                index: sview(index),
                open: open@,
                separator: separator@,
                close: close@,
                contents: nodes_view(contents@),
            }
        },
        DynamicSqlNode::Trim { prefix, prefix_overrides, suffix, suffix_overrides, contents } => {
            NodeModel::Trim {
                prefix: sview(prefix),
                prefix_overrides: sview(prefix_overrides),
                suffix: sview(suffix),
                suffix_overrides: sview(suffix_overrides),
                contents: nodes_view(contents@),
            }
        },
        DynamicSqlNode::Bind { name, value } => NodeModel::Bind { name: name@, value: value@ },
        DynamicSqlNode::Include { ref_id } => NodeModel::Include { ref_id: ref_id@ },
        DynamicSqlNode::Where { prefix_overrides, suffix_overrides, contents } => NodeModel::Where {
            prefix_overrides: sview(prefix_overrides),
            suffix_overrides: sview(suffix_overrides),
            contents: nodes_view(contents@),
        },
        DynamicSqlNode::SetClause { prefix_overrides, suffix_overrides, contents } => {
            NodeModel::SetClause {
                prefix_overrides: sview(prefix_overrides),
                suffix_overrides: sview(suffix_overrides),
                contents: nodes_view(contents@),
            }
        },
    }
}

pub open spec fn nodes_view(s: Seq<DynamicSqlNode>) -> Seq<NodeModel>
    decreases s,
{
    if s.len() == 0 {
        Seq::empty()
    } else {
        nodes_view(s.drop_last()).push(node_view(s.last()))
    }
}

pub open spec fn whens_view(s: Seq<(String, Vec<DynamicSqlNode>)>) -> Seq<(Seq<char>, Seq<NodeModel>)>
    decreases s,
{
    if s.len() == 0 {
        Seq::empty()
    } else {
        whens_view(s.drop_last()).push((s.last().0@, nodes_view(s.last().1@)))
    }
}

pub proof fn lemma_nodes_view_push(s: Seq<DynamicSqlNode>, n: DynamicSqlNode)
    ensures
        nodes_view(s.push(n)) == nodes_view(s).push(node_view(n)),
{
    assert(s.push(n).drop_last() =~= s);
}

pub proof fn lemma_whens_view_push(s: Seq<(String, Vec<DynamicSqlNode>)>, w: (String, Vec<DynamicSqlNode>))
    ensures
        whens_view(s.push(w)) == whens_view(s).push((w.0@, nodes_view(w.1@))),
{
    assert(s.push(w).drop_last() =~= s);
}

pub proof fn lemma_nodes_view_len(s: Seq<DynamicSqlNode>)
    ensures
        nodes_view(s).len() == s.len(),
    decreases s.len(),
{
    if s.len() > 0 {
        lemma_nodes_view_len(s.drop_last());
    }
}

/// A statement as the contracts see it.
pub struct StatementModel {
    pub id: Seq<char>,
    pub stmt_type: Option<StatementType>,
    pub parameter_type: Option<Seq<char>>,
    pub result_type: Option<Seq<char>>,
    pub result_map: Option<Seq<char>>,
    pub sql: Seq<char>,
    pub dynamic_sql: Option<NodeModel>,
    pub parameters: Seq<Seq<char>>,
}

pub open spec fn statement_view(s: SqlStatement) -> StatementModel {
    StatementModel {
        id: s.id@,
        stmt_type: s.stmt_type,
        parameter_type: sview(s.parameter_type),
        result_type: sview(s.result_type),
        result_map: sview(s.result_map),
        sql: s.sql@,
        dynamic_sql: match s.dynamic_sql {
            Some(n) => Some(node_view(n)),
            None => None,
        },
        parameters: s.parameters@.map_values(|p: String| p@),
    }
}

/// A result column as the contracts see it.
pub struct ColumnModel {
    pub property: Seq<char>,
    pub column: Seq<char>,
    pub java_type: Option<Seq<char>>,
    pub jdbc_type: Option<Seq<char>>,
}

pub open spec fn column_view(c: ResultColumn) -> ColumnModel {
    ColumnModel {
        property: c.property@,
        column: c.column@,
        java_type: sview(c.java_type),
        jdbc_type: sview(c.jdbc_type),
    }
}

/// A result map as the contracts see it.
pub struct ResultMapModel {
    pub id: Seq<char>,
    pub map_type: Seq<char>,
    pub columns: Seq<ColumnModel>,
}

pub open spec fn result_map_view(r: ResultMap) -> ResultMapModel {
    ResultMapModel {
        id: r.id@,
        map_type: r.map_type@,
        columns: r.result_columns@.map_values(|c: ResultColumn| column_view(c)),
    }
}

/// A mapper as the contracts see it.
pub struct MapperModel {
    pub namespace: Seq<char>,
    pub statements: Seq<StatementModel>,
    pub result_maps: Seq<ResultMapModel>,
    pub fragments: Seq<(Seq<char>, Seq<NodeModel>)>,
}

pub open spec fn mapper_view(m: Mapper) -> MapperModel {
    MapperModel {
        namespace: m.namespace@,
        statements: m.statements@.map_values(|s: SqlStatement| statement_view(s)),
        result_maps: m.result_maps@.map_values(|r: ResultMap| result_map_view(r)),
        fragments: m.sql_fragments@.map_values(
            |f: (String, Vec<DynamicSqlNode>)| (f.0@, nodes_view(f.1@)),
        ),
    }
}

} // verus!
