//! Dynamic SQL templates in the MyBatis mapper dialect: a parser from mapper
//! XML to a statement model, and a generator from that model and a parameter
//! environment to SQL text.
use vstd::prelude::*;

pub mod text;
pub mod value;
pub mod model;
pub mod params;
pub mod condition;
pub mod generator;
pub mod xml;
pub mod parser;
pub mod laws;
pub mod marker;

pub use condition::{evaluate_condition, KeyValue};
pub use generator::{generate_sql, missing_placeholders};
pub use marker::{match_statement, replace_included_sql};
pub use model::{DynamicSqlNode, Mapper, ResultColumn, ResultMap, SqlStatement, StatementType};
pub use params::Params;
pub use parser::{extract_parameters, parse_events, MyBatisXmlParser};
pub use value::Value;
pub use xml::{read_events, ParseError, Tag, XmlEvent};

verus! {

/// Adds two numbers.
pub fn add(left: u64, right: u64) -> (r: u64)
    requires
        left + right <= u64::MAX,
    ensures
        r == left + right,
{
    left + right
}

} // verus!
