//! Statement elements and include markers in flattened SQL text.
use vstd::prelude::*;
use crate::parser::is_named;
use crate::text::{chars_of, extend_chars, string_of};

verus! {

/// Whether an element name opens a statement or a fragment.
pub open spec fn is_statement_element(name: Seq<char>) -> bool {
    name == "statement"@ || name == "select"@ || name == "insert"@ || name == "update"@ || name
        == "delete"@ || name == "sql"@
}

/// Whether `element_name` opens a statement or a fragment.
pub fn match_statement(element_name: &String) -> (r: bool)
    ensures
        r == is_statement_element(element_name@),
{
    is_named(element_name, "statement") || is_named(element_name, "select") || is_named(
        element_name,
        "insert",
    ) || is_named(element_name, "update") || is_named(element_name, "delete") || is_named(
        element_name,
        "sql",
    )
}

/// What `regex::Regex::new(pattern)` and then `replace_all(text, rep)` give:
/// the replaced text, or nothing when the pattern does not compile.
pub uninterp spec fn regex_replaced(pattern: Seq<char>, text: Seq<char>, rep: Seq<char>) -> Option<
    Seq<char>,
>;

/// Relies on `regex::Regex::new` and `Regex::replace_all`: every match of
/// `pattern` in `text` replaced by `rep` (with `$name` expanded).
#[verifier::external_body]
fn regex_replace_all(pattern: &str, text: &str, rep: &str) -> (r: Option<String>)
    ensures
        match r {
            Some(s) => regex_replaced(pattern@, text@, rep@) == Some(s@),
            None => regex_replaced(pattern@, text@, rep@) is None,
        },
{
    let re = regex::Regex::new(pattern).ok()?;
    Some(re.replace_all(text, rep).into_owned())
}

/// The marker that stands for the fragment `id` in flattened text.
pub open spec fn include_marker(id: Seq<char>) -> Seq<char> {
    "__INCLUDE_ID_"@ + id + "_END__"@
}

/// Replaces the markers of fragment `id` in `orig_sql` by `sql_part`; the
/// marker is read as a regular expression. Where it is not a valid one, the
/// text comes back unchanged.
pub fn replace_included_sql(orig_sql: &str, id: &str, sql_part: &str) -> (r: String)
    ensures
        r@ == match regex_replaced(include_marker(id@), orig_sql@, sql_part@) {
            Some(t) => t,
            None => orig_sql@,
        },
{
    let mut p = chars_of("__INCLUDE_ID_");
    let i = chars_of(id);
    let e = chars_of("_END__");
    extend_chars(&mut p, &i);
    extend_chars(&mut p, &e);
    let pattern = string_of(&p);
    match regex_replace_all(pattern.as_str(), orig_sql, sql_part) {
        Some(t) => t,
        None => orig_sql.to_owned(),
    }
}

} // verus!
