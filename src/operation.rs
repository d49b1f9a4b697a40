//! Subgraph operation text in a canonical printing, so that formatting
//! differences between planners do not count as divergences.
use vstd::prelude::*;

verus! {

/// The text that the GraphQL printer gives for a parsed document, or `None`
/// where the text does not parse.
pub uninterp spec fn reprinted_operation(text: Seq<char>) -> Option<Seq<char>>;

/// Relies on apollo_compiler::ast::Document::parse and its serializer without
/// indentation: the printed text depends on the source text alone, and there
/// is none where parsing reports errors.
#[verifier::external_body]
fn reprint_operation(text: &str) -> (r: Option<String>)
    ensures
        r is Some <==> reprinted_operation(text@) is Some,
        r matches Some(s) ==> reprinted_operation(text@) == Some(s@),
{
    match apollo_compiler::ast::Document::parse(text, "operation.graphql") {
        Ok(doc) => Some(doc.serialize().no_indent().to_string()),
        Err(_) => None,
    }
}

/// The printed text where there is one, else the raw text.
pub open spec fn canonical_text(raw: Seq<char>, printed: Option<Seq<char>>) -> Seq<char> {
    match printed {
        Some(p) => p,
        None => raw,
    }
}

/// The canonical text of an operation.
pub open spec fn operation_text(raw: Seq<char>) -> Seq<char> {
    canonical_text(raw, reprinted_operation(raw))
}

/// Picks the printed text of an operation, falling back to its raw text
/// where it did not parse.
pub fn choose_operation_text(raw: &str, printed: Option<String>) -> (r: String)
    ensures
        r@ == canonical_text(raw@, match printed { Some(p) => Some(p@), None => None }),
{
    match printed {
        Some(p) => p,
        None => raw.to_owned(),
    }
}

/// The canonical text of an operation: reprinted by the GraphQL printer.
pub fn normalize_operation(raw: &str) -> (r: String)
    ensures
        r@ == operation_text(raw@),
{
    let printed = reprint_operation(raw);
    choose_operation_text(raw, printed)
}

} // verus!
