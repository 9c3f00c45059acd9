//! The call into the tree-sitter parsing library and its Rust grammar.
//!
//! What the library captures in a text is a function of the query and the
//! text. It is given a name here and not written out; the span extractor
//! checks every byte range that comes back before it uses it.

use tree_sitter::{Parser, Query, QueryCursor};
use vstd::prelude::*;
use vstd::string::StringExecFns;

verus! {

/// One capture of a query match: which capture name it belongs to, by its
/// index in the query, and the byte range of the captured node.
#[derive(Debug, Clone, Copy, PartialEq, Eq, Structural)]
pub struct Capture {
    pub index: u32,
    pub start_byte: usize,
    pub end_byte: usize,
}

/// The grammars that texts can be parsed with.
#[derive(Debug, Clone, Copy, PartialEq, Eq, Structural)]
pub enum Grammar {
    Rust,
}

/// Why the parsing library gave no captures.
#[derive(Debug, Clone, Copy, PartialEq, Eq, Structural)]
pub enum CaptureFailure {
    /// The parser refused the grammar.
    IncompatibleGrammar,
    /// The query text was refused.
    InvalidQuery,
    /// The parser gave no tree.
    NoTree,
}

/// The text ends with a line feed.
pub open spec fn ends_with_line_feed(text: Seq<char>) -> bool {
    text.len() > 0 && text.last() == '\n'
}

/// A query text with a line feed behind it, which means the same to the
/// parsing library.
pub fn terminated(query: &str) -> (r: String)
    ensures
        r@ == query@ + "\n"@,
        ends_with_line_feed(r@),
{
    let mut text = String::from_str(query);
    text.append("\n");
    proof {
        reveal_strlit("\n");
    }
    text
}

/// What the parsing library captures in a Rust text with a query: every
/// capture of every match, in the order in which the library reports
/// them, or why it gave none.
pub uninterp spec fn rust_captures(query: Seq<char>, content: Seq<char>) -> Result<
    Seq<Capture>,
    CaptureFailure,
>;

/// Parses a text with the Rust grammar and runs a query on its tree:
/// `tree_sitter_rust::language`, `tree_sitter::Parser::new` and
/// `set_language`, `Query::new`, `Parser::parse` without an earlier tree,
/// and `QueryCursor::matches` on the root of the tree with the same text.
/// Each capture is handed out as its index and its node's byte range. The
/// contract claims only that the result is the one that the library gives
/// for this query and this text. Where the library refuses a name in a
/// query, it cuts the name out of the text up to the next character that
/// cannot stand in a name, and fails where the text ends before one; so
/// the query has to end with a line feed.
#[verifier::external_body]
pub(crate) fn capture_rust(query: &str, content: &str) -> (r: Result<Vec<Capture>, CaptureFailure>)
    requires
        ends_with_line_feed(query@),
    ensures
        match r {
            Ok(captures) => rust_captures(query@, content@) == Ok::<Seq<Capture>, CaptureFailure>(
                captures@,
            ),
            Err(failure) => rust_captures(query@, content@) == Err::<Seq<Capture>, CaptureFailure>(
                failure,
            ),
        },
{
    let language = tree_sitter_rust::language();
    let mut parser = Parser::new();
    if parser.set_language(language).is_err() {
        return Err(CaptureFailure::IncompatibleGrammar);
    }
    let Ok(query) = Query::new(language, query) else { return Err(CaptureFailure::InvalidQuery) };
    let Some(tree) = parser.parse(content, None) else { return Err(CaptureFailure::NoTree) };
    let mut captures = Vec::new();
    for m in QueryCursor::new().matches(&query, tree.root_node(), content.as_bytes()) {
        for c in m.captures {
            captures.push(Capture { index: c.index, start_byte: c.node.start_byte(), end_byte: c.node.end_byte() });
        }
    }
    Ok(captures)
}

} // verus!
