//! How Rust sources are cut into spans.

use crate::parsers::strategy::ParsingStrategy;
use vstd::prelude::*;
use vstd::string::StringExecFns;

verus! {

/// The query that captures the top-level declarations of a Rust file.
pub open spec fn rust_query() -> Seq<char> {
    "\n        (enum_item) @item\n        (struct_item) @item\n        (impl_item) @item\n    "@
}

/// Rust sources are parsed with the `rust` grammar; every enumeration,
/// structure and implementation is a span.
pub fn rust_strategy() -> (r: ParsingStrategy)
    ensures
        r.language() == "rust"@,
        r.query() == rust_query(),
{
    ParsingStrategy::TreeSitter {
        language: String::from_str("rust"),
        query: String::from_str(
            "\n        (enum_item) @item\n        (struct_item) @item\n        (impl_item) @item\n    ",
        ),
    }
}

} // verus!
