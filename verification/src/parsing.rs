//! Cutting a text into the bare source of its spans, by language.

use crate::languages::LanguageConfig;
use crate::parsers::strategy::{
    failure_error, slice_span, span_text, valid_range, ParseError,
};
use crate::treesitter::{
    capture_rust, rust_captures, terminated, Capture, CaptureFailure, Grammar,
};
use vstd::prelude::*;
use vstd::string::StringExecFns;

verus! {

/// One span of a file: its byte range and its source text.
#[derive(Debug, Clone, PartialEq, Eq)]
pub struct ContextDocument {
    pub start_byte: usize,
    pub end_byte: usize,
    pub content: String,
}

/// A bare span as a mathematical value.
pub struct SourceSpan {
    pub start_byte: usize,
    pub end_byte: usize,
    pub content: Seq<char>,
}

impl View for ContextDocument {
    type V = SourceSpan;

    open spec fn view(&self) -> SourceSpan {
        SourceSpan { start_byte: self.start_byte, end_byte: self.end_byte, content: self.content@ }
    }
}

/// The bare spans as mathematical values.
pub open spec fn spans_view(documents: Seq<ContextDocument>) -> Seq<SourceSpan> {
    Seq::new(documents.len(), |i: int| documents[i]@)
}

/// The bare spans of a list of captures: one for each capture with the
/// index `item`, in the order of the captures.
pub open spec fn spans_of(content: Seq<char>, captures: Seq<Capture>, item: u32) -> Seq<SourceSpan>
    decreases captures.len(),
{
    if captures.len() == 0 {
        Seq::empty()
    } else if captures.last().index == item {
        spans_of(content, captures.drop_last(), item).push(
            SourceSpan {
                start_byte: captures.last().start_byte,
                end_byte: captures.last().end_byte,
                content: span_text(content, captures.last().start_byte, captures.last().end_byte),
            },
        )
    } else {
        spans_of(content, captures.drop_last(), item)
    }
}

/// Every capture with the index `item` has a range that can be cut out of
/// the text.
pub open spec fn item_ranges_valid(content: Seq<char>, captures: Seq<Capture>, item: u32) -> bool {
    forall|i: int|
        0 <= i < captures.len() && (#[trigger] captures[i]).index == item ==> valid_range(
            content,
            captures[i].start_byte,
            captures[i].end_byte,
        )
}

/// Turns the captures of a query into bare spans. A capture with the
/// index `item` whose range cannot be cut out of the text fails the whole
/// file.
pub fn spans_from_captures(content: &str, captures: &Vec<Capture>, item: u32) -> (r: Result<
    Vec<ContextDocument>,
    ParseError,
>)
    ensures
        match r {
            Ok(documents) => item_ranges_valid(content@, captures@, item) && spans_view(documents@)
                == spans_of(content@, captures@, item),
            Err(e) => e == ParseError::InvalidRange && !item_ranges_valid(
                content@,
                captures@,
                item,
            ),
        },
{
    let mut documents: Vec<ContextDocument> = Vec::new();
    let mut i: usize = 0;
    while i < captures.len()
        invariant
            i <= captures.len(),
            item_ranges_valid(content@, captures@.take(i as int), item),
            spans_view(documents@) == spans_of(content@, captures@.take(i as int), item),
        decreases captures.len() - i,
    {
        let capture = captures[i];
        assert(captures@.take(i + 1).drop_last() =~= captures@.take(i as int));
        assert(captures@.take(i + 1).last() == capture);
        if capture.index == item {
            match slice_span(content, capture.start_byte, capture.end_byte) {
                Some(span) => {
                    let ghost earlier = documents@;
                    let document = ContextDocument {
                        start_byte: capture.start_byte,
                        end_byte: capture.end_byte,
                        content: String::from_str(span),
                    };
                    documents.push(document);
                    assert(spans_view(documents@) =~= spans_view(earlier).push(document@));
                },
                None => {
                    assert(captures@[i as int] == capture);
                    return Err(ParseError::InvalidRange);
                },
            }
        }
        assert forall|j: int|
            0 <= j < i + 1 && (#[trigger] captures@.take(i + 1)[j]).index == item implies valid_range(
            content@,
            captures@.take(i + 1)[j].start_byte,
            captures@.take(i + 1)[j].end_byte,
        ) by {
            if j < i {
                assert(captures@.take(i as int)[j] == captures@.take(i + 1)[j]);
            }
        }
        i = i + 1;
    }
    assert(captures@.take(i as int) =~= captures@);
    Ok(documents)
}

/// What cutting a text into bare spans gives: the spans of the captures
/// that the parsing library reports for the language's query, with a line
/// feed behind it, and the text; or the error. A language other than
/// `Rust` has no grammar; a failure of the library is handed on; a capture
/// with the index `item` whose range cannot be cut out of the text fails
/// the whole text.
pub open spec fn bare_outcome(
    language: Seq<char>,
    query: Seq<char>,
    content: Seq<char>,
    item: u32,
) -> Result<Seq<SourceSpan>, ParseError> {
    if language != "Rust"@ {
        Err(ParseError::UnsupportedLanguage)
    } else {
        match rust_captures(query + "\n"@, content) {
            Ok(captures) => if item_ranges_valid(content, captures, item) {
                Ok(spans_of(content, captures, item))
            } else {
                Err(ParseError::InvalidRange)
            },
            Err(failure) => Err(failure_error(failure)),
        }
    }
}

/// The span extractor by language configuration.
pub struct FileContextParser {}

impl FileContextParser {
    /// The bare spans that the language's query finds in a text.
    pub fn parse_content(content: &str, config: &LanguageConfig) -> (r: Result<
        Vec<ContextDocument>,
        ParseError,
    >)
        ensures
            match bare_outcome(config.name@, config.query@, content@, 0) {
                Ok(spans) => r is Ok && spans_view(r->Ok_0@) == spans,
                Err(e) => r == Err::<Vec<ContextDocument>, ParseError>(e),
            },
    {
        match config.get_treesitter_language() {
            Ok(Grammar::Rust) => {
                let query_text = terminated(config.query.as_str());
                match capture_rust(query_text.as_str(), content) {
                    Ok(captures) => spans_from_captures(content, &captures, config.item_idx()),
                    Err(CaptureFailure::IncompatibleGrammar) => Err(ParseError::IncompatibleGrammar),
                    Err(CaptureFailure::InvalidQuery) => Err(ParseError::InvalidQuery),
                    Err(CaptureFailure::NoTree) => Err(ParseError::NoTree),
                }
            },
            Err(e) => Err(e),
        }
    }
}

} // verus!
