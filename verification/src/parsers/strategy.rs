//! The span extractor: from the text of a file to its spans.

use crate::file_context::{ContextDocument, FileContext, FileDetails};
use crate::treesitter::{
    capture_rust, rust_captures, terminated, Capture, CaptureFailure, Grammar,
};
use sha2::{Digest, Sha256};
use vstd::prelude::*;
use vstd::string::{StringExecFns, StringSliceAdditionalSpecFns};
use vstd::utf8::{
    decode_utf8, encode_utf8, encode_utf8_decode_utf8, encode_utf8_valid_utf8, is_char_boundary,
};

verus! {

/// How the files of one kind are cut into spans.
#[derive(Debug, Clone, PartialEq, Eq)]
pub enum ParsingStrategy {
    TreeSitter { language: String, query: String },
}

impl ParsingStrategy {
    /// The name of the grammar.
    pub open spec fn language(&self) -> Seq<char> {
        match self {
            ParsingStrategy::TreeSitter { language, .. } => language@,
        }
    }

    /// The text of the query.
    pub open spec fn query(&self) -> Seq<char> {
        match self {
            ParsingStrategy::TreeSitter { query, .. } => query@,
        }
    }
}

/// Why a file gave no spans.
#[derive(Debug, Clone, Copy, PartialEq, Eq, Structural)]
pub enum ParseError {
    /// No grammar is known under this name.
    UnsupportedLanguage,
    /// The parsing library refused the grammar.
    IncompatibleGrammar,
    /// The parsing library refused the query.
    InvalidQuery,
    /// The parsing library gave no tree.
    NoTree,
    /// A captured range is empty or does not cut the text between
    /// characters.
    InvalidRange,
}

/// The capture that marks a span.
pub const ITEM_CAPTURE: u32 = 0;

/// The SHA-256 digest of a byte string.
pub uninterp spec fn sha256(bytes: Seq<u8>) -> Seq<u8>;

/// `sha2::Sha256::digest` (the one-shot form of `Digest`): the SHA-256
/// digest of the bytes, which is 32 bytes long.
#[verifier::external_body]
fn sha256_digest(bytes: &[u8]) -> (digest: Vec<u8>)
    ensures
        digest@ == sha256(bytes@),
        digest@.len() == 32,
{
    Sha256::digest(bytes).to_vec()
}

/// The digest under which a text is known.
pub fn get_sha(content: &str) -> (sha: Vec<u8>)
    ensures
        sha@ == sha256(encode_utf8(content@)),
        sha@.len() == 32,
{
    sha256_digest(content.as_bytes())
}

/// A span as a mathematical value.
pub struct Document {
    pub start_byte: usize,
    pub end_byte: usize,
    pub content: Seq<char>,
    pub sha: Seq<u8>,
}

impl View for ContextDocument {
    type V = Document;

    open spec fn view(&self) -> Document {
        Document {
            start_byte: self.start_byte,
            end_byte: self.end_byte,
            content: self.content@,
            sha: self.sha@,
        }
    }
}

/// The spans as mathematical values.
pub open spec fn documents_view(documents: Seq<ContextDocument>) -> Seq<Document> {
    Seq::new(documents.len(), |i: int| documents[i]@)
}

/// The byte range is not empty and both its ends lie between characters
/// of the text.
pub open spec fn valid_range(content: Seq<char>, start: usize, end: usize) -> bool {
    &&& start < end
    &&& is_char_boundary(encode_utf8(content), start as int)
    &&& is_char_boundary(encode_utf8(content).skip(start as int), end - start)
}

/// The text that a byte range of the UTF-8 encoding of `content` holds.
pub open spec fn span_text(content: Seq<char>, start: usize, end: usize) -> Seq<char> {
    decode_utf8(encode_utf8(content).subrange(start as int, end as int))
}

/// The text that is embedded for a span: the span's source between a line
/// that names the file and a fence that names the language.
pub open spec fn prompt(path: Seq<char>, language: Seq<char>, span: Seq<char>) -> Seq<char> {
    "The below is a code snippet from the '"@ + path + "' file.\n```"@ + language + "\n"@ + span
        + "\n```"@
}

/// The span that a capture stands for.
pub open spec fn document_of(
    path: Seq<char>,
    language: Seq<char>,
    content: Seq<char>,
    capture: Capture,
) -> Document {
    let text = prompt(path, language, span_text(content, capture.start_byte, capture.end_byte));
    Document {
        start_byte: capture.start_byte,
        end_byte: capture.end_byte,
        content: text,
        sha: sha256(encode_utf8(text)),
    }
}

/// The spans of a list of captures: one for each capture that marks a
/// span, in the order of the captures.
pub open spec fn documents_of(
    path: Seq<char>,
    language: Seq<char>,
    content: Seq<char>,
    captures: Seq<Capture>,
) -> Seq<Document>
    decreases captures.len(),
{
    if captures.len() == 0 {
        Seq::empty()
    } else if captures.last().index == ITEM_CAPTURE {
        documents_of(path, language, content, captures.drop_last()).push(
            document_of(path, language, content, captures.last()),
        )
    } else {
        documents_of(path, language, content, captures.drop_last())
    }
}

/// Every capture that marks a span has a range that can be cut out of the
/// text.
pub open spec fn captures_valid(content: Seq<char>, captures: Seq<Capture>) -> bool {
    forall|i: int|
        0 <= i < captures.len() && (#[trigger] captures[i]).index == ITEM_CAPTURE ==> valid_range(
            content,
            captures[i].start_byte,
            captures[i].end_byte,
        )
}

/// Whether two texts are the same.
pub fn same_text(a: &str, b: &str) -> (r: bool)
    ensures
        r == (a@ == b@),
{
    let x = String::from_str(a);
    let y = String::from_str(b);
    x == y
}

/// Cuts a byte range out of a text, where the range is valid.
pub fn slice_span<'a>(content: &'a str, start: usize, end: usize) -> (r: Option<&'a str>)
    ensures
        match r {
            Some(span) => valid_range(content@, start, end) && span@ == span_text(
                content@,
                start,
                end,
            ),
            None => !valid_range(content@, start, end),
        },
{
    if start >= end || !content.is_char_boundary(start) {
        return None;
    }
    proof {
        encode_utf8_valid_utf8(content@);
    }
    let (_, tail) = content.split_at(start);
    assert(tail.spec_bytes() =~= encode_utf8(content@).skip(start as int));
    if !tail.is_char_boundary(end - start) {
        return None;
    }
    proof {
        encode_utf8_valid_utf8(tail@);
    }
    let (span, _) = tail.split_at(end - start);
    proof {
        let bytes = encode_utf8(content@);
        assert(span.spec_bytes() =~= bytes.subrange(start as int, end as int));
        encode_utf8_decode_utf8(span@);
    }
    Some(span)
}

/// Builds the text that is embedded for a span.
pub fn format_prompt(path: &str, language_name: &str, span: &str) -> (r: String)
    ensures
        r@ == prompt(path@, language_name@, span@),
{
    let mut filled = String::from_str("The below is a code snippet from the '");
    filled.append(path);
    filled.append("' file.\n```");
    filled.append(language_name);
    filled.append("\n");
    filled.append(span);
    filled.append("\n```");
    filled
}

/// Turns the captures of a query into spans. A capture that marks a span
/// and whose range cannot be cut out of the text fails the whole file.
pub fn documents_from_captures(
    path: &str,
    language_name: &str,
    content: &str,
    captures: &Vec<Capture>,
) -> (r: Result<Vec<ContextDocument>, ParseError>)
    ensures
        match r {
            Ok(documents) => captures_valid(content@, captures@) && documents_view(documents@)
                == documents_of(path@, language_name@, content@, captures@),
            Err(e) => e == ParseError::InvalidRange && !captures_valid(content@, captures@),
        },
        r is Ok ==> digests_are_whole(r->Ok_0@),
{
    let mut documents: Vec<ContextDocument> = Vec::new();
    let mut i: usize = 0;
    while i < captures.len()
        invariant
            i <= captures.len(),
            digests_are_whole(documents@),
            captures_valid(content@, captures@.take(i as int)),
            documents_view(documents@) == documents_of(
                path@,
                language_name@,
                content@,
                captures@.take(i as int),
            ),
        decreases captures.len() - i,
    {
        let capture = captures[i];
        assert(captures@.take(i + 1).drop_last() =~= captures@.take(i as int));
        assert(captures@.take(i + 1).last() == capture);
        if capture.index == ITEM_CAPTURE {
            match slice_span(content, capture.start_byte, capture.end_byte) {
                Some(span) => {
                    let filled = format_prompt(path, language_name, span);
                    let sha = get_sha(filled.as_str());
                    let ghost earlier = documents@;
                    let document = ContextDocument {
                        start_byte: capture.start_byte,
                        end_byte: capture.end_byte,
                        content: filled,
                        sha,
                    };
                    assert(document@ == document_of(path@, language_name@, content@, capture));
                    documents.push(document);
                    assert(documents_view(documents@) =~= documents_view(earlier).push(document@));
                },
                None => {
                    assert(captures@[i as int] == capture);
                    return Err(ParseError::InvalidRange);
                },
            }
        }
        assert forall|j: int|
            0 <= j < i + 1 && (#[trigger] captures@.take(i + 1)[j]).index
                == ITEM_CAPTURE implies valid_range(
            content@,
            captures@.take(i + 1)[j].start_byte,
            captures@.take(i + 1)[j].end_byte,
        ) by {
            if j < i {
                assert(captures@.take(i as int)[j] == captures@.take(i + 1)[j]);
            }
        }
        i = i + 1;
    }
    assert(captures@.take(i as int) =~= captures@);
    Ok(documents)
}

/// Every span carries a digest of 32 bytes.
pub open spec fn digests_are_whole(documents: Seq<ContextDocument>) -> bool {
    forall|i: int| 0 <= i < documents.len() ==> (#[trigger] documents[i]).sha@.len() == 32
}

/// The error that stands for a failure of the parsing library.
pub open spec fn failure_error(failure: CaptureFailure) -> ParseError {
    match failure {
        CaptureFailure::IncompatibleGrammar => ParseError::IncompatibleGrammar,
        CaptureFailure::InvalidQuery => ParseError::InvalidQuery,
        CaptureFailure::NoTree => ParseError::NoTree,
    }
}

/// What parsing a text gives: the spans of the captures that the parsing
/// library reports for the query, with a line feed behind it, and the
/// text; or the error. A language other than `rust` has no grammar; a
/// failure of the library is handed on; a capture that marks a span and
/// whose range cannot be cut out of the text fails the whole text.
pub open spec fn parse_outcome(
    path: Seq<char>,
    language: Seq<char>,
    query: Seq<char>,
    content: Seq<char>,
) -> Result<Seq<Document>, ParseError> {
    if language != "rust"@ {
        Err(ParseError::UnsupportedLanguage)
    } else {
        match rust_captures(query + "\n"@, content) {
            Ok(captures) => if captures_valid(content, captures) {
                Ok(documents_of(path, language, content, captures))
            } else {
                Err(ParseError::InvalidRange)
            },
            Err(failure) => Err(failure_error(failure)),
        }
    }
}

/// The grammar of a language, by its name. Only `rust` has one.
pub fn get_treesitter_language(language_name: &str) -> (r: Result<Grammar, ParseError>)
    ensures
        r == (if language_name@ == "rust"@ {
            Ok::<Grammar, ParseError>(Grammar::Rust)
        } else {
            Err::<Grammar, ParseError>(ParseError::UnsupportedLanguage)
        }),
{
    if same_text(language_name, "rust") {
        Ok(Grammar::Rust)
    } else {
        Err(ParseError::UnsupportedLanguage)
    }
}

/// The spans that a query finds in a text.
pub fn parse_treesitter(content: &str, language_name: &str, query: &str, path: &str) -> (r: Result<
    Vec<ContextDocument>,
    ParseError,
>)
    ensures
        match parse_outcome(path@, language_name@, query@, content@) {
            Ok(documents) => r is Ok && documents_view(r->Ok_0@) == documents,
            Err(e) => r == Err::<Vec<ContextDocument>, ParseError>(e),
        },
        r is Ok ==> digests_are_whole(r->Ok_0@),
{
    match get_treesitter_language(language_name) {
        Ok(Grammar::Rust) => {
            let query_text = terminated(query);
            match capture_rust(query_text.as_str(), content) {
                Ok(captures) => documents_from_captures(path, language_name, content, &captures),
                Err(CaptureFailure::IncompatibleGrammar) => Err(ParseError::IncompatibleGrammar),
                Err(CaptureFailure::InvalidQuery) => Err(ParseError::InvalidQuery),
                Err(CaptureFailure::NoTree) => Err(ParseError::NoTree),
            }
        },
        Err(e) => Err(e),
    }
}

/// The spans of a text under a strategy.
pub fn parse_content(path: &str, content: &str, strategy: &ParsingStrategy) -> (r: Result<
    Vec<ContextDocument>,
    ParseError,
>)
    ensures
        match parse_outcome(path@, strategy.language(), strategy.query(), content@) {
            Ok(documents) => r is Ok && documents_view(r->Ok_0@) == documents,
            Err(e) => r == Err::<Vec<ContextDocument>, ParseError>(e),
        },
        r is Ok ==> digests_are_whole(r->Ok_0@),
{
    match strategy {
        ParsingStrategy::TreeSitter { language, query } => parse_treesitter(
            content,
            language.as_str(),
            query.as_str(),
            path,
        ),
    }
}

/// The in-flight state of a file whose text was read: its spans, each
/// with an empty slot.
pub fn parse_file(details: FileDetails, content: &str, strategy: &ParsingStrategy) -> (r: Result<
    FileContext,
    ParseError,
>)
    ensures
        match parse_outcome(details.path@, strategy.language(), strategy.query(), content@) {
            Ok(documents) => {
                &&& r is Ok
                &&& r->Ok_0.wf()
                &&& r->Ok_0.details == details
                &&& documents_view(r->Ok_0.documents@) == documents
                &&& digests_are_whole(r->Ok_0.documents@)
                &&& r->Ok_0.slots() == Seq::new(documents.len(), |i: int| Seq::<u32>::empty())
            },
            Err(e) => r == Err::<FileContext, ParseError>(e),
        },
{
    match parse_content(details.path.as_str(), content, strategy) {
        Ok(documents) => Ok(FileContext::new(details, documents)),
        Err(e) => Err(e),
    }
}

} // verus!
