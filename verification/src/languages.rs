//! The languages that can be parsed, by name and by file extension.

use crate::parsers::strategy::{same_text, ParseError};
use crate::treesitter::Grammar;
use vstd::prelude::*;
use vstd::string::StringExecFns;

verus! {

/// One language: its name, the extensions of its files and the query that
/// finds the spans.
#[derive(Debug, Clone, PartialEq, Eq)]
pub struct LanguageConfig {
    pub name: String,
    pub extensions: Vec<String>,
    pub query: String,
}

/// The languages, in the order in which they are asked.
#[derive(Debug)]
pub struct LanguageRegistry {
    pub languages: Vec<LanguageConfig>,
}

/// The query that captures the enumerations, structures and
/// implementations of a Rust file.
pub open spec fn rust_items_query() -> Seq<char> {
    "\n                (enum_item) @item\n                (struct_item) @item\n                (impl_item) @item"@
}

impl LanguageConfig {
    /// The language lists the extension.
    pub open spec fn handles(&self, extension: Seq<char>) -> bool {
        exists|k: int| 0 <= k < self.extensions.len() && (#[trigger] self.extensions[k])@ == extension
    }

    /// Whether the language lists the extension.
    pub fn has_extension(&self, extension: &str) -> (r: bool)
        ensures
            r == self.handles(extension@),
    {
        let mut k: usize = 0;
        while k < self.extensions.len()
            invariant
                k <= self.extensions.len(),
                forall|j: int| 0 <= j < k ==> (#[trigger] self.extensions[j])@ != extension@,
            decreases self.extensions.len() - k,
        {
            if same_text(self.extensions[k].as_str(), extension) {
                return true;
            }
            k = k + 1;
        }
        false
    }

    /// The grammar of the language. Only `Rust` has one.
    pub fn get_treesitter_language(&self) -> (r: Result<Grammar, ParseError>)
        ensures
            r == (if self.name@ == "Rust"@ {
                Ok::<Grammar, ParseError>(Grammar::Rust)
            } else {
                Err::<Grammar, ParseError>(ParseError::UnsupportedLanguage)
            }),
    {
        if same_text(self.name.as_str(), "Rust") {
            Ok(Grammar::Rust)
        } else {
            Err(ParseError::UnsupportedLanguage)
        }
    }

    /// The index of the capture that marks a span.
    pub fn item_idx(&self) -> (r: u32)
        ensures
            r == 0,
    {
        0
    }
}

impl LanguageRegistry {
    /// The first language that lists the extension.
    pub fn get_config_from_extension(&self, extension: &str) -> (r: Option<&LanguageConfig>)
        ensures
            match r {
                Some(config) => exists|i: int|
                    {
                        &&& 0 <= i < self.languages.len()
                        &&& *config == #[trigger] self.languages[i]
                        &&& config.handles(extension@)
                        &&& forall|j: int|
                            0 <= j < i ==> !(#[trigger] self.languages[j]).handles(extension@)
                    },
                None => forall|j: int|
                    0 <= j < self.languages.len() ==> !(#[trigger] self.languages[j]).handles(
                        extension@,
                    ),
            },
    {
        let mut i: usize = 0;
        while i < self.languages.len()
            invariant
                i <= self.languages.len(),
                forall|j: int| 0 <= j < i ==> !(#[trigger] self.languages[j]).handles(extension@),
            decreases self.languages.len() - i,
        {
            if self.languages[i].has_extension(extension) {
                return Some(&self.languages[i]);
            }
            i = i + 1;
        }
        None
    }
}

/// The languages that the index knows: Rust, for files that end in `rs`.
pub fn load_languages() -> (r: LanguageRegistry)
    ensures
        r.languages.len() == 1,
        r.languages[0].name@ == "Rust"@,
        r.languages[0].query@ == rust_items_query(),
        r.languages[0].extensions.len() == 1,
        r.languages[0].extensions[0]@ == "rs"@,
{
    let mut extensions: Vec<String> = Vec::new();
    extensions.push(String::from_str("rs"));
    let mut languages: Vec<LanguageConfig> = Vec::new();
    languages.push(
        LanguageConfig {
            name: String::from_str("Rust"),
            extensions,
            query: String::from_str(
                "\n                (enum_item) @item\n                (struct_item) @item\n                (impl_item) @item",
            ),
        },
    );
    LanguageRegistry { languages }
}

} // verus!
