//! Which strategy cuts the files of which extension.

use crate::parsers::rust::{rust_query, rust_strategy};
use crate::parsers::strategy::{same_text, ParsingStrategy};
use vstd::prelude::*;
use vstd::string::StringExecFns;

verus! {

/// A strategy as a mathematical value.
pub struct Strategy {
    pub language: Seq<char>,
    pub query: Seq<char>,
}

impl View for ParsingStrategy {
    type V = Strategy;

    open spec fn view(&self) -> Strategy {
        Strategy { language: self.language(), query: self.query() }
    }
}

/// One registration.
#[derive(Debug, Clone, PartialEq, Eq)]
pub struct Registration {
    pub extension: String,
    pub strategy: ParsingStrategy,
}

/// Why no strategy was handed out.
#[derive(Debug, Clone, Copy, PartialEq, Eq, Structural)]
pub enum RegistryError {
    /// Nothing is registered for the extension.
    StrategyNotFound,
}

/// The map that a list of registrations stands for: a later registration
/// of an extension takes the place of an earlier one.
pub open spec fn registered(entries: Seq<Registration>) -> Map<Seq<char>, Strategy>
    decreases entries.len(),
{
    if entries.len() == 0 {
        Map::empty()
    } else {
        registered(entries.drop_last()).insert(entries.last().extension@, entries.last().strategy@)
    }
}

/// The strategies by file extension.
#[derive(Debug, Clone, PartialEq, Eq)]
pub struct ExtensionRegistry {
    extension_strategies: Vec<Registration>,
}

impl View for ExtensionRegistry {
    type V = Map<Seq<char>, Strategy>;

    closed spec fn view(&self) -> Map<Seq<char>, Strategy> {
        registered(self.extension_strategies@)
    }
}

impl ExtensionRegistry {
    /// A registry without a strategy.
    pub fn new() -> (r: ExtensionRegistry)
        ensures
            r@ == Map::<Seq<char>, Strategy>::empty(),
    {
        ExtensionRegistry { extension_strategies: Vec::new() }
    }

    /// Registers a strategy for an extension, in place of the one that
    /// was registered for it, if any.
    pub fn register(&mut self, extension: String, strategy: ParsingStrategy)
        ensures
            final(self)@ == old(self)@.insert(extension@, strategy@),
    {
        self.extension_strategies.push(Registration { extension, strategy });
        assert(self.extension_strategies@.drop_last() =~= old(self).extension_strategies@);
    }

    /// The strategy that is registered for an extension.
    pub fn get_strategy_for_extension(&self, extension: String) -> (r: Result<
        &ParsingStrategy,
        RegistryError,
    >)
        ensures
            match r {
                Ok(strategy) => self@.contains_key(extension@) && strategy@ == self@[extension@],
                Err(e) => e == RegistryError::StrategyNotFound && !self@.contains_key(extension@),
            },
    {
        let ghost entries = self.extension_strategies@;
        let mut i: usize = self.extension_strategies.len();
        assert(entries.take(i as int) =~= entries);
        while i > 0
            invariant
                i <= entries.len(),
                entries == self.extension_strategies@,
                registered(entries).contains_key(extension@) == registered(
                    entries.take(i as int),
                ).contains_key(extension@),
                registered(entries).contains_key(extension@) ==> registered(entries)[extension@]
                    == registered(entries.take(i as int))[extension@],
            decreases i,
        {
            i = i - 1;
            assert(entries.take(i + 1).drop_last() =~= entries.take(i as int));
            assert(entries.take(i + 1).last() == entries[i as int]);
            let entry = &self.extension_strategies[i];
            if same_text(entry.extension.as_str(), extension.as_str()) {
                return Ok(&entry.strategy);
            }
        }
        Err(RegistryError::StrategyNotFound)
    }
}

/// The registry that the index starts with: Rust sources, by the
/// extension `rs`.
pub fn load_extensions() -> (r: ExtensionRegistry)
    ensures
        r@ == Map::<Seq<char>, Strategy>::empty().insert(
            "rs"@,
            Strategy { language: "rust"@, query: rust_query() },
        ),
{
    let mut registry = ExtensionRegistry::new();
    registry.register(String::from_str("rs"), rust_strategy());
    registry
}

} // verus!
