//! The rules of the directory walk: which entries are skipped, which files
//! are parsed, and which known files have gone.

use crate::parsers::registry::{ExtensionRegistry, Strategy};
use crate::parsers::strategy::{same_text, ParsingStrategy};
use vstd::prelude::*;
use vstd::string::{StrSliceExecFns, StringExecFns};

verus! {

/// What the walk saw of one directory entry.
#[derive(Debug, Clone, PartialEq, Eq)]
pub struct WalkEntry {
    pub path: String,
    pub is_file: bool,
    pub is_symlink: bool,
    pub extension: Option<String>,
}

/// A file that is to be parsed, and how.
#[derive(Debug, Clone, PartialEq, Eq)]
pub struct ParseJob {
    pub path: String,
    pub strategy: ParsingStrategy,
}

/// A parse job as a mathematical value.
pub struct Job {
    pub path: Seq<char>,
    pub strategy: Strategy,
}

impl View for ParseJob {
    type V = Job;

    open spec fn view(&self) -> Job {
        Job { path: self.path@, strategy: self.strategy@ }
    }
}

/// What is to be done after a walk.
#[derive(Debug, Clone, PartialEq, Eq)]
pub struct WalkPlan {
    /// The files to parse, in the order of the walk.
    pub jobs: Vec<ParseJob>,
    /// The files that the store knows and the walk did not find.
    pub stale_paths: Vec<String>,
}

/// The parse jobs as mathematical values.
pub open spec fn jobs_view(jobs: Seq<ParseJob>) -> Seq<Job> {
    Seq::new(jobs.len(), |i: int| jobs[i]@)
}

/// The paths as mathematical values.
pub open spec fn paths_view(paths: Seq<String>) -> Seq<Seq<char>> {
    Seq::new(paths.len(), |i: int| paths[i]@)
}

/// Whether a text begins with another.
pub fn starts_with(name: &str, prefix: &str) -> (r: bool)
    ensures
        r == prefix@.is_prefix_of(name@),
{
    let n = name.unicode_len();
    let m = prefix.unicode_len();
    if m > n {
        return false;
    }
    let mut i: usize = 0;
    while i < m
        invariant
            i <= m,
            m == prefix@.len(),
            n == name@.len(),
            m <= n,
            forall|j: int| 0 <= j < i ==> name@[j] == prefix@[j],
        decreases m - i,
    {
        if name.get_char(i) != prefix.get_char(i) {
            return false;
        }
        i = i + 1;
    }
    assert(prefix@ =~= name@.subrange(0, prefix@.len() as int));
    true
}

/// An entry whose name begins with a dot is hidden.
pub fn is_hidden(file_name: &str) -> (r: bool)
    ensures
        r == "."@.is_prefix_of(file_name@),
{
    starts_with(file_name, ".")
}

/// An entry whose name begins with `target` holds build output.
pub fn is_target_dir(file_name: &str) -> (r: bool)
    ensures
        r == "target"@.is_prefix_of(file_name@),
{
    starts_with(file_name, "target")
}

/// Whether the walk looks at an entry and, if it is a directory, below it.
pub fn keep_entry(file_name: &str) -> (r: bool)
    ensures
        r == (!"."@.is_prefix_of(file_name@) && !"target"@.is_prefix_of(file_name@)),
{
    !is_hidden(file_name) && !is_target_dir(file_name)
}

/// The entry is a regular file with an extension that has a strategy.
pub open spec fn indexable(entry: WalkEntry, parsers: Map<Seq<char>, Strategy>) -> bool {
    &&& entry.is_file
    &&& !entry.is_symlink
    &&& entry.extension is Some
    &&& parsers.contains_key(entry.extension->Some_0@)
}

/// The parse jobs of a walk: one for each indexable entry, in order.
pub open spec fn jobs_of(entries: Seq<WalkEntry>, parsers: Map<Seq<char>, Strategy>) -> Seq<Job>
    decreases entries.len(),
{
    if entries.len() == 0 {
        Seq::empty()
    } else if indexable(entries.last(), parsers) {
        jobs_of(entries.drop_last(), parsers).push(
            Job {
                path: entries.last().path@,
                strategy: parsers[entries.last().extension->Some_0@],
            },
        )
    } else {
        jobs_of(entries.drop_last(), parsers)
    }
}

/// Some indexable entry has this path.
pub open spec fn walked(
    entries: Seq<WalkEntry>,
    parsers: Map<Seq<char>, Strategy>,
    path: Seq<char>,
) -> bool {
    exists|i: int|
        0 <= i < entries.len() && indexable(#[trigger] entries[i], parsers) && entries[i].path@
            == path
}

/// The known paths that were not walked, in the order in which they are
/// known.
pub open spec fn stale_of(
    known: Seq<Seq<char>>,
    entries: Seq<WalkEntry>,
    parsers: Map<Seq<char>, Strategy>,
) -> Seq<Seq<char>>
    decreases known.len(),
{
    if known.len() == 0 {
        Seq::empty()
    } else if walked(entries, parsers, known.last()) {
        stale_of(known.drop_last(), entries, parsers)
    } else {
        stale_of(known.drop_last(), entries, parsers).push(known.last())
    }
}

/// The strategy for an entry, where it is indexable.
pub fn strategy_for<'a>(entry: &WalkEntry, parsers: &'a ExtensionRegistry) -> (r: Option<
    &'a ParsingStrategy,
>)
    ensures
        match r {
            Some(strategy) => indexable(*entry, parsers@) && strategy@
                == parsers@[entry.extension->Some_0@],
            None => !indexable(*entry, parsers@),
        },
{
    if !entry.is_file || entry.is_symlink {
        return None;
    }
    match &entry.extension {
        Some(extension) => match parsers.get_strategy_for_extension(extension.clone()) {
            Ok(strategy) => Some(strategy),
            Err(_) => None,
        },
        None => None,
    }
}

/// Whether some indexable entry has this path.
pub fn was_walked(entries: &Vec<WalkEntry>, parsers: &ExtensionRegistry, path: &str) -> (r: bool)
    ensures
        r == walked(entries@, parsers@, path@),
{
    let mut i: usize = 0;
    while i < entries.len()
        invariant
            i <= entries.len(),
            forall|j: int|
                0 <= j < i ==> !(indexable(#[trigger] entries[j], parsers@) && entries[j].path@
                    == path@),
        decreases entries.len() - i,
    {
        if same_text(entries[i].path.as_str(), path) {
            if strategy_for(&entries[i], parsers).is_some() {
                return true;
            }
        }
        i = i + 1;
    }
    false
}

/// Decides what follows from a walk: every indexable entry is parsed, and
/// every known path that the walk did not find among them is to be deleted
/// from the store.
pub fn plan_walk(parsers: &ExtensionRegistry, known_paths: &Vec<String>, entries: &Vec<WalkEntry>) -> (plan:
    WalkPlan)
    ensures
        jobs_view(plan.jobs@) == jobs_of(entries@, parsers@),
        paths_view(plan.stale_paths@) == stale_of(paths_view(known_paths@), entries@, parsers@),
{
    let mut jobs: Vec<ParseJob> = Vec::new();
    let mut i: usize = 0;
    while i < entries.len()
        invariant
            i <= entries.len(),
            jobs_view(jobs@) == jobs_of(entries@.take(i as int), parsers@),
        decreases entries.len() - i,
    {
        assert(entries@.take(i + 1).drop_last() =~= entries@.take(i as int));
        assert(entries@.take(i + 1).last() == entries[i as int]);
        match strategy_for(&entries[i], parsers) {
            Some(strategy) => {
                let ghost earlier = jobs@;
                let path = entries[i].path.clone();
                let strategy = match strategy {
                    ParsingStrategy::TreeSitter { language, query } => ParsingStrategy::TreeSitter {
                        language: language.clone(),
                        query: query.clone(),
                    },
                };
                let job = ParseJob { path, strategy };
                jobs.push(job);
                assert(jobs_view(jobs@) =~= jobs_view(earlier).push(job@));
            },
            None => {},
        }
        i = i + 1;
    }
    assert(entries@.take(i as int) =~= entries@);
    let ghost known = paths_view(known_paths@);
    let mut stale_paths: Vec<String> = Vec::new();
    let mut k: usize = 0;
    while k < known_paths.len()
        invariant
            k <= known_paths.len(),
            known == paths_view(known_paths@),
            paths_view(stale_paths@) == stale_of(known.take(k as int), entries@, parsers@),
        decreases known_paths.len() - k,
    {
        assert(known.take(k + 1).drop_last() =~= known.take(k as int));
        assert(known.take(k + 1).last() == known_paths[k as int]@);
        if !was_walked(entries, parsers, known_paths[k].as_str()) {
            let ghost earlier = stale_paths@;
            let path = known_paths[k].clone();
            stale_paths.push(path);
            assert(paths_view(stale_paths@) =~= paths_view(earlier).push(path@));
        }
        k = k + 1;
    }
    assert(known.take(k as int) =~= known);
    WalkPlan { jobs, stale_paths }
}

} // verus!
