//! The index as its callers see it: which directories are being indexed,
//! how far they are, and what an indexing or search request asks of the
//! pipeline.

use crate::directory_state::{DirectoryState, IndexingStatus, JobCounter, JobEvent};
use crate::embed_worker::EmbedError;
use crate::embedding::{Embedding, EmbeddingProvider, ProviderError};
use crate::parsers::registry::{load_extensions, ExtensionRegistry, Strategy};
use crate::parsers::rust::rust_query;
use crate::file_context::{fill_from_cache, FileContext, FileDetails, KnownEmbedding};
use crate::parsers::strategy::{
    digests_are_whole, documents_view, parse_file, parse_outcome, same_text, ParseError,
};
use crate::walk::{
    jobs_of, jobs_view, paths_view, plan_walk, stale_of, ParseJob, WalkEntry, WalkPlan,
};
use vstd::prelude::*;
use vstd::string::StringExecFns;

verus! {

/// The state of one directory, under its path.
#[derive(Debug, Clone, PartialEq, Eq)]
pub struct DirectoryEntry {
    pub path: String,
    pub state: DirectoryState,
}

/// Why a request on a directory was refused.
#[derive(Debug, Clone, Copy, PartialEq, Eq, Structural)]
pub enum IndexError {
    /// The directory was never indexed.
    NotIndexed,
    /// No file of the directory is in flight.
    NoJobOutstanding,
    /// The counter of files in flight is at its limit.
    TooManyJobs,
}

/// Why a file did not enter the pipeline.
#[derive(Debug, Clone, Copy, PartialEq, Eq, Structural)]
pub enum StartError {
    /// The directory of the file was never indexed.
    NotIndexed,
    /// The counter of files in flight is at its limit.
    TooManyJobs,
    /// The file gave no spans; it is skipped.
    Parse(ParseError),
}

/// What the store is asked when a directory is searched.
#[derive(Debug, Clone, PartialEq, Eq)]
pub struct SearchRequest {
    pub directory: String,
    pub n: usize,
    pub embedding: Embedding,
}

/// The vector of a single text, out of a provider's answer: the answer has
/// to hold exactly one vector.
pub fn single_vector(answer: Result<Vec<Embedding>, ProviderError>) -> (r: Result<
    Embedding,
    EmbedError,
>)
    ensures
        match r {
            Ok(vector) => answer is Ok && answer->Ok_0.len() == 1 && vector@ == answer->Ok_0[0]@,
            Err(e) => e == (if answer is Err {
                EmbedError::ProviderFailed
            } else {
                EmbedError::CountMismatch
            }) && !(answer is Ok && answer->Ok_0.len() == 1),
        },
{
    match answer {
        Ok(mut vectors) => {
            if vectors.len() == 1 {
                let vector = vectors.pop();
                match vector {
                    Some(vector) => Ok(vector),
                    None => Err(EmbedError::CountMismatch),
                }
            } else {
                Err(EmbedError::CountMismatch)
            }
        },
        Err(_) => Err(EmbedError::ProviderFailed),
    }
}

/// The job of a directory as a mathematical value: the id of its row in
/// the store, and its counter and latch.
pub struct DirectoryJob {
    pub id: Seq<char>,
    pub counter: JobCounter,
}

/// The job that a state stands for.
pub open spec fn job_of(state: DirectoryState) -> DirectoryJob {
    DirectoryJob { id: state.id@, counter: state@ }
}

/// What a caller is told about a directory, given the jobs by path.
pub open spec fn status_in(jobs: Map<Seq<char>, DirectoryJob>, directory: Seq<char>) -> IndexingStatus {
    if jobs.contains_key(directory) {
        jobs[directory].counter.status()
    } else {
        IndexingStatus::NotIndexed
    }
}

/// The directories that were indexed, and the strategies by extension.
pub struct SemanticIndex {
    parsers: ExtensionRegistry,
    directories: Vec<DirectoryEntry>,
}

impl View for SemanticIndex {
    type V = Map<Seq<char>, DirectoryJob>;

    /// The jobs of the directories that were indexed, by path.
    closed spec fn view(&self) -> Map<Seq<char>, DirectoryJob> {
        Map::new(|p: Seq<char>| self.knows(p), |p: Seq<char>| job_of(self.entry(p).state))
    }
}

impl SemanticIndex {
    /// No path has two entries.
    pub closed spec fn wf(&self) -> bool {
        forall|i: int, j: int|
            0 <= i < j < self.directories.len() ==> (#[trigger] self.directories[i]).path@ != (
            #[trigger] self.directories[j]).path@
    }

    /// The directory was indexed.
    spec fn knows(&self, directory: Seq<char>) -> bool {
        exists|i: int|
            0 <= i < self.directories.len() && (#[trigger] self.directories[i]).path@ == directory
    }

    /// The entry of a directory that was indexed.
    spec fn entry(&self, directory: Seq<char>) -> DirectoryEntry {
        self.directories[choose|i: int|
            0 <= i < self.directories.len() && (#[trigger] self.directories[i]).path@ == directory]
    }

    /// The strategies by file extension.
    pub closed spec fn strategies(&self) -> Map<Seq<char>, Strategy> {
        self.parsers@
    }

    /// What a caller is told about a directory.
    pub open spec fn status_of(&self, directory: Seq<char>) -> IndexingStatus {
        status_in(self@, directory)
    }

    /// Nothing but the entry of `directory` differs between the two.
    spec fn same_but(&self, other: &SemanticIndex, directory: Seq<char>) -> bool {
        &&& self.strategies() == other.strategies()
        &&& forall|p: Seq<char>|
            p != directory ==> (#[trigger] self.knows(p)) == other.knows(p) && (self.knows(p)
                ==> self.entry(p) == other.entry(p))
    }

    /// An index that knows Rust sources and no directory.
    pub fn new() -> (r: SemanticIndex)
        ensures
            r.wf(),
            r@ == Map::<Seq<char>, DirectoryJob>::empty(),
            r.strategies() == Map::<Seq<char>, Strategy>::empty().insert(
                "rs"@,
                Strategy { language: "rust"@, query: rust_query() },
            ),
    {
        let r = SemanticIndex { parsers: load_extensions(), directories: Vec::new() };
        assert(r@ =~= Map::<Seq<char>, DirectoryJob>::empty());
        r
    }

    /// Where the entry of a directory stands.
    fn find(&self, directory: &str) -> (r: Option<usize>)
        requires
            self.wf(),
        ensures
            match r {
                Some(i) => i < self.directories.len() && self.directories[i as int].path@
                    == directory@ && self.knows(directory@) && self.entry(directory@)
                    == self.directories[i as int],
                None => !self.knows(directory@),
            },
    {
        let mut i: usize = 0;
        while i < self.directories.len()
            invariant
                self.wf(),
                i <= self.directories.len(),
                forall|j: int| 0 <= j < i ==> (#[trigger] self.directories[j]).path@ != directory@,
            decreases self.directories.len() - i,
        {
            if same_text(self.directories[i].path.as_str(), directory) {
                proof {
                    assert(self.directories[i as int].path@ == directory@);
                    let c = choose|c: int|
                        0 <= c < self.directories.len() && (#[trigger] self.directories[c]).path@
                            == directory@;
                    if c < i {
                        assert(self.directories[c].path@ != self.directories[i as int].path@);
                    }
                    if i < c {
                        assert(self.directories[i as int].path@ != self.directories[c].path@);
                    }
                }
                return Some(i);
            }
            i = i + 1;
        }
        None
    }

    /// Puts a state under a directory, in place of the one that it had,
    /// if any.
    pub fn insert_state(&mut self, directory: String, state: DirectoryState)
        requires
            old(self).wf(),
        ensures
            final(self).wf(),
            final(self).strategies() == old(self).strategies(),
            final(self)@ == old(self)@.insert(directory@, job_of(state)),
    {
        let found = self.find(directory.as_str());
        let ghost before = self.directories@;
        match found {
            Some(i) => {
                self.directories[i].state = state;
                assert(forall|j: int|
                    0 <= j < before.len() ==> (#[trigger] self.directories[j]).path
                        == before[j].path);
                assert(self.directories[i as int].path@ == directory@);
                assert(self.wf());
                assert(self.knows(directory@));
                assert(self.entry(directory@) == self.directories[i as int]);
                assert forall|p: Seq<char>| p != directory@ implies (#[trigger] self.knows(p)) == old(
                    self,
                ).knows(p) && (self.knows(p) ==> self.entry(p) == old(self).entry(p)) by {
                    if self.knows(p) {
                        let a = choose|a: int|
                            0 <= a < self.directories.len() && (#[trigger] self.directories[a]).path@
                                == p;
                        assert(before[a].path@ == p);
                        let b = choose|b: int|
                            0 <= b < before.len() && (#[trigger] before[b]).path@ == p;
                        assert(self.directories[b].path@ == p);
                        assert(a == b);
                    }
                    if old(self).knows(p) {
                        let b = choose|b: int|
                            0 <= b < before.len() && (#[trigger] before[b]).path@ == p;
                        assert(self.directories[b].path@ == p);
                    }
                }
            },
            None => {
                self.directories.push(DirectoryEntry { path: directory, state });
                let ghost last = before.len() as int;
                assert(forall|j: int| 0 <= j < before.len() ==> self.directories[j] == before[j]);
                assert(self.directories[last].path@ == directory@);
                assert(self.wf());
                assert(self.knows(directory@));
                assert(self.entry(directory@) == self.directories[last]);
                assert forall|p: Seq<char>| p != directory@ implies (#[trigger] self.knows(p)) == old(
                    self,
                ).knows(p) && (self.knows(p) ==> self.entry(p) == old(self).entry(p)) by {
                    if self.knows(p) {
                        let a = choose|a: int|
                            0 <= a < self.directories.len() && (#[trigger] self.directories[a]).path@
                                == p;
                        assert(before[a].path@ == p);
                        let b = choose|b: int|
                            0 <= b < before.len() && (#[trigger] before[b]).path@ == p;
                        assert(self.directories[b].path@ == p);
                        assert(a == b);
                    }
                    if old(self).knows(p) {
                        let b = choose|b: int|
                            0 <= b < before.len() && (#[trigger] before[b]).path@ == p;
                        assert(self.directories[b].path@ == p);
                    }
                }
            },
        }
        assert(self@ =~= old(self)@.insert(directory@, job_of(state)));
    }

    /// Starts a new indexing request for a directory: its state starts
    /// afresh, and the walk is turned into parse jobs and stale paths. A
    /// walk that found nothing to parse is complete at once.
    pub fn index_directory(
        &mut self,
        directory: String,
        directory_id: String,
        known_paths: &Vec<String>,
        entries: &Vec<WalkEntry>,
    ) -> (plan: WalkPlan)
        requires
            old(self).wf(),
        ensures
            final(self).wf(),
            final(self).strategies() == old(self).strategies(),
            jobs_view(plan.jobs@) == jobs_of(entries@, old(self).strategies()),
            paths_view(plan.stale_paths@) == stale_of(
                paths_view(known_paths@),
                entries@,
                old(self).strategies(),
            ),
            final(self)@ == old(self)@.insert(
                directory@,
                DirectoryJob {
                    id: directory_id@,
                    counter: JobCounter { outstanding: 0, notified: plan.jobs.len() == 0 },
                },
            ),
            final(self).status_of(directory@) == IndexingStatus::Indexed,
    {
        let plan = plan_walk(&self.parsers, known_paths, entries);
        let mut state = DirectoryState::new(directory_id);
        state.notified = plan.jobs.len() == 0;
        self.insert_state(directory, state);
        plan
    }

    /// What the store is to be asked for a search: the nearest `n` spans
    /// of the directory to the vector that the provider gives for the
    /// query. The provider is handed the query as its one text; the
    /// request carries the one vector of its answer, and any other answer
    /// is an error.
    pub fn search_directory<P: EmbeddingProvider>(
        &self,
        provider: &P,
        directory: String,
        n: usize,
        search_query: &str,
    ) -> (r: Result<SearchRequest, EmbedError>)
        ensures
            r is Ok ==> r->Ok_0.directory@ == directory@ && r->Ok_0.n == n,
            exists|spans: Vec<String>, answer: Result<Vec<Embedding>, ProviderError>|
                {
                    &&& spans.len() == 1
                    &&& spans[0]@ == search_query@
                    &&& #[trigger] call_ensures(P::embed, (provider, spans), answer)
                    &&& match r {
                        Ok(request) => answer is Ok && answer->Ok_0.len() == 1 && request.embedding@
                            == answer->Ok_0[0]@,
                        Err(e) => e == (if answer is Err {
                            EmbedError::ProviderFailed
                        } else {
                            EmbedError::CountMismatch
                        }) && !(answer is Ok && answer->Ok_0.len() == 1),
                    }
                },
    {
        let mut texts: Vec<String> = Vec::new();
        texts.push(String::from_str(search_query));
        let ghost asked = texts;
        let answer = provider.embed(texts);
        assert(call_ensures(P::embed, (provider, asked), answer));
        match single_vector(answer) {
            Ok(embedding) => Ok(SearchRequest { directory, n, embedding }),
            Err(e) => Err(e),
        }
    }

    /// The state of a directory that was indexed.
    pub fn directory_state(&self, directory: &str) -> (r: Option<&DirectoryState>)
        requires
            self.wf(),
        ensures
            match r {
                Some(state) => self@.contains_key(directory@) && job_of(*state) == self@[directory@],
                None => !self@.contains_key(directory@),
            },
    {
        match self.find(directory) {
            Some(i) => Some(&self.directories[i].state),
            None => None,
        }
    }

    /// How far the indexing of a directory is.
    pub fn get_status(&self, directory: &str) -> (r: IndexingStatus)
        requires
            self.wf(),
        ensures
            r == self.status_of(directory@),
    {
        match self.find(directory) {
            Some(i) => self.directories[i].state.status(),
            None => IndexingStatus::NotIndexed,
        }
    }

    /// Counts a file of the directory that enters the embedding stage.
    pub fn new_job(&mut self, directory: &str) -> (r: Result<(), IndexError>)
        requires
            old(self).wf(),
        ensures
            final(self).wf(),
            final(self).strategies() == old(self).strategies(),
            match r {
                Ok(_) => {
                    &&& old(self)@.contains_key(directory@)
                    &&& old(self)@[directory@].counter.outstanding < usize::MAX
                    &&& final(self)@ == old(self)@.insert(
                        directory@,
                        DirectoryJob {
                            counter: old(self)@[directory@].counter.step(JobEvent::Started),
                            ..old(self)@[directory@]
                        },
                    )
                },
                Err(e) => {
                    &&& *final(self) == *old(self)
                    &&& e == (if !old(self)@.contains_key(directory@) {
                        IndexError::NotIndexed
                    } else {
                        IndexError::TooManyJobs
                    })
                    &&& !(old(self)@.contains_key(directory@)
                        && old(self)@[directory@].counter.outstanding < usize::MAX)
                },
            },
    {
        let ghost before = self.directories@;
        match self.find(directory) {
            Some(i) => {
                if self.directories[i].state.job_count == usize::MAX {
                    return Err(IndexError::TooManyJobs);
                }
                self.directories[i].state.new_job();
                proof {
                    self.lemma_entry_changed(old(self), i as int, directory@);
                }
                Ok(())
            },
            None => Err(IndexError::NotIndexed),
        }
    }

    /// Brings a file that was read into the pipeline: it is cut into
    /// spans, spans that the cache knows take their cached embedding, and
    /// the file is counted as in flight. A file that cannot be parsed is
    /// not counted.
    pub fn start_file(
        &mut self,
        directory: &str,
        job: &ParseJob,
        content: &str,
        known: &Vec<KnownEmbedding>,
    ) -> (r: Result<FileContext, StartError>)
        requires
            old(self).wf(),
        ensures
            final(self).wf(),
            final(self).strategies() == old(self).strategies(),
            !old(self)@.contains_key(directory@) ==> r == Err::<FileContext, StartError>(
                StartError::NotIndexed,
            ),
            old(self)@.contains_key(directory@) && old(self)@[directory@].counter.outstanding
                == usize::MAX ==> r == Err::<FileContext, StartError>(StartError::TooManyJobs),
            old(self)@.contains_key(directory@) && old(self)@[directory@].counter.outstanding
                < usize::MAX ==> match parse_outcome(
                job.path@,
                job.strategy.language(),
                job.strategy.query(),
                content@,
            ) {
                Ok(documents) => r is Ok && documents_view(r->Ok_0.documents@) == documents,
                Err(e) => r == Err::<FileContext, StartError>(StartError::Parse(e)),
            },
            match r {
                Ok(file) => {
                    &&& final(self)@ == old(self)@.insert(
                        directory@,
                        DirectoryJob {
                            counter: old(self)@[directory@].counter.step(JobEvent::Started),
                            ..old(self)@[directory@]
                        },
                    )
                    &&& file.wf()
                    &&& file.details.path@ == job.path@
                    &&& file.details.directory@ == directory@
                    &&& file.details.directory_id@ == old(self)@[directory@].id
                    &&& digests_are_whole(file.documents@)
                    &&& file.slots() == fill_from_cache(
                        Seq::new(file.documents.len() as nat, |i: int| Seq::<u32>::empty()),
                        file.shas(),
                        known@,
                    )
                },
                Err(_) => *final(self) == *old(self),
            },
    {
        let i = match self.find(directory) {
            Some(i) => i,
            None => {
                return Err(StartError::NotIndexed);
            },
        };
        if self.directories[i].state.job_count == usize::MAX {
            return Err(StartError::TooManyJobs);
        }
        let details = FileDetails {
            path: job.path.clone(),
            directory: self.directories[i].path.clone(),
            directory_id: self.directories[i].state.id.clone(),
        };
        let mut file = match parse_file(details, content, &job.strategy) {
            Ok(file) => file,
            Err(e) => {
                return Err(StartError::Parse(e));
            },
        };
        let ghost parsed = file;
        file.fill_known(known);
        self.directories[i].state.new_job();
        proof {
            self.lemma_entry_changed(old(self), i as int, directory@);
            assert(file.shas() =~= parsed.shas());
        }
        Ok(file)
    }

    /// Counts a file of the directory that left the pipeline, written or
    /// abandoned. The result says whether the waiters are to be woken now.
    pub fn job_dropped(&mut self, directory: &str) -> (r: Result<bool, IndexError>)
        requires
            old(self).wf(),
        ensures
            final(self).wf(),
            final(self).strategies() == old(self).strategies(),
            match r {
                Ok(fire) => {
                    &&& old(self)@.contains_key(directory@)
                    &&& old(self)@[directory@].counter.outstanding > 0
                    &&& final(self)@ == old(self)@.insert(
                        directory@,
                        DirectoryJob {
                            counter: old(self)@[directory@].counter.step(JobEvent::Dropped),
                            ..old(self)@[directory@]
                        },
                    )
                    &&& fire == old(self)@[directory@].counter.fires(JobEvent::Dropped)
                    &&& fire ==> final(self).status_of(directory@) == IndexingStatus::Indexed
                },
                Err(e) => {
                    &&& *final(self) == *old(self)
                    &&& e == (if !old(self)@.contains_key(directory@) {
                        IndexError::NotIndexed
                    } else {
                        IndexError::NoJobOutstanding
                    })
                    &&& !(old(self)@.contains_key(directory@)
                        && old(self)@[directory@].counter.outstanding > 0)
                },
            },
    {
        match self.find(directory) {
            Some(i) => {
                if self.directories[i].state.job_count == 0 {
                    return Err(IndexError::NoJobOutstanding);
                }
                let fire = self.directories[i].state.job_dropped();
                proof {
                    self.lemma_entry_changed(old(self), i as int, directory@);
                }
                Ok(fire)
            },
            None => Err(IndexError::NotIndexed),
        }
    }

    /// Changing the state of one entry leaves the paths, and every other
    /// entry, as they were.
    proof fn lemma_entry_changed(&self, before: &SemanticIndex, i: int, directory: Seq<char>)
        requires
            before.wf(),
            self.parsers@ == before.parsers@,
            0 <= i < before.directories.len(),
            before.directories[i].path@ == directory,
            self.directories.len() == before.directories.len(),
            self.directories[i].path == before.directories[i].path,
            forall|j: int|
                0 <= j < before.directories.len() && j != i ==> self.directories[j]
                    == before.directories[j],
        ensures
            self.wf(),
            self.same_but(before, directory),
            self.knows(directory),
            before.knows(directory),
            self.entry(directory) == self.directories[i],
            before.entry(directory) == before.directories[i],
            self@ == before@.insert(directory, job_of(self.directories[i].state)),
            before@.contains_key(directory),
            before@[directory] == job_of(before.directories[i].state),
    {
        self.lemma_entry_at(i, directory);
        before.lemma_entry_at(i, directory);
        assert(forall|j: int|
            0 <= j < before.directories.len() ==> (#[trigger] self.directories[j]).path
                == before.directories[j].path);
        assert forall|p: Seq<char>| p != directory implies (#[trigger] self.knows(p))
            == before.knows(p) && (self.knows(p) ==> self.entry(p) == before.entry(p)) by {
            if self.knows(p) {
                let a = choose|a: int|
                    0 <= a < self.directories.len() && (#[trigger] self.directories[a]).path@ == p;
                assert(before.directories[a].path@ == p);
                let b = choose|b: int|
                    0 <= b < before.directories.len() && (#[trigger] before.directories[b]).path@
                        == p;
                assert(self.directories[b].path@ == p);
                assert(a == b);
            }
            if before.knows(p) {
                let b = choose|b: int|
                    0 <= b < before.directories.len() && (#[trigger] before.directories[b]).path@
                        == p;
                assert(self.directories[b].path@ == p);
            }
        }
        assert(self@ =~= before@.insert(directory, job_of(self.directories[i].state)));
    }

    /// The entry of a path is the one entry that stands under it.
    proof fn lemma_entry_at(&self, i: int, directory: Seq<char>)
        requires
            0 <= i < self.directories.len(),
            self.directories[i].path@ == directory,
            forall|a: int, b: int|
                0 <= a < b < self.directories.len() ==> (#[trigger] self.directories[a]).path@ != (
                #[trigger] self.directories[b]).path@,
        ensures
            self.knows(directory),
            self.entry(directory) == self.directories[i],
    {
        let c = choose|c: int|
            0 <= c < self.directories.len() && (#[trigger] self.directories[c]).path@ == directory;
        if c < i {
            assert(self.directories[c].path@ != self.directories[i].path@);
        }
        if i < c {
            assert(self.directories[i].path@ != self.directories[c].path@);
        }
    }
}

} // verus!
