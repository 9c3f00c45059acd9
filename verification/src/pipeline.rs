//! The pipeline as one state: the jobs of the directories and the files in
//! flight. Every step says which batches are to be embedded, which files
//! are to be written, and whose waiters are to be woken; a file that
//! leaves the pipeline is counted off its directory's job in the same step.

use crate::db::{
    all_of_dimension, commands_view, create_file_and_spans, rows_of, StoreCommand, StoreError,
};
use crate::directory_state::{IndexingStatus, JobCounter, JobEvent};
use crate::embed_worker::{batch_texts, names_once, texts_of, EmbedError};
use crate::embedding::{Embedding, ProviderError};
use crate::embedding_queue::{
    batches_of, fits, fragments, left_pending, sealed_batches, span_count, FileFragment, Fragment,
    BATCH_SPANS,
};
use crate::file_context::{
    all_filled, cached, empty_slots, fill_from_cache, lemma_cached_file_is_complete, FileContext,
    KnownEmbedding,
};
use crate::file_table::{
    batch_was_embedded, lemma_complete_file_is_held_by_nothing, pieces, release, releases_last,
    BatchOutcome, FileTable,
};
use crate::parsers::strategy::{digests_are_whole, documents_view, parse_outcome};
use crate::semantic_index::{DirectoryJob, SemanticIndex, StartError};
use crate::walk::{jobs_of, jobs_view, paths_view, stale_of, ParseJob, WalkEntry, WalkPlan};
use vstd::prelude::*;

verus! {

/// What followed from reading a file.
#[derive(Debug, Clone, PartialEq, Eq)]
pub struct Started {
    /// The position of the file in the table.
    pub file: usize,
    /// The batches to embed now.
    pub batches: Vec<Vec<FileFragment>>,
    /// The file left the pipeline at once, and with it the last file of
    /// its directory: the waiters are to be woken.
    pub notify: bool,
}

/// What followed from the answer to an embed call.
#[derive(Debug, PartialEq, Eq)]
pub struct Embedded {
    /// The files to write to the store, or why nothing was written.
    pub result: Result<Vec<usize>, EmbedError>,
    /// The files that left the pipeline.
    pub dropped: Vec<usize>,
    /// The directories whose waiters are to be woken.
    pub notify: Vec<String>,
}

/// The jobs after a file of a directory left the pipeline.
pub open spec fn drop_job(jobs: Map<Seq<char>, DirectoryJob>, directory: Seq<char>) -> Map<
    Seq<char>,
    DirectoryJob,
> {
    if jobs.contains_key(directory) && jobs[directory].counter.outstanding > 0 {
        jobs.insert(
            directory,
            DirectoryJob {
                counter: jobs[directory].counter.step(JobEvent::Dropped),
                ..jobs[directory]
            },
        )
    } else {
        jobs
    }
}

/// A file of the directory that leaves now is the last one, and the
/// waiters were not woken before.
pub open spec fn drop_fires(jobs: Map<Seq<char>, DirectoryJob>, directory: Seq<char>) -> bool {
    jobs.contains_key(directory) && jobs[directory].counter.outstanding > 0
        && jobs[directory].counter.fires(JobEvent::Dropped)
}

/// The jobs after one file of each of the directories left, in order.
pub open spec fn drop_jobs(jobs: Map<Seq<char>, DirectoryJob>, directories: Seq<Seq<char>>) -> Map<
    Seq<char>,
    DirectoryJob,
>
    decreases directories.len(),
{
    if directories.len() == 0 {
        jobs
    } else {
        drop_job(drop_jobs(jobs, directories.drop_last()), directories.last())
    }
}

/// The directories whose waiters are woken while one file of each of the
/// directories leaves, in order.
pub open spec fn woken_by(jobs: Map<Seq<char>, DirectoryJob>, directories: Seq<Seq<char>>) -> Seq<
    Seq<char>,
>
    decreases directories.len(),
{
    if directories.len() == 0 {
        Seq::empty()
    } else if drop_fires(drop_jobs(jobs, directories.drop_last()), directories.last()) {
        woken_by(jobs, directories.drop_last()).push(directories.last())
    } else {
        woken_by(jobs, directories.drop_last())
    }
}

/// The directory of each of the files, for the files that the table has.
pub open spec fn owners(files: Seq<FileContext>, handles: Seq<usize>) -> Seq<Seq<char>>
    decreases handles.len(),
{
    if handles.len() == 0 {
        Seq::empty()
    } else if handles.last() < files.len() {
        owners(files, handles.drop_last()).push(files[handles.last() as int].details.directory@)
    } else {
        owners(files, handles.drop_last())
    }
}

/// The names as mathematical values.
pub open spec fn names_view(names: Seq<String>) -> Seq<Seq<char>> {
    Seq::new(names.len(), |i: int| names[i]@)
}

/// Indexing a file again that did not change. Parsing is a function of
/// the path, the strategy and the text, so the second parse gives the spans
/// of the first. Where the cache holds a vector that is not empty for the
/// digest of every span that was written, the file is complete as soon as
/// it is read: none of its slots is queued, no batch leaves for it, so no
/// text of it is handed to the provider, and nothing holds it. Rows made
/// of it have the byte ranges and digests of the rows of the first.
pub proof fn lemma_unchanged_file_is_not_embedded_again(
    first: FileContext,
    second: FileContext,
    known: Seq<KnownEmbedding>,
    path: Seq<char>,
    language: Seq<char>,
    query: Seq<char>,
    content: Seq<char>,
    pending: Seq<Fragment>,
    handle: usize,
)
    requires
        first.wf(),
        second.wf(),
        parse_outcome(path, language, query, content) is Ok,
        documents_view(first.documents@) == parse_outcome(path, language, query, content)->Ok_0,
        documents_view(second.documents@) == parse_outcome(path, language, query, content)->Ok_0,
        forall|i: int|
            0 <= i < first.documents.len() ==> cached(known, (#[trigger] first.documents[i]).sha@)
                is Some && cached(known, first.documents[i].sha@)->Some_0.len() > 0,
        second.slots() == fill_from_cache(
            Seq::new(second.documents.len() as nat, |i: int| Seq::<u32>::empty()),
            second.shas(),
            known,
        ),
        span_count(pending) < BATCH_SPANS,
        forall|f: int| 0 <= f < pending.len() ==> (#[trigger] pending[f]).file != handle,
    ensures
        all_filled(second.slots()),
        empty_slots(second.slots()) == Seq::<usize>::empty(),
        sealed_batches(pending, handle, empty_slots(second.slots())) == Seq::<
            Seq<Fragment>,
        >::empty(),
        left_pending(pending, handle, empty_slots(second.slots())) == pending,
        pieces(pending, handle, empty_slots(second.slots())) == 0,
        rows_of(second).len() == rows_of(first).len(),
        forall|i: int|
            0 <= i < rows_of(first).len() ==> {
                &&& (#[trigger] rows_of(second)[i]).start_byte == rows_of(first)[i].start_byte
                &&& rows_of(second)[i].end_byte == rows_of(first)[i].end_byte
                &&& rows_of(second)[i].sha == rows_of(first)[i].sha
            },
{
    let spans = parse_outcome(path, language, query, content)->Ok_0;
    assert(first.documents.len() == spans.len());
    assert(second.documents.len() == spans.len());
    assert forall|i: int| 0 <= i < spans.len() implies (#[trigger] second.documents[i])@
        == first.documents[i]@ by {
        assert(documents_view(second.documents@)[i] == spans[i]);
        assert(documents_view(first.documents@)[i] == spans[i]);
    }
    let empty = Seq::new(second.documents.len() as nat, |i: int| Seq::<u32>::empty());
    assert forall|i: int| 0 <= i < second.shas().len() implies cached(
        known,
        #[trigger] second.shas()[i],
    ) is Some && cached(known, second.shas()[i])->Some_0.len() > 0 by {
        assert(second.documents[i]@ == first.documents[i]@);
        assert(second.shas()[i] == first.documents[i].sha@);
    }
    lemma_cached_file_is_complete(empty, second.shas(), known);
    lemma_complete_file_is_held_by_nothing(pending, handle, second.slots());
    assert forall|i: int| 0 <= i < rows_of(first).len() implies {
        &&& (#[trigger] rows_of(second)[i]).start_byte == rows_of(first)[i].start_byte
        &&& rows_of(second)[i].end_byte == rows_of(first)[i].end_byte
        &&& rows_of(second)[i].sha == rows_of(first)[i].sha
    } by {
        assert(second.documents[i]@ == first.documents[i]@);
    }
}

/// The directories' jobs and the files in flight.
pub struct Pipeline {
    pub directories: SemanticIndex,
    pub table: FileTable,
}

impl Pipeline {
    /// Both parts are well formed.
    pub open spec fn wf(&self) -> bool {
        self.directories.wf() && self.table.wf()
    }

    /// A pipeline without a directory and without a file.
    pub fn new() -> (r: Pipeline)
        ensures
            r.wf(),
            r.directories@ == Map::<Seq<char>, DirectoryJob>::empty(),
            r.table.files() == Seq::<FileContext>::empty(),
            r.table.holders() == Seq::<usize>::empty(),
            r.table.pending() == Seq::<Fragment>::empty(),
    {
        Pipeline { directories: SemanticIndex::new(), table: FileTable::new() }
    }

    /// Brings a file that was read into the pipeline: it is cut into
    /// spans, cached embeddings are reused, the file is counted on its
    /// directory's job and its empty slots are queued. A file without an
    /// empty slot leaves at once and is counted off again. A file that
    /// cannot be parsed changes nothing.
    pub fn file_read(
        &mut self,
        directory: &str,
        job: &ParseJob,
        content: &str,
        known: &Vec<KnownEmbedding>,
    ) -> (r: Result<Started, StartError>)
        requires
            old(self).wf(),
        ensures
            final(self).wf(),
            !old(self).directories@.contains_key(directory@) ==> r == Err::<Started, StartError>(
                StartError::NotIndexed,
            ),
            old(self).directories@.contains_key(directory@) && old(
                self,
            ).directories@[directory@].counter.outstanding == usize::MAX ==> r == Err::<
                Started,
                StartError,
            >(StartError::TooManyJobs),
            old(self).directories@.contains_key(directory@) && old(
                self,
            ).directories@[directory@].counter.outstanding < usize::MAX ==> match parse_outcome(
                job.path@,
                job.strategy.language(),
                job.strategy.query(),
                content@,
            ) {
                Ok(documents) => r is Ok && documents_view(
                    final(self).table.files().last().documents@,
                ) == documents,
                Err(e) => r == Err::<Started, StartError>(StartError::Parse(e)),
            },
            match r {
                Ok(out) => {
                    let file = final(self).table.files().last();
                    let ids = empty_slots(file.slots());
                    let held = pieces(old(self).table.pending(), out.file, ids);
                    let counted = DirectoryJob {
                        counter: old(self).directories@[directory@].counter.step(JobEvent::Started),
                        ..old(self).directories@[directory@]
                    };
                    &&& out.file == old(self).table.files().len()
                    &&& final(self).table.files() == old(self).table.files().push(file)
                    &&& file.wf()
                    &&& file.details.path@ == job.path@
                    &&& file.details.directory@ == directory@
                    &&& file.details.directory_id@ == old(self).directories@[directory@].id
                    &&& file.slots() == fill_from_cache(
                        Seq::new(file.documents.len() as nat, |i: int| Seq::<u32>::empty()),
                        file.shas(),
                        known@,
                    )
                    &&& digests_are_whole(file.documents@)
                    &&& batches_of(out.batches@) == sealed_batches(
                        old(self).table.pending(),
                        out.file,
                        ids,
                    )
                    &&& final(self).table.pending() == left_pending(
                        old(self).table.pending(),
                        out.file,
                        ids,
                    )
                    &&& forall|j: int|
                        0 <= j < out.batches.len() ==> fits(
                            #[trigger] batches_of(out.batches@)[j],
                            final(self).table.files(),
                        ) && names_once(batches_of(out.batches@)[j])
                    &&& final(self).table.holders() == old(self).table.holders().push(held as usize)
                    &&& final(self).directories@ == (if held == 0 {
                        drop_job(old(self).directories@.insert(directory@, counted), directory@)
                    } else {
                        old(self).directories@.insert(directory@, counted)
                    })
                    &&& out.notify == (held == 0 && counted.counter.fires(JobEvent::Dropped))
                },
                Err(_) => *final(self) == *old(self),
            },
    {
        let file = match self.directories.start_file(directory, job, content, known) {
            Ok(file) => file,
            Err(e) => {
                return Err(e);
            },
        };
        let enqueued = self.table.add_file(file);
        assert(self.table.files().last() == file);
        let notify = if enqueued.dropped {
            match self.directories.job_dropped(directory) {
                Ok(fire) => fire,
                Err(_) => false,
            }
        } else {
            false
        };
        Ok(Started { file: enqueued.file, batches: enqueued.batches, notify })
    }

    /// Hands out what is pending, however little, as a batch.
    pub fn flush(&mut self) -> (batch: Vec<FileFragment>)
        requires
            old(self).wf(),
        ensures
            final(self).wf(),
            fragments(batch@) == old(self).table.pending(),
            fits(fragments(batch@), final(self).table.files()),
            names_once(fragments(batch@)),
            final(self).table.pending() == Seq::<Fragment>::empty(),
            final(self).table.files() == old(self).table.files(),
            final(self).table.holders() == old(self).table.holders(),
            final(self).directories == old(self).directories,
    {
        self.table.flush()
    }

    /// Takes the answer to the embed call of a batch: the table writes
    /// what passes its checks, and every file that nothing holds any more
    /// is counted off the job of its directory.
    pub fn batch_embedded(
        &mut self,
        batch: &Vec<FileFragment>,
        answer: Result<Vec<Embedding>, ProviderError>,
        dimension: usize,
    ) -> (out: Embedded)
        requires
            old(self).wf(),
        ensures
            final(self).wf(),
            batch_was_embedded(
                old(self).table,
                final(self).table,
                batch@,
                answer,
                dimension,
                (BatchOutcome { result: out.result, dropped: out.dropped }),
            ),
            final(self).directories.strategies() == old(self).directories.strategies(),
            final(self).directories@ == drop_jobs(
                old(self).directories@,
                owners(final(self).table.files(), out.dropped@),
            ),
            names_view(out.notify@) == woken_by(
                old(self).directories@,
                owners(final(self).table.files(), out.dropped@),
            ),
    {
        let outcome = self.table.batch_embedded(batch, answer, dimension);
        let ghost jobs = self.directories@;
        let ghost files = self.table.files();
        let ghost table = self.table;
        let mut notify: Vec<String> = Vec::new();
        let mut i: usize = 0;
        assert(outcome.dropped@.take(0) =~= Seq::<usize>::empty());
        assert(names_view(notify@) =~= Seq::<Seq<char>>::empty());
        while i < outcome.dropped.len()
            invariant
                i <= outcome.dropped.len(),
                self.table == table,
                files == self.table.files(),
                self.directories.wf(),
                self.directories.strategies() == old(self).directories.strategies(),
                self.directories@ == drop_jobs(jobs, owners(files, outcome.dropped@.take(i as int))),
                names_view(notify@) == woken_by(jobs, owners(files, outcome.dropped@.take(i as int))),
            decreases outcome.dropped.len() - i,
        {
            assert(outcome.dropped@.take(i + 1).drop_last() =~= outcome.dropped@.take(i as int));
            assert(outcome.dropped@.take(i + 1).last() == outcome.dropped[i as int]);
            let ghost gone = owners(files, outcome.dropped@.take(i as int));
            let ghost gone_now = owners(files, outcome.dropped@.take(i + 1));
            match self.table.file(outcome.dropped[i]) {
                Some(file) => {
                    let directory = file.details.directory.clone();
                    let ghost earlier = notify@;
                    proof {
                        assert(gone_now == gone.push(directory@));
                        assert(gone_now.drop_last() =~= gone);
                        assert(gone_now.last() == directory@);
                    }
                    match self.directories.job_dropped(directory.as_str()) {
                        Ok(true) => {
                            notify.push(directory);
                            assert(names_view(notify@) =~= names_view(earlier).push(directory@));
                        },
                        _ => {},
                    }
                },
                None => {
                    assert(gone_now == gone);
                },
            }
            i = i + 1;
        }
        assert(outcome.dropped@.take(i as int) =~= outcome.dropped@);
        Embedded { result: outcome.result, dropped: outcome.dropped, notify }
    }

    /// The write of a published file came to its end, with or without
    /// success. Where nothing holds the file any more it is counted off
    /// the job of its directory; the result names the directory if its
    /// waiters are to be woken.
    pub fn file_written(&mut self, file: usize) -> (notify: Option<String>)
        requires
            old(self).wf(),
        ensures
            final(self).wf(),
            final(self).table.files() == old(self).table.files(),
            final(self).table.pending() == old(self).table.pending(),
            final(self).table.holders() == release(old(self).table.holders(), file),
            final(self).directories.strategies() == old(self).directories.strategies(),
            releases_last(old(self).table.holders(), file) ==> {
                let directory = old(self).table.files()[file as int].details.directory@;
                &&& final(self).directories@ == drop_job(old(self).directories@, directory)
                &&& match notify {
                    Some(name) => name@ == directory && drop_fires(old(self).directories@, directory),
                    None => !drop_fires(old(self).directories@, directory),
                }
            },
            !releases_last(old(self).table.holders(), file) ==> notify is None && final(self).directories == old(self).directories,
    {
        if !self.table.file_written(file) {
            return None;
        }
        match self.table.file(file) {
            Some(context) => {
                let directory = context.details.directory.clone();
                match self.directories.job_dropped(directory.as_str()) {
                    Ok(true) => Some(directory),
                    _ => None,
                }
            },
            None => None,
        }
    }

    /// The texts that a batch asks to embed, where the batch names files
    /// and slots of the table.
    pub fn spans(&self, batch: &Vec<FileFragment>) -> (r: Option<Vec<String>>)
        requires
            self.wf(),
        ensures
            match r {
                Some(spans) => fits(fragments(batch@), self.table.files()) && texts_of(spans@)
                    == batch_texts(fragments(batch@), self.table.files()),
                None => !fits(fragments(batch@), self.table.files()),
            },
    {
        self.table.spans(batch)
    }

    /// The commands that write a file of the table to the store over its
    /// old version. `None` where the table has no such file.
    pub fn write_commands(&self, file: usize, dimension: usize) -> (r: Option<
        Result<Vec<StoreCommand>, StoreError>,
    >)
        requires
            self.wf(),
        ensures
            match r {
                None => file >= self.table.files().len(),
                Some(Ok(commands)) => {
                    &&& file < self.table.files().len()
                    &&& all_filled(self.table.files()[file as int].slots())
                    &&& all_of_dimension(self.table.files()[file as int].slots(), dimension)
                    &&& commands_view(commands@) == crate::db::write_commands(
                        self.table.files()[file as int],
                    )
                },
                Some(Err(e)) => {
                    &&& file < self.table.files().len()
                    &&& e == (if !all_filled(self.table.files()[file as int].slots()) {
                        StoreError::EmptyEmbedding
                    } else {
                        StoreError::DimensionMismatch
                    })
                    &&& !(all_filled(self.table.files()[file as int].slots()) && all_of_dimension(
                        self.table.files()[file as int].slots(),
                        dimension,
                    ))
                },
            },
    {
        match self.table.file(file) {
            Some(context) => Some(create_file_and_spans(context, dimension)),
            None => None,
        }
    }
}

} // verus!
