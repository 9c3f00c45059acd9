//! The files in flight: the table they stand in, the queue that batches
//! their empty slots, and, for every file, how many fragments and
//! publications still hold it. A file that nothing holds has left the
//! pipeline.

use crate::embed_worker::{
    batch_fits, batch_texts, collect_spans, finished_files, names_once, same_files,
    scatter_embeddings, table_slots, table_wf, texts_of, valid_vectors, vectors_of, write_batch,
    EmbedError,
};
use crate::embedding::{Embedding, ProviderError};
use crate::embedding_queue::{
    batches_of, fits, fragments, left_pending, lemma_complete_file_is_not_queued,
    lemma_fits_longer_table, lemma_fits_same_shape, sealed_batches, span_count, EmbeddingJob,
    EmbeddingQueue, FileFragment, Fragment, BATCH_SPANS,
};
use crate::file_context::{all_filled, empty_slots, lemma_empty_slots, FileContext};
use vstd::prelude::*;

verus! {

/// What followed from taking a file in.
#[derive(Debug, Clone, PartialEq, Eq)]
pub struct Enqueued {
    /// The position of the file in the table.
    pub file: usize,
    /// The batches to embed now.
    pub batches: Vec<Vec<FileFragment>>,
    /// No slot of the file waits for an embedding: nothing holds it, and it
    /// has left the pipeline already.
    pub dropped: bool,
}

/// What followed from the answer to an embed call.
#[derive(Debug, PartialEq, Eq)]
pub struct BatchOutcome {
    /// The files to publish, or why nothing was written.
    pub result: Result<Vec<usize>, EmbedError>,
    /// The files that nothing holds any more, in the order in which they
    /// were let go.
    pub dropped: Vec<usize>,
}

/// The holders after one more took hold of a file.
pub open spec fn hold(holders: Seq<usize>, file: usize) -> Seq<usize> {
    if file < holders.len() && holders[file as int] < usize::MAX {
        holders.update(file as int, (holders[file as int] + 1) as usize)
    } else {
        holders
    }
}

/// The holders after one let go of a file.
pub open spec fn release(holders: Seq<usize>, file: usize) -> Seq<usize> {
    if file < holders.len() && holders[file as int] > 0 {
        holders.update(file as int, (holders[file as int] - 1) as usize)
    } else {
        holders
    }
}

/// Letting go of the file now leaves it without a holder.
pub open spec fn releases_last(holders: Seq<usize>, file: usize) -> bool {
    file < holders.len() && holders[file as int] == 1
}

/// The holders after each of the files was published once.
pub open spec fn publish(holders: Seq<usize>, files: Seq<usize>) -> Seq<usize>
    decreases files.len(),
{
    if files.len() == 0 {
        holders
    } else {
        hold(publish(holders, files.drop_last()), files.last())
    }
}

/// The holders after one holder of each of the files let go, in order.
pub open spec fn release_all(holders: Seq<usize>, files: Seq<usize>) -> Seq<usize>
    decreases files.len(),
{
    if files.len() == 0 {
        holders
    } else {
        release(release_all(holders, files.drop_last()), files.last())
    }
}

/// The files that were left without a holder while one holder of each of
/// the files let go, in order.
pub open spec fn dropped_by(holders: Seq<usize>, files: Seq<usize>) -> Seq<usize>
    decreases files.len(),
{
    if files.len() == 0 {
        Seq::empty()
    } else if releases_last(release_all(holders, files.drop_last()), files.last()) {
        dropped_by(holders, files.drop_last()).push(files.last())
    } else {
        dropped_by(holders, files.drop_last())
    }
}

/// A publication and the fragment that led to it cancel out: a file that
/// is published and then let go by its fragment is held as often as before,
/// and is not dropped on the way.
pub proof fn lemma_published_file_stays(holders: Seq<usize>, file: usize)
    requires
        file < holders.len(),
        0 < holders[file as int] < usize::MAX,
    ensures
        release(hold(holders, file), file) == holders,
        !releases_last(hold(holders, file), file),
{
    assert(release(hold(holders, file), file) =~= holders);
}

/// The file of each fragment of a batch.
pub open spec fn batch_files(batch: Seq<Fragment>) -> Seq<usize> {
    Seq::new(batch.len(), |f: int| batch[f].file)
}

/// The number of fragments that the slots `ids` of a file are cut into
/// when they come in behind `pending`: one in every batch that leaves, and
/// one more where slots are left over.
pub open spec fn pieces(pending: Seq<Fragment>, file: usize, ids: Seq<usize>) -> nat {
    let left = left_pending(pending, file, ids);
    sealed_batches(pending, file, ids).len() + (if left.len() > 0 && left.last().file == file {
        1nat
    } else {
        0nat
    })
}

/// A file without an empty slot is cut into no fragment: where it is new
/// to the queue, nothing holds it, no batch leaves for it, and the queue
/// stays as it was.
pub proof fn lemma_complete_file_is_held_by_nothing(
    pending: Seq<Fragment>,
    file: usize,
    slots: Seq<Seq<u32>>,
)
    requires
        span_count(pending) < BATCH_SPANS,
        slots.len() <= usize::MAX,
        all_filled(slots),
        forall|f: int| 0 <= f < pending.len() ==> (#[trigger] pending[f]).file != file,
    ensures
        pieces(pending, file, empty_slots(slots)) == 0,
        sealed_batches(pending, file, empty_slots(slots)) == Seq::<Seq<Fragment>>::empty(),
        left_pending(pending, file, empty_slots(slots)) == pending,
{
    lemma_complete_file_is_not_queued(pending, file, slots);
    if pending.len() > 0 {
        assert(pending[pending.len() - 1].file != file);
    }
}

/// Fragments that name every slot once do so still with one more
/// fragment, of a file that none of them names, whose slots are some of
/// a list in ascending order.
pub proof fn lemma_names_once_push(
    q: Seq<Fragment>,
    file: usize,
    ids: Seq<usize>,
    from: int,
    to: int,
)
    requires
        names_once(q),
        forall|f: int| 0 <= f < q.len() ==> (#[trigger] q[f]).file != file,
        forall|a: int, b: int| 0 <= a < b < ids.len() ==> ids[a] < ids[b],
        0 <= from <= to <= ids.len(),
    ensures
        names_once(q.push(Fragment { file, ids: ids.subrange(from, to) })),
{
    let piece = Fragment { file, ids: ids.subrange(from, to) };
    let b = q.push(piece);
    assert forall|f: int, k: int, g: int, l: int|
        0 <= f < b.len() && 0 <= k < b[f].ids.len() && 0 <= g < b.len() && 0 <= l < b[g].ids.len()
            && b[f].file == b[g].file && (#[trigger] b[f].ids[k]) == (
        #[trigger] b[g].ids[l]) implies f == g && k == l by {
        if f < q.len() && g < q.len() {
            assert(b[f] == q[f] && b[g] == q[g]);
            assert(q[f].ids[k] == q[g].ids[l]);
        } else if f < q.len() {
            assert(q[f].file != file);
        } else if g < q.len() {
            assert(q[g].file != file);
        } else {
            assert(b[f].ids[k] == ids[from + k]);
            assert(b[g].ids[l] == ids[from + l]);
            if k < l {
                assert(ids[from + k] < ids[from + l]);
            }
            if l < k {
                assert(ids[from + l] < ids[from + k]);
            }
        }
    }
}

/// What leaves the queue and what stays pending names every slot once,
/// where what was pending did, the file is new to the queue and its slots
/// come in ascending order.
pub proof fn lemma_batches_name_once(pending: Seq<Fragment>, file: usize, ids: Seq<usize>)
    requires
        names_once(pending),
        span_count(pending) < BATCH_SPANS,
        forall|f: int| 0 <= f < pending.len() ==> (#[trigger] pending[f]).file != file,
        forall|a: int, b: int| 0 <= a < b < ids.len() ==> ids[a] < ids[b],
    ensures
        forall|j: int|
            0 <= j < sealed_batches(pending, file, ids).len() ==> names_once(
                #[trigger] sealed_batches(pending, file, ids)[j],
            ),
        names_once(left_pending(pending, file, ids)),
{
    let before = span_count(pending) as int;
    let sent = (before + ids.len()) / (BATCH_SPANS as int);
    let none = Seq::<Fragment>::empty();
    assert forall|j: int| 0 <= j < sealed_batches(pending, file, ids).len() implies names_once(
        #[trigger] sealed_batches(pending, file, ids)[j],
    ) by {
        if j == 0 {
            lemma_names_once_push(pending, file, ids, 0, BATCH_SPANS - before);
        } else {
            lemma_names_once_push(
                none,
                file,
                ids,
                BATCH_SPANS * j - before,
                BATCH_SPANS * (j + 1) - before,
            );
            assert(sealed_batches(pending, file, ids)[j] =~= none.push(
                Fragment {
                    file,
                    ids: ids.subrange(BATCH_SPANS * j - before, BATCH_SPANS * (j + 1) - before),
                },
            ));
        }
    }
    let start = if sent == 0 {
        0
    } else {
        BATCH_SPANS * sent - before
    };
    if start < ids.len() {
        if sent == 0 {
            lemma_names_once_push(pending, file, ids, start, ids.len() as int);
        } else {
            lemma_names_once_push(none, file, ids, start, ids.len() as int);
        }
    }
}

/// The table of files in flight with their queue and holders.
pub struct FileTable {
    files: Vec<FileContext>,
    holders: Vec<usize>,
    queue: EmbeddingQueue,
}

/// What taking the answer to an embed call does to a table.
pub open spec fn batch_was_embedded(
    before: FileTable,
    after: FileTable,
    batch: Seq<FileFragment>,
    answer: Result<Vec<Embedding>, ProviderError>,
    dimension: usize,
    out: BatchOutcome,
) -> bool {
    &&& after.pending() == before.pending()
    &&& same_files(before.files(), after.files())
    &&& !fits(fragments(batch), before.files()) ==> {
        &&& out.result == Err::<Vec<usize>, EmbedError>(EmbedError::UnknownSlot)
        &&& out.dropped@ == Seq::<usize>::empty()
        &&& after.files() == before.files()
        &&& after.holders() == before.holders()
    }
    &&& fits(fragments(batch), before.files()) ==> {
        &&& match out.result {
            Ok(finished) => {
                &&& answer is Ok
                &&& span_count(fragments(batch)) == answer->Ok_0.len()
                &&& valid_vectors(vectors_of(answer->Ok_0@), dimension)
                &&& table_slots(after.files()) == write_batch(
                    table_slots(before.files()),
                    fragments(batch),
                    vectors_of(answer->Ok_0@),
                )
                &&& finished@ == finished_files(
                    table_slots(before.files()),
                    fragments(batch),
                    vectors_of(answer->Ok_0@),
                )
            },
            Err(e) => {
                &&& after.files() == before.files()
                &&& e == (if answer is Err {
                    EmbedError::ProviderFailed
                } else if span_count(fragments(batch)) != answer->Ok_0.len() {
                    EmbedError::CountMismatch
                } else {
                    EmbedError::DimensionMismatch
                })
                &&& e == EmbedError::DimensionMismatch ==> !valid_vectors(
                    vectors_of(answer->Ok_0@),
                    dimension,
                )
            },
        }
        &&& after.holders() == release_all(
            publish(before.holders(), published(out.result)),
            batch_files(fragments(batch)),
        )
        &&& out.dropped@ == dropped_by(
            publish(before.holders(), published(out.result)),
            batch_files(fragments(batch)),
        )
    }
}

/// The files that a result publishes.
pub open spec fn published(result: Result<Vec<usize>, EmbedError>) -> Seq<usize> {
    if result is Ok {
        result->Ok_0@
    } else {
        Seq::empty()
    }
}

impl FileTable {
    /// The files, by position.
    pub closed spec fn files(&self) -> Seq<FileContext> {
        self.files@
    }

    /// For each file, how many fragments and publications hold it.
    pub closed spec fn holders(&self) -> Seq<usize> {
        self.holders@
    }

    /// The fragments that wait for a batch to fill.
    pub closed spec fn pending(&self) -> Seq<Fragment> {
        self.queue@
    }

    /// Every file has one slot per span and a count of holders, fewer
    /// than a batch is pending, and what is pending names files and slots
    /// of the table, every slot once.
    pub open spec fn wf(&self) -> bool {
        &&& table_wf(self.files())
        &&& self.holders().len() == self.files().len()
        &&& span_count(self.pending()) < BATCH_SPANS
        &&& fits(self.pending(), self.files())
        &&& names_once(self.pending())
    }

    /// A table without a file.
    pub fn new() -> (r: FileTable)
        ensures
            r.wf(),
            r.files() == Seq::<FileContext>::empty(),
            r.holders() == Seq::<usize>::empty(),
            r.pending() == Seq::<Fragment>::empty(),
    {
        let r = FileTable { files: Vec::new(), holders: Vec::new(), queue: EmbeddingQueue::new() };
        assert(r.files@ =~= Seq::<FileContext>::empty());
        assert(r.holders@ =~= Seq::<usize>::empty());
        assert(span_count(Seq::<Fragment>::empty()) == 0);
        r
    }

    /// The number of files that were taken in.
    pub fn len(&self) -> (n: usize)
        ensures
            n == self.files().len(),
    {
        self.files.len()
    }

    /// The file at a position of the table.
    pub fn file(&self, handle: usize) -> (r: Option<&FileContext>)
        ensures
            match r {
                Some(file) => handle < self.files().len() && *file == self.files()[handle as int],
                None => handle >= self.files().len(),
            },
    {
        if handle < self.files.len() {
            Some(&self.files[handle])
        } else {
            None
        }
    }

    /// How many fragments and publications hold the file at a position.
    pub fn holders_of(&self, handle: usize) -> (r: Option<usize>)
        ensures
            match r {
                Some(n) => handle < self.holders().len() && n == self.holders()[handle as int],
                None => handle >= self.holders().len(),
            },
    {
        if handle < self.holders.len() {
            Some(self.holders[handle])
        } else {
            None
        }
    }

    /// Takes a file in: it gets the next position of the table, its empty
    /// slots are queued, and every fragment that they were cut into holds
    /// the file. A file without an empty slot is held by nothing.
    pub fn add_file(&mut self, file: FileContext) -> (out: Enqueued)
        requires
            old(self).wf(),
            file.wf(),
        ensures
            final(self).wf(),
            out.file == old(self).files().len(),
            final(self).files() == old(self).files().push(file),
            batches_of(out.batches@) == sealed_batches(
                old(self).pending(),
                out.file,
                empty_slots(file.slots()),
            ),
            final(self).pending() == left_pending(
                old(self).pending(),
                out.file,
                empty_slots(file.slots()),
            ),
            forall|j: int|
                0 <= j < out.batches.len() ==> fits(
                    #[trigger] batches_of(out.batches@)[j],
                    final(self).files(),
                ) && names_once(batches_of(out.batches@)[j]),
            final(self).holders() == old(self).holders().push(
                pieces(old(self).pending(), out.file, empty_slots(file.slots())) as usize,
            ),
            out.dropped == (pieces(old(self).pending(), out.file, empty_slots(file.slots())) == 0),
    {
        let handle = self.files.len();
        let ghost pending = self.queue@;
        let ghost ids = empty_slots(file.slots());
        proof {
            lemma_fits_longer_table(pending, self.files@, file);
            lemma_empty_slots(file.slots());
            assert forall|f: int| 0 <= f < pending.len() implies (#[trigger] pending[f]).file
                != handle by {
                assert(pending[f].file < self.files@.len());
            }
            lemma_batches_name_once(pending, handle, ids);
        }
        self.files.push(file);
        assert(self.files@[handle as int] == file);
        let batches = self.queue.queue_job(EmbeddingJob::Embed { file: handle }, &self.files);
        let left_over = {
            let rest = self.queue.pending();
            assert(fragments(rest@).len() == rest.len());
            if rest.len() > 0 {
                assert(fragments(rest@)[rest.len() - 1] == rest[rest.len() - 1]@);
                rest[rest.len() - 1].file == handle
            } else {
                false
            }
        };
        assert(batches_of(batches@).len() == batches.len());
        assert(batches.len() == (span_count(pending) + ids.len()) / (BATCH_SPANS as nat));
        let holds: usize = if left_over {
            batches.len() + 1
        } else {
            batches.len()
        };
        self.holders.push(holds);
        Enqueued { file: handle, batches, dropped: holds == 0 }
    }

    /// Hands out what is pending, however little, as a batch.
    pub fn flush(&mut self) -> (batch: Vec<FileFragment>)
        requires
            old(self).wf(),
        ensures
            final(self).wf(),
            fragments(batch@) == old(self).pending(),
            fits(fragments(batch@), final(self).files()),
            names_once(fragments(batch@)),
            final(self).pending() == Seq::<Fragment>::empty(),
            final(self).files() == old(self).files(),
            final(self).holders() == old(self).holders(),
    {
        assert(span_count(Seq::<Fragment>::empty()) == 0);
        self.queue.flush_queue()
    }

    /// The texts that a batch asks to embed, where the batch names files
    /// and slots of the table.
    pub fn spans(&self, batch: &Vec<FileFragment>) -> (r: Option<Vec<String>>)
        requires
            self.wf(),
        ensures
            match r {
                Some(spans) => fits(fragments(batch@), self.files()) && texts_of(spans@)
                    == batch_texts(fragments(batch@), self.files()),
                None => !fits(fragments(batch@), self.files()),
            },
    {
        if batch_fits(batch, &self.files) {
            Some(collect_spans(batch, &self.files))
        } else {
            None
        }
    }

    /// Takes the answer to the embed call of a batch. Vectors that pass
    /// the checks are written to their slots, and every file that a
    /// fragment completed is published, which is one more hold on it.
    /// Then, whatever the answer was, every fragment of the batch lets go
    /// of its file. A batch that names a file or a slot that the table
    /// does not have changes nothing.
    pub fn batch_embedded(
        &mut self,
        batch: &Vec<FileFragment>,
        answer: Result<Vec<Embedding>, ProviderError>,
        dimension: usize,
    ) -> (out: BatchOutcome)
        requires
            old(self).wf(),
        ensures
            final(self).wf(),
            batch_was_embedded(*old(self), *final(self), batch@, answer, dimension, out),
    {
        if !batch_fits(batch, &self.files) {
            return BatchOutcome { result: Err(EmbedError::UnknownSlot), dropped: Vec::new() };
        }
        let result = match answer {
            Ok(embeddings) => scatter_embeddings(batch, &mut self.files, &embeddings, dimension),
            Err(_) => Err(EmbedError::ProviderFailed),
        };
        proof {
            lemma_fits_same_shape(self.queue@, old(self).files@, self.files@);
        }
        let ghost published = if result is Ok {
            result->Ok_0@
        } else {
            Seq::<usize>::empty()
        };
        let ghost held = self.holders@;
        let ghost files_now = self.files;
        let ghost queue_now = self.queue;
        match &result {
            Ok(finished) => {
                let mut i: usize = 0;
                assert(finished@.take(0) =~= Seq::<usize>::empty());
                while i < finished.len()
                    invariant
                        i <= finished.len(),
                        self.files == files_now,
                        self.queue == queue_now,
                        self.holders.len() == held.len(),
                        self.holders@ == publish(held, finished@.take(i as int)),
                    decreases finished.len() - i,
                {
                    let file = finished[i];
                    assert(finished@.take(i + 1).drop_last() =~= finished@.take(i as int));
                    assert(finished@.take(i + 1).last() == file);
                    if file < self.holders.len() && self.holders[file] < usize::MAX {
                        let more = self.holders[file] + 1;
                        self.holders[file] = more;
                    }
                    i = i + 1;
                }
                assert(finished@.take(i as int) =~= finished@);
            },
            Err(_) => {},
        }
        assert(self.holders@ == publish(held, published));
        let ghost after = self.holders@;
        let ghost owners = batch_files(fragments(batch@));
        let mut dropped: Vec<usize> = Vec::new();
        let mut f: usize = 0;
        assert(owners.take(0) =~= Seq::<usize>::empty());
        while f < batch.len()
            invariant
                f <= batch.len(),
                self.files == files_now,
                self.queue == queue_now,
                owners == batch_files(fragments(batch@)),
                self.holders.len() == after.len(),
                self.holders@ == release_all(after, owners.take(f as int)),
                dropped@ == dropped_by(after, owners.take(f as int)),
            decreases batch.len() - f,
        {
            let file = batch[f].file;
            assert(owners.take(f + 1).drop_last() =~= owners.take(f as int));
            assert(owners.take(f + 1).last() == file);
            if file < self.holders.len() && self.holders[file] > 0 {
                let fewer = self.holders[file] - 1;
                self.holders[file] = fewer;
                if fewer == 0 {
                    dropped.push(file);
                }
            }
            f = f + 1;
        }
        assert(owners.take(f as int) =~= owners);
        BatchOutcome { result, dropped }
    }

    /// The write of a published file came to its end, with or without
    /// success: the publication lets go of the file. The result says
    /// whether the file is now held by nothing.
    pub fn file_written(&mut self, file: usize) -> (dropped: bool)
        requires
            old(self).wf(),
        ensures
            final(self).wf(),
            final(self).files() == old(self).files(),
            final(self).pending() == old(self).pending(),
            final(self).holders() == release(old(self).holders(), file),
            dropped == releases_last(old(self).holders(), file),
    {
        if file < self.holders.len() && self.holders[file] > 0 {
            let fewer = self.holders[file] - 1;
            self.holders[file] = fewer;
            fewer == 0
        } else {
            false
        }
    }
}

} // verus!
