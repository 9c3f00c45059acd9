//! The batching queue: slots that wait for an embedding are gathered across
//! files and handed on in batches of a fixed number of spans.

use crate::file_context::{all_filled, empty_slots, lemma_empty_slots, FileContext};
use vstd::prelude::*;

verus! {

/// The number of spans at which the pending fragments are sealed and sent.
pub const BATCH_SPANS: usize = 10;

/// Some slots of one file. `file` is the position of the file in the table
/// of files in flight.
#[derive(Debug, Clone, PartialEq, Eq)]
pub struct FileFragment {
    pub file: usize,
    pub embeddable_ids: Vec<usize>,
}

/// A fragment as a mathematical value.
pub struct Fragment {
    pub file: usize,
    pub ids: Seq<usize>,
}

impl View for FileFragment {
    type V = Fragment;

    open spec fn view(&self) -> Fragment {
        Fragment { file: self.file, ids: self.embeddable_ids@ }
    }
}

/// What the queue is asked to do.
#[derive(Debug, Clone, Copy, PartialEq, Eq, Structural)]
pub enum EmbeddingJob {
    /// Take in the empty slots of the file at this position of the table.
    Embed { file: usize },
    /// Send what is pending, however little.
    Flush,
}

/// The fragments as mathematical values.
pub open spec fn fragments(q: Seq<FileFragment>) -> Seq<Fragment> {
    Seq::new(q.len(), |i: int| q[i]@)
}

/// The batches as mathematical values.
pub open spec fn batches_of(b: Seq<Vec<FileFragment>>) -> Seq<Seq<Fragment>> {
    Seq::new(b.len(), |i: int| fragments(b[i]@))
}

/// The number of slots that a list of fragments names.
pub open spec fn span_count(q: Seq<Fragment>) -> nat
    decreases q.len(),
{
    if q.len() == 0 {
        0
    } else {
        span_count(q.drop_last()) + q.last().ids.len()
    }
}

/// Every fragment names a file of the table and slots of that file.
pub open spec fn fits(q: Seq<Fragment>, files: Seq<FileContext>) -> bool {
    &&& forall|f: int| 0 <= f < q.len() ==> (#[trigger] q[f]).file < files.len()
    &&& forall|f: int, k: int|
        0 <= f < q.len() && 0 <= k < q[f].ids.len() ==> (#[trigger] q[f].ids[k])
            < files[q[f].file as int].embeddings.len()
}

/// The batches that leave the queue when the slots `ids` of `file` come in
/// behind `pending`: every run of `BATCH_SPANS` slots, counted from the
/// first pending one, is one batch. The first batch starts with what was
/// pending; each later one is a single fragment of the file.
pub open spec fn sealed_batches(pending: Seq<Fragment>, file: usize, ids: Seq<usize>) -> Seq<
    Seq<Fragment>,
> {
    Seq::new(
        (span_count(pending) + ids.len()) / (BATCH_SPANS as nat),
        |j: int| sealed_batch(pending, file, ids, j),
    )
}

/// The `j`-th of the batches that leave the queue.
pub open spec fn sealed_batch(pending: Seq<Fragment>, file: usize, ids: Seq<usize>, j: int) -> Seq<
    Fragment,
> {
    let before = span_count(pending) as int;
    if j == 0 {
        pending.push(Fragment { file, ids: ids.subrange(0, BATCH_SPANS - before) })
    } else {
        seq![
            Fragment {
                file,
                ids: ids.subrange(BATCH_SPANS * j - before, BATCH_SPANS * (j + 1) - before),
            },
        ]
    }
}

/// What stays pending after the slots `ids` of `file` came in: the slots
/// behind the last full batch, or, where no batch was full, the old
/// fragments and then the new slots.
pub open spec fn left_pending(pending: Seq<Fragment>, file: usize, ids: Seq<usize>) -> Seq<
    Fragment,
> {
    let before = span_count(pending) as int;
    let sent = (before + ids.len()) / (BATCH_SPANS as int);
    let start = if sent == 0 {
        0
    } else {
        BATCH_SPANS * sent - before
    };
    let kept = if sent == 0 {
        pending
    } else {
        Seq::empty()
    };
    if start < ids.len() {
        kept.push(Fragment { file, ids: ids.subrange(start, ids.len() as int) })
    } else {
        kept
    }
}

/// One more fragment adds its slots to the count.
pub proof fn lemma_span_count_push(q: Seq<Fragment>, f: Fragment)
    ensures
        span_count(q.push(f)) == span_count(q) + f.ids.len(),
{
    assert(q.push(f).drop_last() =~= q);
}

/// The first fragments of a list name no more slots than the whole list.
pub proof fn lemma_span_count_take(q: Seq<Fragment>, n: int)
    requires
        0 <= n <= q.len(),
    ensures
        span_count(q.take(n)) <= span_count(q),
    decreases q.len(),
{
    if n < q.len() {
        lemma_span_count_take(q.drop_last(), n);
        assert(q.drop_last().take(n) =~= q.take(n));
    } else {
        assert(q.take(n) =~= q);
    }
}

/// A fragment of slots of a file of the table fits the table.
pub proof fn lemma_push_fits(
    q: Seq<Fragment>,
    file: usize,
    ids: Seq<usize>,
    files: Seq<FileContext>,
    from: int,
    to: int,
)
    requires
        fits(q, files),
        file < files.len(),
        forall|k: int| 0 <= k < ids.len() ==> (#[trigger] ids[k]) < files[file as int].embeddings.len(),
        0 <= from <= to <= ids.len(),
    ensures
        fits(q.push(Fragment { file, ids: ids.subrange(from, to) }), files),
{
    let b = q.push(Fragment { file, ids: ids.subrange(from, to) });
    assert forall|f: int| 0 <= f < b.len() implies (#[trigger] b[f]).file < files.len() by {
        if f < q.len() {
            assert(b[f] == q[f]);
        }
    }
    assert forall|f: int, k: int| 0 <= f < b.len() && 0 <= k < b[f].ids.len() implies (
    #[trigger] b[f].ids[k]) < files[b[f].file as int].embeddings.len() by {
        if f < q.len() {
            assert(b[f] == q[f]);
            assert(q[f].ids[k] < files[q[f].file as int].embeddings.len());
        } else {
            assert(b[f].ids[k] == ids[from + k]);
        }
    }
}

/// Every batch that leaves the queue fits the table, where what was
/// pending did and the slots that came in are slots of their file.
pub proof fn lemma_sealed_batch_fits(
    pending: Seq<Fragment>,
    file: usize,
    ids: Seq<usize>,
    files: Seq<FileContext>,
    j: int,
)
    requires
        fits(pending, files),
        span_count(pending) < BATCH_SPANS,
        file < files.len(),
        forall|k: int| 0 <= k < ids.len() ==> (#[trigger] ids[k]) < files[file as int].embeddings.len(),
        0 <= j < sealed_batches(pending, file, ids).len(),
    ensures
        fits(sealed_batch(pending, file, ids, j), files),
{
    let before = span_count(pending) as int;
    if j == 0 {
        lemma_push_fits(pending, file, ids, files, 0, BATCH_SPANS - before);
    } else {
        lemma_push_fits(
            Seq::empty(),
            file,
            ids,
            files,
            BATCH_SPANS * j - before,
            BATCH_SPANS * (j + 1) - before,
        );
        assert(sealed_batch(pending, file, ids, j) =~= Seq::<Fragment>::empty().push(
            Fragment {
                file,
                ids: ids.subrange(BATCH_SPANS * j - before, BATCH_SPANS * (j + 1) - before),
            },
        ));
    }
}

/// What stays pending fits the table, where what was pending did and the
/// slots that came in are slots of their file.
pub proof fn lemma_left_pending_fits(
    pending: Seq<Fragment>,
    file: usize,
    ids: Seq<usize>,
    files: Seq<FileContext>,
)
    requires
        fits(pending, files),
        span_count(pending) < BATCH_SPANS,
        file < files.len(),
        forall|k: int| 0 <= k < ids.len() ==> (#[trigger] ids[k]) < files[file as int].embeddings.len(),
    ensures
        fits(left_pending(pending, file, ids), files),
{
    let before = span_count(pending) as int;
    let sent = (before + ids.len()) / (BATCH_SPANS as int);
    let start = if sent == 0 {
        0
    } else {
        BATCH_SPANS * sent - before
    };
    if start < ids.len() {
        if sent == 0 {
            lemma_push_fits(pending, file, ids, files, start, ids.len() as int);
        } else {
            lemma_push_fits(Seq::empty(), file, ids, files, start, ids.len() as int);
        }
    }
}

/// Fragments that fit a table fit it still when a file is added at its end.
pub proof fn lemma_fits_longer_table(q: Seq<Fragment>, files: Seq<FileContext>, added: FileContext)
    requires
        fits(q, files),
    ensures
        fits(q, files.push(added)),
{
    assert forall|f: int, k: int| 0 <= f < q.len() && 0 <= k < q[f].ids.len() implies (
    #[trigger] q[f].ids[k]) < files.push(added)[q[f].file as int].embeddings.len() by {
        assert(q[f].file < files.len());
        assert(files.push(added)[q[f].file as int] == files[q[f].file as int]);
    }
}

/// Fragments that fit a table fit every table whose files have as many
/// slots.
pub proof fn lemma_fits_same_shape(q: Seq<Fragment>, files: Seq<FileContext>, other: Seq<FileContext>)
    requires
        fits(q, files),
        other.len() == files.len(),
        forall|x: int|
            0 <= x < files.len() ==> (#[trigger] other[x]).embeddings.len()
                == files[x].embeddings.len(),
    ensures
        fits(q, other),
{
    assert forall|f: int, k: int| 0 <= f < q.len() && 0 <= k < q[f].ids.len() implies (
    #[trigger] q[f].ids[k]) < other[q[f].file as int].embeddings.len() by {
        assert(q[f].file < files.len());
        assert(other[q[f].file as int].embeddings.len() == files[q[f].file as int].embeddings.len());
    }
}

/// The slots that were taken in and have not been sent yet.
#[derive(Debug, Clone, PartialEq, Eq)]
pub struct EmbeddingQueue {
    queue: Vec<FileFragment>,
}

impl View for EmbeddingQueue {
    type V = Seq<Fragment>;

    closed spec fn view(&self) -> Seq<Fragment> {
        fragments(self.queue@)
    }
}

impl EmbeddingQueue {
    /// Fewer than a batch is pending.
    pub open spec fn wf(&self) -> bool {
        span_count(self@) < BATCH_SPANS
    }

    /// A queue with nothing pending.
    pub fn new() -> (r: EmbeddingQueue)
        ensures
            r.wf(),
            r@ == Seq::<Fragment>::empty(),
    {
        let r = EmbeddingQueue { queue: Vec::new() };
        assert(r@ =~= Seq::<Fragment>::empty());
        r
    }

    /// The fragments that are pending, oldest first.
    pub fn pending(&self) -> (r: &Vec<FileFragment>)
        ensures
            fragments(r@) == self@,
    {
        &self.queue
    }

    /// Hands out everything that is pending and leaves the queue empty.
    pub fn flush_queue(&mut self) -> (batch: Vec<FileFragment>)
        ensures
            fragments(batch@) == old(self)@,
            final(self)@ == Seq::<Fragment>::empty(),
            final(self).wf(),
    {
        let mut batch: Vec<FileFragment> = Vec::new();
        std::mem::swap(&mut self.queue, &mut batch);
        assert(self@ =~= Seq::<Fragment>::empty());
        batch
    }

    /// The number of slots that are pending.
    pub fn queue_size(&self) -> (size: usize)
        requires
            self.wf(),
        ensures
            size == span_count(self@),
    {
        let mut size: usize = 0;
        let mut i: usize = 0;
        while i < self.queue.len()
            invariant
                self.wf(),
                i <= self.queue.len(),
                size == span_count(self@.take(i as int)),
            decreases self.queue.len() - i,
        {
            proof {
                lemma_span_count_take(self@, i + 1);
                assert(self@.take(i + 1).drop_last() =~= self@.take(i as int));
            }
            size = size + self.queue[i].embeddable_ids.len();
            i = i + 1;
        }
        assert(self@.take(i as int) =~= self@);
        size
    }

    /// Takes a job and returns the batches that are to be embedded now, in
    /// the order in which they were sealed.
    pub fn queue_job(&mut self, job: EmbeddingJob, files: &Vec<FileContext>) -> (batches: Vec<
        Vec<FileFragment>,
    >)
        requires
            old(self).wf(),
            job matches EmbeddingJob::Embed { file } ==> file < files.len(),
        ensures
            final(self).wf(),
            fits(old(self)@, files@) ==> fits(final(self)@, files@) && forall|j: int|
                0 <= j < batches.len() ==> fits(#[trigger] batches_of(batches@)[j], files@),
            match job {
                EmbeddingJob::Embed { file } => {
                    let ids = empty_slots(files[file as int].slots());
                    &&& batches_of(batches@) == sealed_batches(old(self)@, file, ids)
                    &&& final(self)@ == left_pending(old(self)@, file, ids)
                },
                EmbeddingJob::Flush => {
                    &&& batches_of(batches@) == seq![old(self)@]
                    &&& final(self)@ == Seq::<Fragment>::empty()
                },
            },
    {
        let mut batches: Vec<Vec<FileFragment>> = Vec::new();
        match job {
            EmbeddingJob::Embed { file } => {
                let before = self.queue_size();
                let outstanding_ids = files[file].document_ids();
                let ghost pending = self@;
                let ghost ids = outstanding_ids@;
                proof {
                    lemma_empty_slots(files[file as int].slots());
                }
                let mut size: usize = before;
                let mut embeddable_ids: Vec<usize> = Vec::new();
                let mut i: usize = 0;
                while i < outstanding_ids.len()
                    invariant
                        i <= outstanding_ids.len(),
                        ids == outstanding_ids@,
                        before == span_count(pending),
                        before < BATCH_SPANS,
                        file < files.len(),
                        forall|k: int|
                            0 <= k < ids.len() ==> (#[trigger] ids[k]) < files[file as int].embeddings.len(),
                        size == (before + i) % (BATCH_SPANS as int),
                        batches.len() == (before + i) / (BATCH_SPANS as int),
                        forall|j: int|
                            0 <= j < batches.len() ==> fragments((#[trigger] batches[j])@)
                                == sealed_batch(pending, file, ids, j),
                        self@ == (if batches.len() == 0 {
                            pending
                        } else {
                            Seq::<Fragment>::empty()
                        }),
                        embeddable_ids@ == ids.subrange(
                            if batches.len() == 0 {
                                0
                            } else {
                                BATCH_SPANS * batches.len() - before
                            },
                            i as int,
                        ),
                    decreases outstanding_ids.len() - i,
                {
                    let ghost start = if batches.len() == 0 {
                        0
                    } else {
                        BATCH_SPANS * batches.len() - before
                    };
                    size = size + 1;
                    embeddable_ids.push(outstanding_ids[i]);
                    assert(embeddable_ids@ =~= ids.subrange(start, i + 1));
                    if size == BATCH_SPANS {
                        let mut fragment_ids: Vec<usize> = Vec::new();
                        std::mem::swap(&mut embeddable_ids, &mut fragment_ids);
                        let ghost sealed_at = batches.len() as int;
                        self.queue.push(FileFragment { file, embeddable_ids: fragment_ids });
                        let batch = self.flush_queue();
                        assert(fragments(batch@) =~= sealed_batch(pending, file, ids, sealed_at));
                        batches.push(batch);
                        size = 0;
                        assert(embeddable_ids@ =~= ids.subrange(i + 1, i + 1));
                    }
                    i = i + 1;
                }
                let ghost sent = batches.len() as int;
                let ghost start = if sent == 0 {
                    0
                } else {
                    BATCH_SPANS * sent - before
                };
                if embeddable_ids.len() != 0 {
                    proof {
                        lemma_span_count_push(self@, Fragment { file, ids: embeddable_ids@ });
                    }
                    self.queue.push(FileFragment { file, embeddable_ids });
                    assert(self@ =~= left_pending(pending, file, ids));
                } else {
                    assert(self@ =~= left_pending(pending, file, ids));
                }
                assert(batches_of(batches@) =~= sealed_batches(pending, file, ids));
                proof {
                    if fits(pending, files@) {
                        lemma_left_pending_fits(pending, file, ids, files@);
                    }
                }
                assert(span_count(Seq::<Fragment>::empty()) == 0);
                assert forall|j: int| fits(pending, files@) && 0 <= j < batches.len() implies fits(
                    #[trigger] batches_of(batches@)[j],
                    files@,
                ) by {
                    lemma_sealed_batch_fits(pending, file, ids, files@, j);
                }
            },
            EmbeddingJob::Flush => {
                let batch = self.flush_queue();
                batches.push(batch);
                assert(batches_of(batches@) =~= seq![old(self)@]);
            },
        }
        batches
    }
}

/// Every batch that leaves the queue names exactly `BATCH_SPANS` slots, and
/// what stays pending is what is left over of the slots that came in.
pub proof fn lemma_batches_are_full(pending: Seq<Fragment>, file: usize, ids: Seq<usize>)
    requires
        span_count(pending) < BATCH_SPANS,
    ensures
        forall|j: int|
            0 <= j < sealed_batches(pending, file, ids).len() ==> span_count(
                #[trigger] sealed_batches(pending, file, ids)[j],
            ) == BATCH_SPANS,
        span_count(left_pending(pending, file, ids)) == (span_count(pending) + ids.len()) % (
        BATCH_SPANS as nat),
{
    let before = span_count(pending) as int;
    let sent = (before + ids.len()) / (BATCH_SPANS as int);
    assert(span_count(Seq::<Fragment>::empty()) == 0);
    assert forall|j: int| 0 <= j < sealed_batches(pending, file, ids).len() implies span_count(
        #[trigger] sealed_batches(pending, file, ids)[j],
    ) == BATCH_SPANS by {
        if j == 0 {
            lemma_span_count_push(
                pending,
                Fragment { file, ids: ids.subrange(0, BATCH_SPANS - before) },
            );
        } else {
            let piece = Fragment {
                file,
                ids: ids.subrange(BATCH_SPANS * j - before, BATCH_SPANS * (j + 1) - before),
            };
            lemma_span_count_push(Seq::empty(), piece);
            assert(seq![piece] =~= Seq::<Fragment>::empty().push(piece));
        }
    }
    let start = if sent == 0 {
        0
    } else {
        BATCH_SPANS * sent - before
    };
    if start < ids.len() {
        let piece = Fragment { file, ids: ids.subrange(start, ids.len() as int) };
        if sent == 0 {
            lemma_span_count_push(pending, piece);
        } else {
            lemma_span_count_push(Seq::empty(), piece);
        }
    }
}

/// Slots that fill the pending ones up to exactly `BATCH_SPANS` leave in a
/// single batch, together with what was pending, and nothing stays behind.
pub proof fn lemma_full_batch_leaves_once(pending: Seq<Fragment>, file: usize, ids: Seq<usize>)
    requires
        span_count(pending) + ids.len() == BATCH_SPANS,
        ids.len() > 0,
    ensures
        sealed_batches(pending, file, ids) == seq![pending.push(Fragment { file, ids })],
        left_pending(pending, file, ids) == Seq::<Fragment>::empty(),
{
    assert(ids.subrange(0, ids.len() as int) =~= ids);
    assert(sealed_batches(pending, file, ids) =~= seq![pending.push(Fragment { file, ids })]);
}

/// A file none of whose slots is empty changes nothing in the queue, and
/// no batch leaves for it.
pub proof fn lemma_complete_file_is_not_queued(
    pending: Seq<Fragment>,
    file: usize,
    slots: Seq<Seq<u32>>,
)
    requires
        span_count(pending) < BATCH_SPANS,
        slots.len() <= usize::MAX,
        all_filled(slots),
    ensures
        empty_slots(slots) == Seq::<usize>::empty(),
        sealed_batches(pending, file, empty_slots(slots)) == Seq::<Seq<Fragment>>::empty(),
        left_pending(pending, file, empty_slots(slots)) == pending,
{
    lemma_empty_slots(slots);
    assert(empty_slots(slots) =~= Seq::<usize>::empty());
    assert(sealed_batches(pending, file, empty_slots(slots)) =~= Seq::<Seq<Fragment>>::empty());
}

/// Decides when the queue is flushed for want of new work: after a wait
/// that brought nothing, if anything was forwarded since the last flush.
#[derive(Debug, Clone, Copy, PartialEq, Eq, Structural)]
pub struct BatchTimer {
    pub new_values: bool,
}

impl BatchTimer {
    /// A timer that has seen no message.
    pub fn new() -> (r: BatchTimer)
        ensures
            !r.new_values,
    {
        BatchTimer { new_values: false }
    }

    /// A message was forwarded to the queue.
    pub fn message_forwarded(&mut self)
        ensures
            final(self).new_values,
    {
        self.new_values = true;
    }

    /// The wait for a message ran out. The result says whether the queue
    /// is to be flushed.
    pub fn timed_out(&mut self) -> (flush: bool)
        ensures
            flush == old(self).new_values,
            !final(self).new_values,
    {
        let flush = self.new_values;
        self.new_values = false;
        flush
    }
}

} // verus!
