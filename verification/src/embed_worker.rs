//! The embedding step: the texts of a batch are gathered, embedded in one
//! call, and the vectors that come back are written into their slots.

use crate::embedding::{Embedding, EmbeddingProvider, ProviderError};
use crate::embedding_queue::{fits, fragments, span_count, FileFragment, Fragment};
use crate::file_context::{all_filled, FileContext};
use vstd::prelude::*;

verus! {

/// Why a batch was not written.
#[derive(Debug, Clone, Copy, PartialEq, Eq, Structural)]
pub enum EmbedError {
    /// The provider gave no answer.
    ProviderFailed,
    /// The provider did not give one vector per text.
    CountMismatch,
    /// A vector is empty or not of the expected length.
    DimensionMismatch,
    /// The batch names a file or a slot that the table does not have.
    UnknownSlot,
}

/// Every file of the table has one slot per span.
pub open spec fn table_wf(files: Seq<FileContext>) -> bool {
    forall|x: int| 0 <= x < files.len() ==> (#[trigger] files[x]).wf()
}

/// The slots of every file of the table.
pub open spec fn table_slots(files: Seq<FileContext>) -> Seq<Seq<Seq<u32>>> {
    Seq::new(files.len(), |x: int| files[x].slots())
}

/// The second table holds the files of the first, with the same spans;
/// only slots may differ.
pub open spec fn same_files(before: Seq<FileContext>, after: Seq<FileContext>) -> bool {
    &&& after.len() == before.len()
    &&& forall|x: int|
        0 <= x < before.len() ==> {
            &&& (#[trigger] after[x]).details == before[x].details
            &&& after[x].documents == before[x].documents
            &&& after[x].embeddings.len() == before[x].embeddings.len()
        }
}

/// The texts as mathematical values.
pub open spec fn texts_of(spans: Seq<String>) -> Seq<Seq<char>> {
    Seq::new(spans.len(), |i: int| spans[i]@)
}

/// The vectors as mathematical values.
pub open spec fn vectors_of(embeddings: Seq<Embedding>) -> Seq<Seq<u32>> {
    Seq::new(embeddings.len(), |i: int| embeddings[i]@)
}

/// The texts of the slots of one fragment, in the fragment's order.
pub open spec fn fragment_texts(fragment: Fragment, files: Seq<FileContext>) -> Seq<Seq<char>> {
    Seq::new(
        fragment.ids.len(),
        |k: int| files[fragment.file as int].documents[fragment.ids[k] as int].content@,
    )
}

/// The texts of a batch: those of its fragments, one fragment after the other.
pub open spec fn batch_texts(batch: Seq<Fragment>, files: Seq<FileContext>) -> Seq<Seq<char>>
    decreases batch.len(),
{
    if batch.len() == 0 {
        Seq::empty()
    } else {
        batch_texts(batch.drop_last(), files) + fragment_texts(batch.last(), files)
    }
}

/// Every vector is non-empty and of the expected length.
pub open spec fn valid_vectors(vectors: Seq<Seq<u32>>, dimension: usize) -> bool {
    forall|i: int|
        0 <= i < vectors.len() ==> (#[trigger] vectors[i]).len() == dimension && vectors[i].len()
            > 0
}

/// The slots of a file after the vectors were written to the slots `ids`,
/// the k-th vector to the k-th of them.
pub open spec fn write_fragment(slots: Seq<Seq<u32>>, ids: Seq<usize>, vectors: Seq<Seq<u32>>) -> Seq<
    Seq<u32>,
>
    decreases ids.len(),
{
    if ids.len() == 0 || vectors.len() == 0 {
        slots
    } else {
        write_fragment(slots, ids.drop_last(), vectors.drop_last()).update(
            ids.last() as int,
            vectors.last(),
        )
    }
}

/// The table after a batch was written: the vectors go to the slots that
/// the fragments name, in the order of the batch.
pub open spec fn write_batch(
    table: Seq<Seq<Seq<u32>>>,
    batch: Seq<Fragment>,
    vectors: Seq<Seq<u32>>,
) -> Seq<Seq<Seq<u32>>>
    decreases batch.len(),
{
    if batch.len() == 0 {
        table
    } else {
        let last = batch.last();
        let split = vectors.len() - last.ids.len();
        let earlier = write_batch(table, batch.drop_last(), vectors.take(split));
        earlier.update(
            last.file as int,
            write_fragment(earlier[last.file as int], last.ids, vectors.skip(split)),
        )
    }
}

/// The files that are to be published after a batch was written: the file
/// of each fragment after whose writing no slot of the file is empty, in
/// the order of the batch.
pub open spec fn finished_files(
    table: Seq<Seq<Seq<u32>>>,
    batch: Seq<Fragment>,
    vectors: Seq<Seq<u32>>,
) -> Seq<usize>
    decreases batch.len(),
{
    if batch.len() == 0 {
        Seq::empty()
    } else {
        let last = batch.last();
        let split = vectors.len() - last.ids.len();
        let earlier = finished_files(table, batch.drop_last(), vectors.take(split));
        if all_filled(write_batch(table, batch, vectors)[last.file as int]) {
            earlier.push(last.file)
        } else {
            earlier
        }
    }
}

/// Writing to slots of a file leaves the number of its slots as it was.
pub proof fn lemma_write_fragment_len(slots: Seq<Seq<u32>>, ids: Seq<usize>, vectors: Seq<Seq<u32>>)
    requires
        forall|k: int| 0 <= k < ids.len() ==> (#[trigger] ids[k]) < slots.len(),
    ensures
        write_fragment(slots, ids, vectors).len() == slots.len(),
    decreases ids.len(),
{
    if ids.len() > 0 && vectors.len() > 0 {
        assert forall|k: int| 0 <= k < ids.drop_last().len() implies (#[trigger] ids.drop_last()[k])
            < slots.len() by {
            assert(ids.drop_last()[k] == ids[k]);
        }
        lemma_write_fragment_len(slots, ids.drop_last(), vectors.drop_last());
    }
}

/// The list of slots names slot `i`.
pub open spec fn lists(ids: Seq<usize>, i: int) -> bool {
    exists|k: int| 0 <= k < ids.len() && #[trigger] ids[k] == i
}

/// Some fragment of the batch names slot `i` of file `x`.
pub open spec fn names(batch: Seq<Fragment>, x: int, i: int) -> bool {
    exists|f: int| 0 <= f < batch.len() && (#[trigger] batch[f]).file == x && lists(batch[f].ids, i)
}

/// Every fragment names a file of the table and slots of that file.
pub open spec fn fits_slots(batch: Seq<Fragment>, table: Seq<Seq<Seq<u32>>>) -> bool {
    &&& forall|f: int| 0 <= f < batch.len() ==> (#[trigger] batch[f]).file < table.len()
    &&& forall|f: int, k: int|
        0 <= f < batch.len() && 0 <= k < batch[f].ids.len() ==> (#[trigger] batch[f].ids[k])
            < table[batch[f].file as int].len()
}

/// After valid vectors were written to slots of a file, each of those
/// slots holds a vector of the expected length, and every other slot is as
/// it was.
pub proof fn lemma_fragment_written(
    slots: Seq<Seq<u32>>,
    ids: Seq<usize>,
    vectors: Seq<Seq<u32>>,
    dimension: usize,
)
    requires
        forall|k: int| 0 <= k < ids.len() ==> (#[trigger] ids[k]) < slots.len(),
        vectors.len() == ids.len(),
        valid_vectors(vectors, dimension),
    ensures
        write_fragment(slots, ids, vectors).len() == slots.len(),
        forall|i: int|
            0 <= i < slots.len() ==> (if lists(ids, i) {
                (#[trigger] write_fragment(slots, ids, vectors)[i]).len() == dimension
                    && write_fragment(slots, ids, vectors)[i].len() > 0
            } else {
                write_fragment(slots, ids, vectors)[i] == slots[i]
            }),
    decreases ids.len(),
{
    if ids.len() > 0 {
        let ids0 = ids.drop_last();
        let vectors0 = vectors.drop_last();
        assert forall|k: int| 0 <= k < ids0.len() implies (#[trigger] ids0[k]) < slots.len() by {
            assert(ids0[k] == ids[k]);
        }
        assert forall|k: int| 0 <= k < vectors0.len() implies (#[trigger] vectors0[k]).len()
            == dimension && vectors0[k].len() > 0 by {
            assert(vectors0[k] == vectors[k]);
        }
        lemma_fragment_written(slots, ids0, vectors0, dimension);
        let before = write_fragment(slots, ids0, vectors0);
        let after = write_fragment(slots, ids, vectors);
        let last = ids.len() - 1;
        assert(after == before.update(ids[last] as int, vectors[last]));
        assert forall|i: int| 0 <= i < slots.len() implies (if lists(ids, i) {
            (#[trigger] after[i]).len() == dimension && after[i].len() > 0
        } else {
            after[i] == slots[i]
        }) by {
            if i == ids[last] as int {
                assert(lists(ids, i));
                assert(after[i] == vectors[last]);
            } else {
                assert(after[i] == before[i]);
                if lists(ids, i) {
                    let k = choose|k: int| 0 <= k < ids.len() && #[trigger] ids[k] == i;
                    assert(ids0[k] == i);
                    assert(lists(ids0, i));
                }
                if lists(ids0, i) {
                    let k = choose|k: int| 0 <= k < ids0.len() && #[trigger] ids0[k] == i;
                    assert(ids[k] == i);
                }
            }
        }
    }
}

/// After a batch was written with valid vectors, one per slot, every file
/// has as many slots as before, each slot that the batch names holds a
/// vector of the expected length, and every other slot is as it was.
pub proof fn lemma_batch_written(
    table: Seq<Seq<Seq<u32>>>,
    batch: Seq<Fragment>,
    vectors: Seq<Seq<u32>>,
    dimension: usize,
)
    requires
        fits_slots(batch, table),
        vectors.len() == span_count(batch),
        valid_vectors(vectors, dimension),
    ensures
        write_batch(table, batch, vectors).len() == table.len(),
        forall|x: int|
            0 <= x < table.len() ==> (#[trigger] write_batch(table, batch, vectors)[x]).len()
                == table[x].len(),
        forall|x: int, i: int|
            0 <= x < table.len() && 0 <= i < table[x].len() ==> (if names(batch, x, i) {
                (#[trigger] write_batch(table, batch, vectors)[x][i]).len() == dimension
                    && write_batch(table, batch, vectors)[x][i].len() > 0
            } else {
                write_batch(table, batch, vectors)[x][i] == table[x][i]
            }),
    decreases batch.len(),
{
    if batch.len() > 0 {
        let batch0 = batch.drop_last();
        let last = batch.last();
        let split = vectors.len() - last.ids.len();
        let head = vectors.take(split);
        let tail = vectors.skip(split);
        assert forall|f: int| 0 <= f < batch0.len() implies (#[trigger] batch0[f]).file
            < table.len() by {
            assert(batch0[f] == batch[f]);
        }
        assert forall|f: int, k: int| 0 <= f < batch0.len() && 0 <= k < batch0[f].ids.len() implies (
        #[trigger] batch0[f].ids[k]) < table[batch0[f].file as int].len() by {
            assert(batch0[f] == batch[f]);
            assert(batch[f].ids[k] < table[batch[f].file as int].len());
        }
        assert forall|k: int| 0 <= k < head.len() implies (#[trigger] head[k]).len() == dimension
            && head[k].len() > 0 by {
            assert(head[k] == vectors[k]);
        }
        assert forall|k: int| 0 <= k < tail.len() implies (#[trigger] tail[k]).len() == dimension
            && tail[k].len() > 0 by {
            assert(tail[k] == vectors[split + k]);
        }
        lemma_batch_written(table, batch0, head, dimension);
        let earlier = write_batch(table, batch0, head);
        let x0 = last.file as int;
        assert(batch[batch.len() - 1] == last);
        assert(x0 < table.len());
        assert forall|k: int| 0 <= k < last.ids.len() implies (#[trigger] last.ids[k])
            < earlier[x0].len() by {
            assert(batch[batch.len() - 1].ids[k] < table[x0].len());
        }
        lemma_fragment_written(earlier[x0], last.ids, tail, dimension);
        let written = write_fragment(earlier[x0], last.ids, tail);
        let after = write_batch(table, batch, vectors);
        assert(after == earlier.update(x0, written));
        assert forall|x: int, i: int| 0 <= x < table.len() && 0 <= i < table[x].len() implies (if names(
            batch,
            x,
            i,
        ) {
            (#[trigger] after[x][i]).len() == dimension && after[x][i].len() > 0
        } else {
            after[x][i] == table[x][i]
        }) by {
            if names(batch0, x, i) {
                let f = choose|f: int|
                    0 <= f < batch0.len() && (#[trigger] batch0[f]).file == x && lists(
                        batch0[f].ids,
                        i,
                    );
                assert(batch[f] == batch0[f]);
                assert(names(batch, x, i));
            }
            if x == x0 && lists(last.ids, i) {
                assert(names(batch, x, i));
            }
            if names(batch, x, i) {
                let f = choose|f: int|
                    0 <= f < batch.len() && (#[trigger] batch[f]).file == x && lists(batch[f].ids, i);
                if f < batch0.len() {
                    assert(batch0[f] == batch[f]);
                    assert(names(batch0, x, i));
                } else {
                    assert(x == x0 && lists(last.ids, i));
                }
            }
            if x == x0 {
                assert(after[x] == written);
                if !lists(last.ids, i) {
                    assert(written[i] == earlier[x0][i]);
                }
            } else {
                assert(after[x] == earlier[x]);
            }
        }
    }
}

/// The position, among the texts of a batch, of the first text of its
/// `f`-th fragment.
pub open spec fn offset(batch: Seq<Fragment>, f: int) -> nat {
    span_count(batch.take(f))
}

/// No slot is named twice by the batch.
pub open spec fn names_once(batch: Seq<Fragment>) -> bool {
    forall|f: int, k: int, g: int, l: int|
        0 <= f < batch.len() && 0 <= k < batch[f].ids.len() && 0 <= g < batch.len() && 0 <= l
            < batch[g].ids.len() && batch[f].file == batch[g].file && (#[trigger] batch[f].ids[k])
            == (#[trigger] batch[g].ids[l]) ==> f == g && k == l
}

/// The texts of the fragments before the `f`-th, and those of the `f`-th,
/// are among the texts of the batch.
pub proof fn lemma_offset(batch: Seq<Fragment>, f: int)
    requires
        0 <= f < batch.len(),
    ensures
        offset(batch, f + 1) == offset(batch, f) + batch[f].ids.len(),
        offset(batch, f + 1) <= span_count(batch),
{
    assert(batch.take(f + 1).drop_last() =~= batch.take(f));
    assert(batch.take(f + 1).last() == batch[f]);
    crate::embedding_queue::lemma_span_count_take(batch, f + 1);
}

/// A slot that the list does not name is as it was after the writes.
pub proof fn lemma_fragment_untouched(
    slots: Seq<Seq<u32>>,
    ids: Seq<usize>,
    vectors: Seq<Seq<u32>>,
    i: int,
)
    requires
        forall|k: int| 0 <= k < ids.len() ==> (#[trigger] ids[k]) < slots.len(),
        0 <= i < slots.len(),
        !lists(ids, i),
    ensures
        write_fragment(slots, ids, vectors)[i] == slots[i],
    decreases ids.len(),
{
    if ids.len() > 0 && vectors.len() > 0 {
        let ids0 = ids.drop_last();
        assert forall|k: int| 0 <= k < ids0.len() implies (#[trigger] ids0[k]) < slots.len() by {
            assert(ids0[k] == ids[k]);
        }
        if lists(ids0, i) {
            let k = choose|k: int| 0 <= k < ids0.len() && #[trigger] ids0[k] == i;
            assert(ids[k] == i);
        }
        assert(ids[ids.len() - 1] != i);
        lemma_write_fragment_len(slots, ids0, vectors.drop_last());
        lemma_fragment_untouched(slots, ids0, vectors.drop_last(), i);
    }
}

/// After vectors were written to slots that are named once each, the
/// `k`-th of the slots holds the `k`-th vector.
pub proof fn lemma_fragment_in_order(slots: Seq<Seq<u32>>, ids: Seq<usize>, vectors: Seq<Seq<u32>>)
    requires
        forall|k: int| 0 <= k < ids.len() ==> (#[trigger] ids[k]) < slots.len(),
        vectors.len() == ids.len(),
        forall|k: int, l: int| 0 <= k < l < ids.len() ==> ids[k] != ids[l],
    ensures
        forall|k: int|
            0 <= k < ids.len() ==> write_fragment(slots, ids, vectors)[(#[trigger] ids[k]) as int]
                == vectors[k],
    decreases ids.len(),
{
    if ids.len() > 0 {
        let ids0 = ids.drop_last();
        let vectors0 = vectors.drop_last();
        let last = ids.len() - 1;
        assert forall|k: int| 0 <= k < ids0.len() implies (#[trigger] ids0[k]) < slots.len() by {
            assert(ids0[k] == ids[k]);
        }
        lemma_write_fragment_len(slots, ids0, vectors0);
        lemma_fragment_in_order(slots, ids0, vectors0);
        let before = write_fragment(slots, ids0, vectors0);
        assert forall|k: int| 0 <= k < ids.len() implies write_fragment(slots, ids, vectors)[(
        #[trigger] ids[k]) as int] == vectors[k] by {
            if k < last {
                assert(ids[k] != ids[last]);
                assert(ids0[k] == ids[k]);
                assert(before[ids0[k] as int] == vectors0[k]);
            }
        }
    }
}

/// Writing a batch leaves the number of files, and of the slots of every
/// file, as it was.
pub proof fn lemma_batch_shape(
    table: Seq<Seq<Seq<u32>>>,
    batch: Seq<Fragment>,
    vectors: Seq<Seq<u32>>,
)
    requires
        fits_slots(batch, table),
    ensures
        write_batch(table, batch, vectors).len() == table.len(),
        forall|x: int|
            0 <= x < table.len() ==> (#[trigger] write_batch(table, batch, vectors)[x]).len()
                == table[x].len(),
    decreases batch.len(),
{
    if batch.len() > 0 {
        let batch0 = batch.drop_last();
        let last = batch.last();
        let split = vectors.len() - last.ids.len();
        lemma_fits_slots_shorter(batch, table);
        lemma_batch_shape(table, batch0, vectors.take(split));
        let earlier = write_batch(table, batch0, vectors.take(split));
        let x0 = last.file as int;
        assert(batch[batch.len() - 1] == last);
        assert forall|k: int| 0 <= k < last.ids.len() implies (#[trigger] last.ids[k])
            < earlier[x0].len() by {
            assert(batch[batch.len() - 1].ids[k] < table[x0].len());
        }
        lemma_write_fragment_len(earlier[x0], last.ids, vectors.skip(split));
    }
}

/// A batch without its last fragment names files and slots of the table,
/// where the whole batch does.
pub proof fn lemma_fits_slots_shorter(batch: Seq<Fragment>, table: Seq<Seq<Seq<u32>>>)
    requires
        fits_slots(batch, table),
        batch.len() > 0,
    ensures
        fits_slots(batch.drop_last(), table),
{
    let batch0 = batch.drop_last();
    assert forall|f: int| 0 <= f < batch0.len() implies (#[trigger] batch0[f]).file
        < table.len() by {
        assert(batch0[f] == batch[f]);
    }
    assert forall|f: int, k: int| 0 <= f < batch0.len() && 0 <= k < batch0[f].ids.len() implies (
    #[trigger] batch0[f].ids[k]) < table[batch0[f].file as int].len() by {
        assert(batch0[f] == batch[f]);
        assert(batch[f].ids[k] < table[batch[f].file as int].len());
    }
}

/// A batch has as many texts as it names slots, and the text at the
/// position of a slot is the text of that slot's span.
pub proof fn lemma_texts_in_order(batch: Seq<Fragment>, files: Seq<FileContext>, f: int, k: int)
    requires
        0 <= f < batch.len(),
        0 <= k < batch[f].ids.len(),
    ensures
        batch_texts(batch, files).len() == span_count(batch),
        offset(batch, f) + k < span_count(batch),
        batch_texts(batch, files)[offset(batch, f) + k]
            == files[batch[f].file as int].documents[batch[f].ids[k] as int].content@,
    decreases batch.len(),
{
    let batch0 = batch.drop_last();
    let last = batch.last();
    lemma_texts_len(batch0, files);
    lemma_texts_len(batch, files);
    lemma_offset(batch, f);
    if f < batch.len() - 1 {
        assert(batch0[f] == batch[f]);
        assert(batch0.take(f) =~= batch.take(f));
        lemma_texts_in_order(batch0, files, f, k);
    } else {
        assert(batch.take(f) =~= batch0);
    }
}

/// A batch has as many texts as it names slots.
pub proof fn lemma_texts_len(batch: Seq<Fragment>, files: Seq<FileContext>)
    ensures
        batch_texts(batch, files).len() == span_count(batch),
    decreases batch.len(),
{
    if batch.len() > 0 {
        lemma_texts_len(batch.drop_last(), files);
    }
}

/// The order of an embed call is kept: where a batch names every slot
/// once, the vector at a position of the answer is written to the slot
/// whose text stood at that position of the request.
pub proof fn lemma_vectors_in_order(
    table: Seq<Seq<Seq<u32>>>,
    batch: Seq<Fragment>,
    vectors: Seq<Seq<u32>>,
    f: int,
    k: int,
)
    requires
        fits_slots(batch, table),
        vectors.len() == span_count(batch),
        names_once(batch),
        0 <= f < batch.len(),
        0 <= k < batch[f].ids.len(),
    ensures
        offset(batch, f) + k < vectors.len(),
        write_batch(table, batch, vectors)[batch[f].file as int][batch[f].ids[k] as int]
            == vectors[offset(batch, f) + k],
    decreases batch.len(),
{
    let batch0 = batch.drop_last();
    let last = batch.last();
    let n = batch.len() - 1;
    let split = vectors.len() - last.ids.len();
    let head = vectors.take(split);
    let tail = vectors.skip(split);
    lemma_offset(batch, f);
    lemma_offset(batch, n);
    assert(batch.take(n) =~= batch0);
    assert(batch.take(n + 1) =~= batch);
    assert(batch[n] == last);
    lemma_fits_slots_shorter(batch, table);
    lemma_batch_shape(table, batch0, head);
    let earlier = write_batch(table, batch0, head);
    let x0 = last.file as int;
    assert forall|j: int| 0 <= j < last.ids.len() implies (#[trigger] last.ids[j])
        < earlier[x0].len() by {
        assert(batch[n].ids[j] < table[x0].len());
    }
    let written = write_fragment(earlier[x0], last.ids, tail);
    assert(write_batch(table, batch, vectors) == earlier.update(x0, written));
    if f == n {
        assert forall|a: int, b: int| 0 <= a < b < last.ids.len() implies last.ids[a]
            != last.ids[b] by {
            if batch[n].ids[a] == batch[n].ids[b] {
                assert(a == b);
            }
        }
        lemma_fragment_in_order(earlier[x0], last.ids, tail);
        assert(written[last.ids[k] as int] == tail[k]);
        assert(tail[k] == vectors[split + k]);
    } else {
        assert(batch0[f] == batch[f]);
        assert(batch0.take(f) =~= batch.take(f));
        assert forall|a: int, b: int, c: int, d: int|
            0 <= a < batch0.len() && 0 <= b < batch0[a].ids.len() && 0 <= c < batch0.len() && 0 <= d
                < batch0[c].ids.len() && batch0[a].file == batch0[c].file && (
            #[trigger] batch0[a].ids[b]) == (#[trigger] batch0[c].ids[d]) implies a == c && b
            == d by {
            assert(batch0[a] == batch[a]);
            assert(batch0[c] == batch[c]);
            assert(batch[a].ids[b] == batch[c].ids[d]);
        }
        lemma_vectors_in_order(table, batch0, head, f, k);
        assert(head[offset(batch0, f) + k] == vectors[offset(batch, f) + k]);
        let x = batch[f].file as int;
        let i = batch[f].ids[k] as int;
        if x == x0 {
            if lists(last.ids, i) {
                let l = choose|l: int| 0 <= l < last.ids.len() && #[trigger] last.ids[l] == i;
                assert(batch[n].ids[l] == batch[f].ids[k]);
                assert(f == n);
            }
            assert(i < earlier[x0].len());
            lemma_fragment_untouched(earlier[x0], last.ids, tail, i);
        }
    }
}

/// Gathers the texts that a batch asks to embed.
pub fn collect_spans(batch: &Vec<FileFragment>, files: &Vec<FileContext>) -> (spans: Vec<String>)
    requires
        fits(fragments(batch@), files@),
        table_wf(files@),
    ensures
        texts_of(spans@) == batch_texts(fragments(batch@), files@),
{
    let mut spans: Vec<String> = Vec::new();
    let ghost q = fragments(batch@);
    let mut f: usize = 0;
    while f < batch.len()
        invariant
            f <= batch.len(),
            q == fragments(batch@),
            fits(q, files@),
            table_wf(files@),
            texts_of(spans@) == batch_texts(q.take(f as int), files@),
        decreases batch.len() - f,
    {
        let fragment = &batch[f];
        let ghost done = texts_of(spans@);
        assert(q[f as int] == fragment@);
        assert(q[f as int].file < files.len());
        let file = &files[fragment.file];
        assert(file.wf());
        let mut k: usize = 0;
        while k < fragment.embeddable_ids.len()
            invariant
                k <= fragment.embeddable_ids.len(),
                f < batch.len(),
                q == fragments(batch@),
                q[f as int] == fragment@,
                fits(q, files@),
                fragment.file < files.len(),
                *file == files[fragment.file as int],
                file.wf(),
                texts_of(spans@) == done + fragment_texts(fragment@, files@).take(k as int),
            decreases fragment.embeddable_ids.len() - k,
        {
            let idx = fragment.embeddable_ids[k];
            assert(q[f as int].ids[k as int] == idx);
            let ghost earlier = spans@;
            let text = file.documents[idx].content.clone();
            spans.push(text);
            proof {
                let all = fragment_texts(fragment@, files@);
                assert(all[k as int] == text@);
                assert(all.take(k + 1) =~= all.take(k as int).push(text@));
                assert(texts_of(spans@) =~= texts_of(earlier).push(text@));
                assert(texts_of(spans@) =~= done + all.take(k + 1));
            }
            k = k + 1;
        }
        assert(fragment_texts(fragment@, files@).take(k as int) =~= fragment_texts(
            fragment@,
            files@,
        ));
        assert(q.take(f + 1).drop_last() =~= q.take(f as int));
        f = f + 1;
    }
    assert(q.take(f as int) =~= q);
    spans
}

/// Whether every file of the table has one slot per span.
pub fn table_is_wf(files: &Vec<FileContext>) -> (r: bool)
    ensures
        r == table_wf(files@),
{
    let mut x: usize = 0;
    while x < files.len()
        invariant
            x <= files.len(),
            forall|y: int| 0 <= y < x ==> (#[trigger] files[y]).wf(),
        decreases files.len() - x,
    {
        if files[x].documents.len() != files[x].embeddings.len() {
            return false;
        }
        x = x + 1;
    }
    true
}

/// Whether every fragment of a batch names a file of the table and slots
/// of that file.
pub fn batch_fits(batch: &Vec<FileFragment>, files: &Vec<FileContext>) -> (r: bool)
    ensures
        r == fits(fragments(batch@), files@),
{
    let ghost q = fragments(batch@);
    let mut f: usize = 0;
    while f < batch.len()
        invariant
            f <= batch.len(),
            q == fragments(batch@),
            forall|g: int| 0 <= g < f ==> (#[trigger] q[g]).file < files.len(),
            forall|g: int, k: int|
                0 <= g < f && 0 <= k < q[g].ids.len() ==> (#[trigger] q[g].ids[k])
                    < files[q[g].file as int].embeddings.len(),
        decreases batch.len() - f,
    {
        let fragment = &batch[f];
        assert(q[f as int] == fragment@);
        if fragment.file >= files.len() {
            return false;
        }
        let slots = files[fragment.file].embeddings.len();
        let mut k: usize = 0;
        while k < fragment.embeddable_ids.len()
            invariant
                k <= fragment.embeddable_ids.len(),
                f < batch.len(),
                q == fragments(batch@),
                q[f as int] == fragment@,
                fragment.file < files.len(),
                slots == files[fragment.file as int].embeddings.len(),
                forall|j: int| 0 <= j < k ==> (#[trigger] fragment.embeddable_ids[j]) < slots,
            decreases fragment.embeddable_ids.len() - k,
        {
            if fragment.embeddable_ids[k] >= slots {
                assert(q[f as int].ids[k as int] >= slots);
                return false;
            }
            k = k + 1;
        }
        assert forall|g: int, j: int| 0 <= g < f + 1 && 0 <= j < q[g].ids.len() implies (
        #[trigger] q[g].ids[j]) < files[q[g].file as int].embeddings.len() by {
            if g == f {
                assert(q[g].ids[j] == fragment.embeddable_ids[j]);
            }
        }
        f = f + 1;
    }
    true
}

/// The number of slots that a batch names, where it fits the machine's
/// integers.
pub fn batch_size(batch: &Vec<FileFragment>) -> (size: Option<usize>)
    ensures
        match size {
            Some(n) => n == span_count(fragments(batch@)),
            None => span_count(fragments(batch@)) > usize::MAX,
        },
{
    let ghost q = fragments(batch@);
    let mut size: usize = 0;
    let mut f: usize = 0;
    while f < batch.len()
        invariant
            f <= batch.len(),
            q == fragments(batch@),
            size == span_count(q.take(f as int)),
        decreases batch.len() - f,
    {
        proof {
            crate::embedding_queue::lemma_span_count_take(q, f + 1);
            assert(q.take(f + 1).drop_last() =~= q.take(f as int));
        }
        let n = batch[f].embeddable_ids.len();
        if n > usize::MAX - size {
            return None;
        }
        size = size + n;
        f = f + 1;
    }
    assert(q.take(f as int) =~= q);
    Some(size)
}

/// Whether every vector is non-empty and of the expected length.
pub fn vectors_valid(embeddings: &Vec<Embedding>, dimension: usize) -> (r: bool)
    ensures
        r == valid_vectors(vectors_of(embeddings@), dimension),
{
    let mut i: usize = 0;
    while i < embeddings.len()
        invariant
            i <= embeddings.len(),
            forall|j: int|
                0 <= j < i ==> (#[trigger] vectors_of(embeddings@)[j]).len() == dimension
                    && vectors_of(embeddings@)[j].len() > 0,
        decreases embeddings.len() - i,
    {
        if embeddings[i].len() != dimension || embeddings[i].len() == 0 {
            assert(vectors_of(embeddings@)[i as int] == embeddings[i as int]@);
            return false;
        }
        assert(vectors_of(embeddings@)[i as int] == embeddings[i as int]@);
        i = i + 1;
    }
    true
}

/// Writes the vectors of one embed call into the slots that the batch
/// names, and returns the files to publish. Vectors that are not one per
/// slot, or not all of the expected length, are refused and nothing is
/// written.
pub fn scatter_embeddings(
    batch: &Vec<FileFragment>,
    files: &mut Vec<FileContext>,
    embeddings: &Vec<Embedding>,
    dimension: usize,
) -> (r: Result<Vec<usize>, EmbedError>)
    requires
        fits(fragments(batch@), old(files)@),
        table_wf(old(files)@),
    ensures
        same_files(old(files)@, final(files)@),
        table_wf(final(files)@),
        match r {
            Ok(finished) => {
                &&& span_count(fragments(batch@)) == embeddings.len()
                &&& valid_vectors(vectors_of(embeddings@), dimension)
                &&& table_slots(final(files)@) == write_batch(
                    table_slots(old(files)@),
                    fragments(batch@),
                    vectors_of(embeddings@),
                )
                &&& finished@ == finished_files(
                    table_slots(old(files)@),
                    fragments(batch@),
                    vectors_of(embeddings@),
                )
            },
            Err(e) => {
                &&& final(files)@ == old(files)@
                &&& e == (if span_count(fragments(batch@)) != embeddings.len() {
                    EmbedError::CountMismatch
                } else {
                    EmbedError::DimensionMismatch
                })
                &&& e == EmbedError::DimensionMismatch ==> !valid_vectors(
                    vectors_of(embeddings@),
                    dimension,
                )
            },
        },
{
    let ghost q = fragments(batch@);
    let ghost vectors = vectors_of(embeddings@);
    let ghost table = table_slots(files@);
    match batch_size(batch) {
        Some(n) => {
            if n != embeddings.len() {
                return Err(EmbedError::CountMismatch);
            }
        },
        None => {
            return Err(EmbedError::CountMismatch);
        },
    }
    if !vectors_valid(embeddings, dimension) {
        return Err(EmbedError::DimensionMismatch);
    }
    let mut finished: Vec<usize> = Vec::new();
    let mut i: usize = 0;
    let mut f: usize = 0;
    while f < batch.len()
        invariant
            f <= batch.len(),
            q == fragments(batch@),
            vectors == vectors_of(embeddings@),
            table == table_slots(old(files)@),
            span_count(q) == embeddings.len(),
            fits(q, old(files)@),
            same_files(old(files)@, files@),
            table_wf(files@),
            i == span_count(q.take(f as int)),
            table_slots(files@) == write_batch(table, q.take(f as int), vectors.take(i as int)),
            finished@ == finished_files(table, q.take(f as int), vectors.take(i as int)),
        decreases batch.len() - f,
    {
        let fragment = &batch[f];
        let file = fragment.file;
        let ghost start = i as int;
        let ghost earlier = table_slots(files@);
        let ghost ids = fragment.embeddable_ids@;
        proof {
            crate::embedding_queue::lemma_span_count_take(q, f + 1);
            assert(q.take(f + 1).drop_last() =~= q.take(f as int));
            assert(q[f as int] == fragment@);
            assert(q[f as int].file < files.len());
            assert(write_fragment(earlier[file as int], ids.take(0), vectors.subrange(start, start))
                == earlier[file as int]);
            assert(earlier.update(file as int, earlier[file as int]) =~= earlier);
        }
        let mut k: usize = 0;
        while k < fragment.embeddable_ids.len()
            invariant
                k <= fragment.embeddable_ids.len(),
                f < batch.len(),
                q == fragments(batch@),
                q[f as int] == fragment@,
                ids == fragment.embeddable_ids@,
                vectors == vectors_of(embeddings@),
                file == fragment.file,
                file < files.len(),
                fits(q, old(files)@),
                same_files(old(files)@, files@),
                table_wf(files@),
                0 <= start,
                i == start + k,
                start + ids.len() <= embeddings.len(),
                earlier.len() == files.len(),
                earlier[file as int].len() == old(files)[file as int].embeddings.len(),
                table_slots(files@) == earlier.update(
                    file as int,
                    write_fragment(
                        earlier[file as int],
                        ids.take(k as int),
                        vectors.subrange(start, start + k),
                    ),
                ),
            decreases fragment.embeddable_ids.len() - k,
        {
            let idx = fragment.embeddable_ids[k];
            let ghost now = table_slots(files@);
            let ghost written = write_fragment(
                earlier[file as int],
                ids.take(k as int),
                vectors.subrange(start, start + k),
            );
            assert(q[f as int].ids[k as int] == idx);
            assert(files[file as int].wf());
            proof {
                assert(earlier[file as int].len() == old(files)[file as int].embeddings.len());
                assert forall|j: int| 0 <= j < ids.take(k as int).len() implies (#[trigger] ids.take(
                    k as int,
                )[j]) < earlier[file as int].len() by {
                    assert(q[f as int].ids[j] == ids[j]);
                }
                lemma_write_fragment_len(
                    earlier[file as int],
                    ids.take(k as int),
                    vectors.subrange(start, start + k),
                );
            }
            let vector = embeddings[i].clone();
            assert(vector@ =~= embeddings[i as int]@);
            let ghost held = files@;
            files[file].set_embedding(idx, vector);
            proof {
                assert(forall|x: int| 0 <= x < held.len() && x != file ==> files@[x] == held[x]);
                assert(files@[file as int].slots() == held[file as int].slots().update(
                    idx as int,
                    vector@,
                ));
                assert(now[file as int] == written);
                assert(vectors[start + k] == vector@);
                assert(ids.take(k + 1).drop_last() =~= ids.take(k as int));
                assert(vectors.subrange(start, start + k + 1).drop_last() =~= vectors.subrange(
                    start,
                    start + k,
                ));
                assert(write_fragment(
                    earlier[file as int],
                    ids.take(k + 1),
                    vectors.subrange(start, start + k + 1),
                ) == written.update(idx as int, vector@));
                assert(table_slots(files@) =~= now.update(
                    file as int,
                    written.update(idx as int, vector@),
                ));
                assert(table_slots(files@) =~= earlier.update(
                    file as int,
                    written.update(idx as int, vector@),
                ));
            }
            i = i + 1;
            k = k + 1;
        }
        proof {
            assert(ids.take(k as int) =~= ids);
            let upto = q.take(f + 1);
            let taken = vectors.take(start + ids.len());
            assert(upto.last() == fragment@);
            assert(taken.take(start) =~= vectors.take(start));
            assert(taken.skip(start) =~= vectors.subrange(start, start + ids.len()));
            assert(upto.drop_last() =~= q.take(f as int));
            assert(table_slots(files@) == write_batch(table, upto, taken));
            assert(table_slots(files@)[file as int] == files[file as int].slots());
        }
        if files[file].complete() {
            finished.push(file);
        }
        f = f + 1;
    }
    proof {
        assert(q.take(f as int) =~= q);
        assert(vectors.take(i as int) =~= vectors);
    }
    Ok(finished)
}

/// What one round of the embed worker leaves behind, for each answer that
/// the provider can give: without an answer nothing is written; vectors
/// that are one per slot, non-empty and of the expected length are written
/// to the slots of the batch in order, and the files that a fragment
/// completed are returned; any other vectors are refused and nothing is
/// written.
pub open spec fn round_outcome(
    before: Seq<FileContext>,
    after: Seq<FileContext>,
    batch: Seq<Fragment>,
    answer: Result<Vec<Embedding>, ProviderError>,
    dimension: usize,
    r: Result<Vec<usize>, EmbedError>,
) -> bool {
    match answer {
        Err(_) => r == Err::<Vec<usize>, EmbedError>(EmbedError::ProviderFailed) && after == before,
        Ok(embeddings) => if span_count(batch) != embeddings.len() {
            r == Err::<Vec<usize>, EmbedError>(EmbedError::CountMismatch) && after == before
        } else if !valid_vectors(vectors_of(embeddings@), dimension) {
            r == Err::<Vec<usize>, EmbedError>(EmbedError::DimensionMismatch) && after == before
        } else {
            &&& r is Ok
            &&& table_slots(after) == write_batch(
                table_slots(before),
                batch,
                vectors_of(embeddings@),
            )
            &&& r->Ok_0@ == finished_files(table_slots(before), batch, vectors_of(embeddings@))
        },
    }
}

/// One round of the embed worker: gathers the texts of the batch, asks the
/// provider for their vectors in a single call and writes them. The
/// provider is handed the texts of the batch, in the order of the batch,
/// and what the round leaves behind follows from its answer alone.
pub fn embed_batch<P: EmbeddingProvider>(
    provider: &P,
    batch: &Vec<FileFragment>,
    files: &mut Vec<FileContext>,
    dimension: usize,
) -> (r: Result<Vec<usize>, EmbedError>)
    requires
        fits(fragments(batch@), old(files)@),
        table_wf(old(files)@),
    ensures
        same_files(old(files)@, final(files)@),
        table_wf(final(files)@),
        exists|spans: Vec<String>, answer: Result<Vec<Embedding>, ProviderError>|
            {
                &&& texts_of(spans@) == batch_texts(fragments(batch@), old(files)@)
                &&& #[trigger] call_ensures(P::embed, (provider, spans), answer)
                &&& round_outcome(
                    old(files)@,
                    final(files)@,
                    fragments(batch@),
                    answer,
                    dimension,
                    r,
                )
            },
{
    let spans = collect_spans(batch, files);
    let ghost asked = spans;
    let answer = provider.embed(spans);
    assert(call_ensures(P::embed, (provider, asked), answer));
    let r = match &answer {
        Ok(embeddings) => scatter_embeddings(batch, files, embeddings, dimension),
        Err(_) => Err(EmbedError::ProviderFailed),
    };
    assert(round_outcome(old(files)@, files@, fragments(batch@), answer, dimension, r));
    r
}

} // verus!
