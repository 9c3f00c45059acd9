//! One file on its way through the pipeline: its spans and, slot by slot,
//! the embeddings that have arrived for them.

use crate::embedding::Embedding;
use vstd::prelude::*;

verus! {

/// Where a file lives and which indexing request it belongs to: the path
/// of the directory that is indexed and the id of its row in the store.
#[derive(Debug, Clone, PartialEq, Eq)]
pub struct FileDetails {
    pub path: String,
    pub directory: String,
    pub directory_id: String,
}

/// One span of a file: its byte range, the text handed to the embedder and
/// the digest of that text.
#[derive(Debug, Clone, PartialEq, Eq)]
pub struct ContextDocument {
    pub start_byte: usize,
    pub end_byte: usize,
    pub content: String,
    pub sha: Vec<u8>,
}

/// A cached embedding, keyed by the digest of the text it was made from.
#[derive(Debug, Clone, PartialEq, Eq)]
pub struct KnownEmbedding {
    pub sha: Vec<u8>,
    pub embedding: Embedding,
}

/// The indices of the empty slots, in ascending order.
pub open spec fn empty_slots(slots: Seq<Seq<u32>>) -> Seq<usize>
    decreases slots.len(),
{
    if slots.len() == 0 {
        Seq::empty()
    } else if slots.last().len() == 0 {
        empty_slots(slots.drop_last()).push((slots.len() - 1) as usize)
    } else {
        empty_slots(slots.drop_last())
    }
}

/// No slot is empty.
pub open spec fn all_filled(slots: Seq<Seq<u32>>) -> bool {
    forall|i: int| 0 <= i < slots.len() ==> (#[trigger] slots[i]).len() > 0
}

/// `empty_slots` lists exactly the empty slots, each once, in ascending order.
pub proof fn lemma_empty_slots(slots: Seq<Seq<u32>>)
    requires
        slots.len() <= usize::MAX,
    ensures
        empty_slots(slots).len() <= slots.len(),
        forall|k: int|
            0 <= k < empty_slots(slots).len() ==> {
                &&& (#[trigger] empty_slots(slots)[k]) < slots.len()
                &&& slots[empty_slots(slots)[k] as int].len() == 0
            },
        forall|j: int, k: int|
            0 <= j < k < empty_slots(slots).len() ==> empty_slots(slots)[j] < empty_slots(
                slots,
            )[k],
        forall|i: int|
            0 <= i < slots.len() && (#[trigger] slots[i]).len() == 0 ==> empty_slots(
                slots,
            ).contains(i as usize),
        all_filled(slots) <==> empty_slots(slots).len() == 0,
    decreases slots.len(),
{
    if slots.len() > 0 {
        let init = slots.drop_last();
        lemma_empty_slots(init);
        let ids = empty_slots(slots);
        let last = (slots.len() - 1) as usize;
        assert forall|i: int| 0 <= i < slots.len() && (#[trigger] slots[i]).len() == 0 implies ids.contains(
            i as usize,
        ) by {
            if i < init.len() {
                assert(init[i].len() == 0);
                let k = choose|k: int| 0 <= k < empty_slots(init).len() && empty_slots(init)[k] == i as usize;
                assert(ids[k] == i as usize);
            } else {
                assert(ids[ids.len() - 1] == last);
            }
        }
        if all_filled(slots) {
            assert(slots[slots.len() - 1].len() > 0);
            assert forall|i: int| 0 <= i < init.len() implies (#[trigger] init[i]).len() > 0 by {
                assert(slots[i].len() > 0);
            }
        }
        if ids.len() == 0 {
            assert forall|i: int| 0 <= i < slots.len() implies (#[trigger] slots[i]).len() > 0 by {
                if i < init.len() {
                    assert(init[i].len() > 0);
                }
            }
        }
    }
}

/// The embedding that a cache holds for a digest: that of the first entry
/// with this digest.
pub open spec fn cached(known: Seq<KnownEmbedding>, sha: Seq<u8>) -> Option<Seq<u32>>
    decreases known.len(),
{
    if known.len() == 0 {
        None
    } else if known[0].sha@ == sha {
        Some(known[0].embedding@)
    } else {
        cached(known.drop_first(), sha)
    }
}

/// The slots after every span whose digest the cache knows took the cached
/// embedding.
pub open spec fn fill_from_cache(
    slots: Seq<Seq<u32>>,
    shas: Seq<Seq<u8>>,
    known: Seq<KnownEmbedding>,
) -> Seq<Seq<u32>> {
    Seq::new(
        slots.len(),
        |i: int|
            match cached(known, shas[i]) {
                Some(embedding) => embedding,
                None => slots[i],
            },
    )
}

/// A file whose every digest the cache knows, with a vector that is not
/// empty, has no empty slot once the cache was used: it is complete, and
/// each slot holds what the cache held.
pub proof fn lemma_cached_file_is_complete(
    slots: Seq<Seq<u32>>,
    shas: Seq<Seq<u8>>,
    known: Seq<KnownEmbedding>,
)
    requires
        slots.len() == shas.len(),
        slots.len() <= usize::MAX,
        forall|i: int|
            0 <= i < shas.len() ==> cached(known, #[trigger] shas[i]) is Some && cached(
                known,
                shas[i],
            )->Some_0.len() > 0,
    ensures
        all_filled(fill_from_cache(slots, shas, known)),
        empty_slots(fill_from_cache(slots, shas, known)) == Seq::<usize>::empty(),
        forall|i: int|
            0 <= i < slots.len() ==> Some(#[trigger] fill_from_cache(slots, shas, known)[i])
                == cached(known, shas[i]),
{
    let filled = fill_from_cache(slots, shas, known);
    assert forall|i: int| 0 <= i < filled.len() implies (#[trigger] filled[i]).len() > 0 by {
        assert(cached(known, shas[i]) is Some);
    }
    lemma_empty_slots(filled);
    assert(empty_slots(filled) =~= Seq::<usize>::empty());
}

/// Whether two byte strings are the same.
pub fn bytes_equal(a: &Vec<u8>, b: &Vec<u8>) -> (r: bool)
    ensures
        r == (a@ == b@),
{
    if a.len() != b.len() {
        return false;
    }
    let mut i: usize = 0;
    while i < a.len()
        invariant
            i <= a.len(),
            a.len() == b.len(),
            forall|j: int| 0 <= j < i ==> a[j] == b[j],
        decreases a.len() - i,
    {
        if a[i] != b[i] {
            return false;
        }
        i = i + 1;
    }
    assert(a@ =~= b@);
    true
}

/// The position of the first cache entry for a digest.
pub fn find_known(known: &Vec<KnownEmbedding>, sha: &Vec<u8>) -> (r: Option<usize>)
    ensures
        match r {
            Some(j) => j < known.len() && cached(known@, sha@) == Some(known[j as int].embedding@),
            None => cached(known@, sha@) is None,
        },
{
    let mut i: usize = 0;
    assert(known@.skip(0) =~= known@);
    while i < known.len()
        invariant
            i <= known.len(),
            cached(known@, sha@) == cached(known@.skip(i as int), sha@),
        decreases known.len() - i,
    {
        assert(known@.skip(i as int)[0] == known[i as int]);
        if bytes_equal(&known[i].sha, sha) {
            return Some(i);
        }
        assert(known@.skip(i as int).drop_first() =~= known@.skip(i + 1));
        i = i + 1;
    }
    None
}

/// In-flight state of one file.
#[derive(Debug, Clone, PartialEq, Eq)]
pub struct FileContext {
    pub details: FileDetails,
    pub documents: Vec<ContextDocument>,
    pub embeddings: Vec<Embedding>,
}

impl FileContext {
    /// Every span has its slot.
    pub open spec fn wf(&self) -> bool {
        self.documents.len() == self.embeddings.len()
    }

    /// The slots as mathematical values.
    pub open spec fn slots(&self) -> Seq<Seq<u32>> {
        Seq::new(self.embeddings.len() as nat, |i: int| self.embeddings[i]@)
    }

    /// The digests of the spans.
    pub open spec fn shas(&self) -> Seq<Seq<u8>> {
        Seq::new(self.documents.len() as nat, |i: int| self.documents[i].sha@)
    }

    /// A file whose slots are all empty.
    pub fn new(details: FileDetails, documents: Vec<ContextDocument>) -> (r: FileContext)
        ensures
            r.wf(),
            r.details == details,
            r.documents == documents,
            r.slots() == Seq::new(documents.len() as nat, |i: int| Seq::<u32>::empty()),
    {
        let mut embeddings: Vec<Embedding> = Vec::new();
        let mut i: usize = 0;
        while i < documents.len()
            invariant
                i <= documents.len(),
                embeddings.len() == i,
                forall|j: int| 0 <= j < i ==> (#[trigger] embeddings[j])@ == Seq::<u32>::empty(),
            decreases documents.len() - i,
        {
            embeddings.push(Vec::new());
            i = i + 1;
        }
        let r = FileContext { details, documents, embeddings };
        assert(r.slots() =~= Seq::new(documents.len() as nat, |i: int| Seq::<u32>::empty()));
        r
    }

    /// The indices of the slots that still wait for an embedding.
    pub fn document_ids(&self) -> (ids: Vec<usize>)
        ensures
            ids@ == empty_slots(self.slots()),
    {
        let mut ids: Vec<usize> = Vec::new();
        let mut idx: usize = 0;
        while idx < self.embeddings.len()
            invariant
                idx <= self.embeddings.len(),
                ids@ == empty_slots(self.slots().take(idx as int)),
            decreases self.embeddings.len() - idx,
        {
            assert(self.slots().take(idx + 1).drop_last() =~= self.slots().take(idx as int));
            if self.embeddings[idx].len() == 0 {
                ids.push(idx);
            }
            idx = idx + 1;
        }
        assert(self.slots().take(idx as int) =~= self.slots());
        ids
    }

    /// Whether every slot has its embedding.
    pub fn complete(&self) -> (r: bool)
        ensures
            r == all_filled(self.slots()),
    {
        let mut idx: usize = 0;
        while idx < self.embeddings.len()
            invariant
                idx <= self.embeddings.len(),
                forall|j: int| 0 <= j < idx ==> (#[trigger] self.slots()[j]).len() > 0,
            decreases self.embeddings.len() - idx,
        {
            if self.embeddings[idx].len() == 0 {
                assert(self.slots()[idx as int].len() == 0);
                return false;
            }
            idx = idx + 1;
        }
        true
    }

    /// Reuses cached embeddings: every span whose digest the cache knows
    /// takes the cached vector, the other slots stay as they are.
    pub fn fill_known(&mut self, known: &Vec<KnownEmbedding>)
        requires
            old(self).wf(),
        ensures
            final(self).wf(),
            final(self).details == old(self).details,
            final(self).documents == old(self).documents,
            final(self).slots() == fill_from_cache(old(self).slots(), old(self).shas(), known@),
    {
        let ghost target = fill_from_cache(self.slots(), self.shas(), known@);
        let mut idx: usize = 0;
        while idx < self.documents.len()
            invariant
                idx <= self.documents.len(),
                self.wf(),
                self.details == old(self).details,
                self.documents == old(self).documents,
                target == fill_from_cache(old(self).slots(), old(self).shas(), known@),
                self.slots().len() == target.len(),
                forall|j: int| 0 <= j < idx ==> #[trigger] self.slots()[j] == target[j],
                forall|j: int|
                    idx <= j < self.slots().len() ==> #[trigger] self.slots()[j] == old(
                        self,
                    ).slots()[j],
            decreases self.documents.len() - idx,
        {
            match find_known(known, &self.documents[idx].sha) {
                Some(j) => {
                    let embedding = known[j].embedding.clone();
                    assert(embedding@ =~= known[j as int].embedding@);
                    self.set_embedding(idx, embedding);
                },
                None => {},
            }
            idx = idx + 1;
        }
        assert(self.slots() =~= target);
    }

    /// Puts an embedding into a slot.
    pub fn set_embedding(&mut self, idx: usize, embedding: Embedding)
        requires
            old(self).wf(),
            idx < old(self).embeddings.len(),
        ensures
            final(self).wf(),
            final(self).details == old(self).details,
            final(self).documents == old(self).documents,
            final(self).slots() == old(self).slots().update(idx as int, embedding@),
    {
        self.embeddings[idx] = embedding;
        assert(self.slots() =~= old(self).slots().update(idx as int, embedding@));
    }
}

} // verus!
