//! Embedding vectors and the capability that produces them.

use vstd::prelude::*;

verus! {

/// An embedding vector. Each component is the IEEE-754 bit pattern of a
/// single-precision number; the pipeline moves vectors about and never
/// computes with them.
pub type Embedding = Vec<u32>;

/// The bit pattern of the single-precision number nearest to 0.32.
pub const STAND_IN_COMPONENT: u32 = 0x3EA3_D70A;

/// The length of the vectors that the stand-in providers hand out.
pub const STAND_IN_DIMENSION: usize = 5;

/// Why a provider gave no vectors.
#[derive(Debug, Clone, Copy, PartialEq, Eq, Structural)]
pub enum ProviderError {
    Unavailable,
}

/// Turns texts into vectors, one per text. Implementations are free in what
/// they return; the pipeline checks every answer before using it.
pub trait EmbeddingProvider {
    fn embed(&self, spans: Vec<String>) -> Result<Vec<Embedding>, ProviderError>;
}

/// The vector that the stand-in providers give for every text.
pub open spec fn stand_in_vector() -> Seq<u32> {
    Seq::new(STAND_IN_DIMENSION as nat, |i: int| STAND_IN_COMPONENT)
}

/// One stand-in vector per text.
pub fn stand_in_embeddings(count: usize) -> (r: Vec<Embedding>)
    ensures
        r.len() == count,
        forall|i: int| 0 <= i < count ==> (#[trigger] r[i])@ == stand_in_vector(),
{
    let mut embeddings: Vec<Embedding> = Vec::new();
    let mut i: usize = 0;
    while i < count
        invariant
            i <= count,
            embeddings.len() == i,
            forall|j: int| 0 <= j < i ==> (#[trigger] embeddings[j])@ == stand_in_vector(),
        decreases count - i,
    {
        let mut v: Vec<u32> = Vec::new();
        let mut k: usize = 0;
        while k < STAND_IN_DIMENSION
            invariant
                k <= STAND_IN_DIMENSION,
                v.len() == k,
                forall|j: int| 0 <= j < k ==> v[j] == STAND_IN_COMPONENT,
            decreases STAND_IN_DIMENSION - k,
        {
            v.push(STAND_IN_COMPONENT);
            k = k + 1;
        }
        assert(v@ =~= stand_in_vector());
        embeddings.push(v);
        i = i + 1;
    }
    embeddings
}

/// A provider that answers every text with the same constant vector.
pub struct DummyEmbeddingProvider;

impl EmbeddingProvider for DummyEmbeddingProvider {
    fn embed(&self, spans: Vec<String>) -> (r: Result<Vec<Embedding>, ProviderError>)
        ensures
            r is Ok,
            r->Ok_0.len() == spans.len(),
            forall|i: int|
                0 <= i < spans.len() ==> (#[trigger] r->Ok_0[i])@ == stand_in_vector(),
    {
        Ok(stand_in_embeddings(spans.len()))
    }
}

/// A provider for tests: it never fails and answers every text with the
/// same constant vector.
pub struct FakeEmbeddingProvider;

impl EmbeddingProvider for FakeEmbeddingProvider {
    fn embed(&self, spans: Vec<String>) -> (r: Result<Vec<Embedding>, ProviderError>)
        ensures
            r is Ok,
            r->Ok_0.len() == spans.len(),
            forall|i: int|
                0 <= i < spans.len() ==> (#[trigger] r->Ok_0[i])@ == stand_in_vector(),
    {
        Ok(stand_in_embeddings(spans.len()))
    }
}

} // verus!
