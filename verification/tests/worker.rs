use auden::embed_worker::{
    batch_fits, batch_size, collect_spans, embed_batch, scatter_embeddings, table_is_wf,
    vectors_valid, EmbedError,
};
use auden::embedding::{
    stand_in_embeddings, DummyEmbeddingProvider, Embedding, EmbeddingProvider,
    FakeEmbeddingProvider, ProviderError, STAND_IN_COMPONENT, STAND_IN_DIMENSION,
};
use auden::embedding_queue::{EmbeddingJob, EmbeddingQueue, FileFragment};
use auden::file_context::{ContextDocument, FileContext, FileDetails};

struct Failing;

impl EmbeddingProvider for Failing {
    fn embed(&self, _spans: Vec<String>) -> Result<Vec<Embedding>, ProviderError> {
        Err(ProviderError::Unavailable)
    }
}

struct Short;

impl EmbeddingProvider for Short {
    fn embed(&self, spans: Vec<String>) -> Result<Vec<Embedding>, ProviderError> {
        Ok(vec![vec![1, 2, 3, 4, 5]; spans.len().saturating_sub(1)])
    }
}

struct Numbering;

impl EmbeddingProvider for Numbering {
    fn embed(&self, spans: Vec<String>) -> Result<Vec<Embedding>, ProviderError> {
        Ok(spans.iter().map(|s| vec![s.len() as u32, 1]).collect())
    }
}

fn table() -> Vec<FileContext> {
    let mut files = Vec::new();
    for (name, spans) in [("a", 6usize), ("bb", 4usize)] {
        let mut documents = Vec::new();
        for i in 0..spans {
            documents.push(ContextDocument {
                start_byte: i,
                end_byte: i + 1,
                content: format!("{name}{}", "x".repeat(i)),
                sha: vec![i as u8],
            });
        }
        files.push(FileContext::new(
            FileDetails { path: name.to_string(), directory: "/d".to_string(), directory_id: "d".to_string() },
            documents,
        ));
    }
    files
}

#[test]
fn stand_in_providers_give_five_times_zero_point_three_two() {
    let texts = vec!["a".to_string(), "b".to_string(), "c".to_string()];
    let dummy = DummyEmbeddingProvider.embed(texts.clone()).unwrap();
    let fake = FakeEmbeddingProvider.embed(texts).unwrap();
    assert_eq!(dummy.len(), 3);
    assert_eq!(dummy, fake);
    for vector in &dummy {
        assert_eq!(vector.len(), 5);
        for bits in vector {
            assert_eq!(f32::from_bits(*bits), 0.32f32);
        }
    }
    assert_eq!(STAND_IN_DIMENSION, 5);
    assert_eq!(f32::from_bits(STAND_IN_COMPONENT), 0.32f32);
    assert!(stand_in_embeddings(0).is_empty());
    assert!(FakeEmbeddingProvider.embed(vec![]).unwrap().is_empty());
}

#[test]
fn texts_are_gathered_in_batch_order() {
    let files = table();
    let batch = vec![
        FileFragment { file: 1, embeddable_ids: vec![3, 0] },
        FileFragment { file: 0, embeddable_ids: vec![2] },
    ];
    assert_eq!(collect_spans(&batch, &files), vec!["bbxxx", "bb", "axx"]);
    assert_eq!(collect_spans(&vec![], &files), Vec::<String>::new());
}

#[test]
fn vectors_go_to_their_slots_in_order() {
    let mut files = table();
    let batch = vec![
        FileFragment { file: 0, embeddable_ids: vec![0, 1, 2, 3, 4, 5] },
        FileFragment { file: 1, embeddable_ids: vec![0, 1, 2] },
    ];
    let vectors: Vec<Embedding> = (0..9u32).map(|i| vec![i, 100 + i]).collect();
    let finished = scatter_embeddings(&batch, &mut files, &vectors, 2).unwrap();
    assert_eq!(finished, vec![0]);
    assert_eq!(files[0].embeddings, vectors[0..6].to_vec());
    assert_eq!(files[1].embeddings, vec![vec![6, 106], vec![7, 107], vec![8, 108], vec![]]);
    assert!(files[0].complete());
    assert!(!files[1].complete());
    assert_eq!(files[1].document_ids(), vec![3]);
    assert_eq!(files[0].documents.len(), files[0].embeddings.len());
    assert_eq!(files[1].documents.len(), files[1].embeddings.len());
}

#[test]
fn a_file_finished_by_two_fragments_is_published_when_complete() {
    let mut files = table();
    let batch = vec![
        FileFragment { file: 1, embeddable_ids: vec![0, 1] },
        FileFragment { file: 1, embeddable_ids: vec![2, 3] },
        FileFragment { file: 1, embeddable_ids: vec![0] },
    ];
    let vectors: Vec<Embedding> = (1..6u32).map(|i| vec![i]).collect();
    let finished = scatter_embeddings(&batch, &mut files, &vectors, 1).unwrap();
    assert_eq!(finished, vec![1, 1]);
    assert_eq!(files[1].embeddings, vec![vec![5], vec![2], vec![3], vec![4]]);
}

#[test]
fn wrong_number_of_vectors_writes_nothing() {
    let mut files = table();
    let before = files.clone();
    let batch = vec![FileFragment { file: 0, embeddable_ids: vec![0, 1] }];
    assert_eq!(
        scatter_embeddings(&batch, &mut files, &vec![vec![1]], 1),
        Err(EmbedError::CountMismatch)
    );
    assert_eq!(
        scatter_embeddings(&batch, &mut files, &vec![vec![1], vec![2], vec![3]], 1),
        Err(EmbedError::CountMismatch)
    );
    assert_eq!(files, before);
}

#[test]
fn vectors_of_wrong_length_write_nothing() {
    let mut files = table();
    let before = files.clone();
    let batch = vec![FileFragment { file: 0, embeddable_ids: vec![0, 1] }];
    assert_eq!(
        scatter_embeddings(&batch, &mut files, &vec![vec![1, 2], vec![3]], 2),
        Err(EmbedError::DimensionMismatch)
    );
    assert_eq!(
        scatter_embeddings(&batch, &mut files, &vec![vec![], vec![]], 0),
        Err(EmbedError::DimensionMismatch)
    );
    assert_eq!(files, before);
    assert!(vectors_valid(&vec![vec![1, 2], vec![3, 4]], 2));
    assert!(!vectors_valid(&vec![vec![1, 2], vec![3, 4]], 3));
    assert!(!vectors_valid(&vec![vec![]], 0));
    assert!(vectors_valid(&vec![], 7));
}

#[test]
fn batch_size_counts_slots() {
    let batch = vec![
        FileFragment { file: 0, embeddable_ids: vec![0, 1] },
        FileFragment { file: 1, embeddable_ids: vec![] },
        FileFragment { file: 1, embeddable_ids: vec![3] },
    ];
    assert_eq!(batch_size(&batch), Some(3));
    assert_eq!(batch_size(&vec![]), Some(0));
}

#[test]
fn fit_is_checked_against_the_table() {
    let files = table();
    assert!(table_is_wf(&files));
    assert!(batch_fits(&vec![FileFragment { file: 1, embeddable_ids: vec![3] }], &files));
    assert!(!batch_fits(&vec![FileFragment { file: 1, embeddable_ids: vec![4] }], &files));
    assert!(!batch_fits(&vec![FileFragment { file: 2, embeddable_ids: vec![] }], &files));
    assert!(batch_fits(&vec![], &files));
    let mut broken = table();
    broken[0].embeddings.pop();
    assert!(!table_is_wf(&broken));
}

#[test]
fn a_round_with_the_fake_provider_fills_the_batch() {
    let mut files = table();
    let mut queue = EmbeddingQueue::new();
    assert!(queue.queue_job(EmbeddingJob::Embed { file: 0 }, &files).is_empty());
    let batches = queue.queue_job(EmbeddingJob::Embed { file: 1 }, &files);
    assert_eq!(batches.len(), 1);
    let finished = embed_batch(&FakeEmbeddingProvider, &batches[0], &mut files, 5).unwrap();
    assert_eq!(finished, vec![0, 1]);
    for file in &files {
        assert!(file.complete());
        for slot in &file.embeddings {
            assert_eq!(slot, &vec![STAND_IN_COMPONENT; 5]);
        }
    }
}

#[test]
fn each_text_gets_the_vector_made_for_it() {
    let mut files = table();
    let batch = vec![
        FileFragment { file: 1, embeddable_ids: vec![2] },
        FileFragment { file: 0, embeddable_ids: vec![0, 4] },
    ];
    let finished = embed_batch(&Numbering, &batch, &mut files, 2).unwrap();
    assert!(finished.is_empty());
    assert_eq!(files[1].embeddings[2], vec![4, 1]);
    assert_eq!(files[0].embeddings[0], vec![1, 1]);
    assert_eq!(files[0].embeddings[4], vec![5, 1]);
    assert_eq!(files[0].document_ids(), vec![1, 2, 3, 5]);
}

#[test]
fn a_failing_provider_leaves_the_files_as_they_were() {
    let mut files = table();
    let before = files.clone();
    let batch = vec![FileFragment { file: 0, embeddable_ids: vec![0, 1] }];
    assert_eq!(embed_batch(&Failing, &batch, &mut files, 5), Err(EmbedError::ProviderFailed));
    assert_eq!(embed_batch(&Short, &batch, &mut files, 5), Err(EmbedError::CountMismatch));
    assert_eq!(
        embed_batch(&FakeEmbeddingProvider, &batch, &mut files, 4),
        Err(EmbedError::DimensionMismatch)
    );
    assert_eq!(files, before);
}
