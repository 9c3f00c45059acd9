use auden::embedding_queue::{BatchTimer, EmbeddingJob, EmbeddingQueue, FileFragment, BATCH_SPANS};
use auden::file_context::{ContextDocument, FileContext, FileDetails, KnownEmbedding};

fn file_with_spans(path: &str, spans: usize) -> FileContext {
    let mut documents = Vec::new();
    for i in 0..spans {
        documents.push(ContextDocument {
            start_byte: i * 10,
            end_byte: i * 10 + 5,
            content: format!("{path}#{i}"),
            sha: vec![i as u8, spans as u8],
        });
    }
    FileContext::new(
        FileDetails { path: path.to_string(), directory: "/d".to_string(), directory_id: "d".to_string() },
        documents,
    )
}

#[test]
fn one_slot_per_document() {
    let file = file_with_spans("a", 4);
    assert_eq!(file.documents.len(), file.embeddings.len());
    assert_eq!(file.document_ids(), vec![0, 1, 2, 3]);
    assert!(!file.complete());
}

#[test]
fn filled_slots_are_not_outstanding() {
    let mut file = file_with_spans("a", 4);
    file.set_embedding(2, vec![7, 8]);
    assert_eq!(file.documents.len(), file.embeddings.len());
    assert_eq!(file.document_ids(), vec![0, 1, 3]);
    assert!(!file.complete());
    file.set_embedding(0, vec![1, 1]);
    file.set_embedding(1, vec![1, 1]);
    file.set_embedding(3, vec![1, 1]);
    assert_eq!(file.document_ids(), Vec::<usize>::new());
    assert!(file.complete());
    assert_eq!(file.embeddings[2], vec![7, 8]);
}

#[test]
fn a_file_without_spans_is_complete_and_asks_nothing() {
    let file = file_with_spans("empty", 0);
    assert!(file.complete());
    assert!(file.document_ids().is_empty());
    let files = vec![file];
    let mut queue = EmbeddingQueue::new();
    let batches = queue.queue_job(EmbeddingJob::Embed { file: 0 }, &files);
    assert!(batches.is_empty());
    assert!(queue.pending().is_empty());
    assert_eq!(queue.queue_size(), 0);
}

#[test]
fn batch_threshold_is_ten() {
    assert_eq!(BATCH_SPANS, 10);
}

#[test]
fn six_and_four_spans_leave_in_one_batch() {
    let files = vec![file_with_spans("a", 6), file_with_spans("b", 4)];
    let mut queue = EmbeddingQueue::new();
    let first = queue.queue_job(EmbeddingJob::Embed { file: 0 }, &files);
    assert!(first.is_empty());
    assert_eq!(queue.queue_size(), 6);
    let second = queue.queue_job(EmbeddingJob::Embed { file: 1 }, &files);
    assert_eq!(
        second,
        vec![vec![
            FileFragment { file: 0, embeddable_ids: vec![0, 1, 2, 3, 4, 5] },
            FileFragment { file: 1, embeddable_ids: vec![0, 1, 2, 3] },
        ]]
    );
    assert_eq!(queue.queue_size(), 0);
    assert!(queue.pending().is_empty());
}

#[test]
fn a_long_file_is_cut_into_batches() {
    let files = vec![file_with_spans("a", 3), file_with_spans("b", 25)];
    let mut queue = EmbeddingQueue::new();
    assert!(queue.queue_job(EmbeddingJob::Embed { file: 0 }, &files).is_empty());
    let batches = queue.queue_job(EmbeddingJob::Embed { file: 1 }, &files);
    assert_eq!(
        batches,
        vec![
            vec![
                FileFragment { file: 0, embeddable_ids: vec![0, 1, 2] },
                FileFragment { file: 1, embeddable_ids: vec![0, 1, 2, 3, 4, 5, 6] },
            ],
            vec![FileFragment {
                file: 1,
                embeddable_ids: vec![7, 8, 9, 10, 11, 12, 13, 14, 15, 16]
            }],
        ]
    );
    assert_eq!(
        queue.pending(),
        &vec![FileFragment { file: 1, embeddable_ids: vec![17, 18, 19, 20, 21, 22, 23, 24] }]
    );
    assert_eq!(queue.queue_size(), 8);
}

#[test]
fn flush_sends_what_is_pending() {
    let files = vec![file_with_spans("a", 3)];
    let mut queue = EmbeddingQueue::new();
    queue.queue_job(EmbeddingJob::Embed { file: 0 }, &files);
    let batches = queue.queue_job(EmbeddingJob::Flush, &files);
    assert_eq!(batches, vec![vec![FileFragment { file: 0, embeddable_ids: vec![0, 1, 2] }]]);
    assert!(queue.pending().is_empty());
    let again = queue.queue_job(EmbeddingJob::Flush, &files);
    assert_eq!(again, vec![Vec::<FileFragment>::new()]);
    assert!(queue.flush_queue().is_empty());
}

#[test]
fn only_empty_slots_are_queued() {
    let mut file = file_with_spans("a", 5);
    file.set_embedding(1, vec![1]);
    file.set_embedding(4, vec![1]);
    let files = vec![file];
    let mut queue = EmbeddingQueue::new();
    queue.queue_job(EmbeddingJob::Embed { file: 0 }, &files);
    assert_eq!(queue.pending(), &vec![FileFragment { file: 0, embeddable_ids: vec![0, 2, 3] }]);
}

#[test]
fn cached_spans_are_not_embedded_again() {
    let mut file = file_with_spans("a", 3);
    let known = vec![
        KnownEmbedding { sha: vec![1, 3], embedding: vec![11, 12] },
        KnownEmbedding { sha: vec![0, 3], embedding: vec![21, 22] },
        KnownEmbedding { sha: vec![2, 3], embedding: vec![31, 32] },
        KnownEmbedding { sha: vec![0, 3], embedding: vec![99, 99] },
    ];
    file.fill_known(&known);
    assert_eq!(file.embeddings, vec![vec![21, 22], vec![11, 12], vec![31, 32]]);
    assert!(file.complete());
    let files = vec![file];
    let mut queue = EmbeddingQueue::new();
    assert!(queue.queue_job(EmbeddingJob::Embed { file: 0 }, &files).is_empty());
    assert!(queue.pending().is_empty());
}

#[test]
fn unknown_spans_stay_empty_after_cache() {
    let mut file = file_with_spans("a", 3);
    file.set_embedding(2, vec![5]);
    let known = vec![KnownEmbedding { sha: vec![0, 3], embedding: vec![21, 22] }];
    file.fill_known(&known);
    assert_eq!(file.embeddings, vec![vec![21, 22], vec![], vec![5]]);
    assert_eq!(file.document_ids(), vec![1]);
    assert_eq!(auden::file_context::find_known(&known, &vec![0, 3]), Some(0));
    assert_eq!(auden::file_context::find_known(&known, &vec![0, 4]), None);
    assert!(auden::file_context::bytes_equal(&vec![1, 2], &vec![1, 2]));
    assert!(!auden::file_context::bytes_equal(&vec![1, 2], &vec![1, 3]));
    assert!(!auden::file_context::bytes_equal(&vec![1, 2], &vec![1]));
}

#[test]
fn timer_flushes_once_after_new_work() {
    let mut timer = BatchTimer::new();
    assert!(!timer.timed_out());
    timer.message_forwarded();
    timer.message_forwarded();
    assert!(timer.timed_out());
    assert!(!timer.timed_out());
}
