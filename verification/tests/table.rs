use auden::embed_worker::EmbedError;
use auden::embedding::{Embedding, ProviderError};
use auden::embedding_queue::FileFragment;
use auden::file_context::{ContextDocument, FileContext, FileDetails};
use auden::file_table::{BatchOutcome, FileTable};

fn spans(path: &str, n: usize) -> FileContext {
    let mut documents = Vec::new();
    for i in 0..n {
        documents.push(ContextDocument {
            start_byte: 2 * i,
            end_byte: 2 * i + 1,
            content: format!("{path}:{i}"),
            sha: vec![i as u8],
        });
    }
    FileContext::new(
        FileDetails {
            path: path.to_string(),
            directory: "/d".to_string(),
            directory_id: "d".to_string(),
        },
        documents,
    )
}

fn vectors(n: usize) -> Vec<Embedding> {
    (0..n as u32).map(|i| vec![i + 1, 7]).collect()
}

#[test]
fn a_new_table_is_empty() {
    let table = FileTable::new();
    assert_eq!(table.len(), 0);
    assert!(table.file(0).is_none());
    assert!(table.holders_of(0).is_none());
}

#[test]
fn a_file_is_held_by_each_of_its_fragments() {
    let mut table = FileTable::new();
    let first = table.add_file(spans("a", 3));
    assert_eq!(first.file, 0);
    assert!(first.batches.is_empty());
    assert!(!first.dropped);
    assert_eq!(table.holders_of(0), Some(1));
    let second = table.add_file(spans("b", 25));
    assert_eq!(second.file, 1);
    assert_eq!(second.batches.len(), 2);
    assert_eq!(table.holders_of(1), Some(3));
    assert_eq!(table.holders_of(0), Some(1));
    let third = table.add_file(spans("c", 2));
    assert_eq!(third.batches.len(), 1);
    assert_eq!(
        third.batches[0],
        vec![
            FileFragment { file: 1, embeddable_ids: vec![17, 18, 19, 20, 21, 22, 23, 24] },
            FileFragment { file: 2, embeddable_ids: vec![0, 1] },
        ]
    );
    assert_eq!(table.holders_of(2), Some(1));
    assert!(table.flush().is_empty());
    assert_eq!(table.len(), 3);
    assert_eq!(table.file(1).unwrap().details.path, "b");
}

#[test]
fn a_file_without_empty_slots_leaves_at_once() {
    let mut table = FileTable::new();
    let empty = table.add_file(spans("none", 0));
    assert!(empty.dropped);
    assert!(empty.batches.is_empty());
    assert_eq!(table.holders_of(0), Some(0));
    let mut cached = spans("cached", 2);
    cached.set_embedding(0, vec![1]);
    cached.set_embedding(1, vec![1]);
    let out = table.add_file(cached);
    assert!(out.dropped);
    assert!(table.flush().is_empty());
}

#[test]
fn a_completed_file_stays_until_it_is_written() {
    let mut table = FileTable::new();
    table.add_file(spans("a", 6));
    let out = table.add_file(spans("b", 4));
    assert_eq!(out.batches.len(), 1);
    let batch = &out.batches[0];
    assert_eq!(table.spans(batch).unwrap().len(), 10);
    let outcome = table.batch_embedded(batch, Ok(vectors(10)), 2);
    assert_eq!(outcome, BatchOutcome { result: Ok(vec![0, 1]), dropped: vec![] });
    assert_eq!(table.holders_of(0), Some(1));
    assert_eq!(table.holders_of(1), Some(1));
    assert!(table.file(0).unwrap().complete());
    assert_eq!(table.file(1).unwrap().embeddings[3], vec![10, 7]);
    assert!(table.file_written(0));
    assert_eq!(table.holders_of(0), Some(0));
    assert!(!table.file_written(0));
    assert!(table.file_written(1));
    assert!(!table.file_written(9));
}

#[test]
fn a_long_file_is_published_by_its_last_batch() {
    let mut table = FileTable::new();
    let out = table.add_file(spans("long", 12));
    assert_eq!(out.batches.len(), 1);
    assert_eq!(table.holders_of(0), Some(2));
    let first = table.batch_embedded(&out.batches[0], Ok(vectors(10)), 2);
    assert_eq!(first, BatchOutcome { result: Ok(vec![]), dropped: vec![] });
    assert_eq!(table.holders_of(0), Some(1));
    let rest = table.flush();
    assert_eq!(rest, vec![FileFragment { file: 0, embeddable_ids: vec![10, 11] }]);
    let second = table.batch_embedded(&rest, Ok(vectors(2)), 2);
    assert_eq!(second, BatchOutcome { result: Ok(vec![0]), dropped: vec![] });
    assert_eq!(table.holders_of(0), Some(1));
    assert!(table.file_written(0));
}

#[test]
fn a_failed_batch_lets_its_files_go() {
    let mut table = FileTable::new();
    table.add_file(spans("a", 6));
    let out = table.add_file(spans("b", 4));
    let batch = &out.batches[0];
    let outcome = table.batch_embedded(batch, Err(ProviderError::Unavailable), 2);
    assert_eq!(
        outcome,
        BatchOutcome { result: Err(EmbedError::ProviderFailed), dropped: vec![0, 1] }
    );
    assert!(!table.file(0).unwrap().complete());
    assert_eq!(table.file(0).unwrap().document_ids().len(), 6);
    assert_eq!(table.holders_of(0), Some(0));
}

#[test]
fn a_refused_answer_writes_nothing_and_lets_go() {
    let mut table = FileTable::new();
    let out = table.add_file(spans("a", 10));
    let short = table.batch_embedded(&out.batches[0], Ok(vectors(9)), 2);
    assert_eq!(short, BatchOutcome { result: Err(EmbedError::CountMismatch), dropped: vec![0] });
    let out = table.add_file(spans("b", 10));
    let wide = table.batch_embedded(&out.batches[0], Ok(vectors(10)), 3);
    assert_eq!(wide, BatchOutcome { result: Err(EmbedError::DimensionMismatch), dropped: vec![1] });
    assert_eq!(table.file(1).unwrap().document_ids().len(), 10);
}

#[test]
fn a_batch_of_another_table_changes_nothing() {
    let mut table = FileTable::new();
    table.add_file(spans("a", 3));
    let stray = vec![FileFragment { file: 4, embeddable_ids: vec![0] }];
    assert!(table.spans(&stray).is_none());
    let outcome = table.batch_embedded(&stray, Ok(vectors(1)), 2);
    assert_eq!(outcome, BatchOutcome { result: Err(EmbedError::UnknownSlot), dropped: vec![] });
    let beyond = vec![FileFragment { file: 0, embeddable_ids: vec![3] }];
    let outcome = table.batch_embedded(&beyond, Ok(vectors(1)), 2);
    assert_eq!(outcome, BatchOutcome { result: Err(EmbedError::UnknownSlot), dropped: vec![] });
    assert_eq!(table.holders_of(0), Some(1));
    assert_eq!(table.file(0).unwrap().document_ids(), vec![0, 1, 2]);
}
