use auden::db::StoreCommand;
use auden::directory_state::IndexingStatus;
use auden::embed_worker::EmbedError;
use auden::embedding::{EmbeddingProvider, FakeEmbeddingProvider, ProviderError};
use auden::file_context::KnownEmbedding;
use auden::parsers::rust::rust_strategy;
use auden::parsers::strategy::ParseError;
use auden::pipeline::Pipeline;
use auden::semantic_index::StartError;
use auden::walk::{ParseJob, WalkEntry};

const TWO_SPANS: &str = "struct A {}\n\nimpl A { fn x(){} }";

fn source(spans: usize) -> String {
    (0..spans).map(|i| format!("struct S{i} {{}}\n")).collect()
}

fn job(path: &str) -> ParseJob {
    ParseJob { path: path.to_string(), strategy: rust_strategy() }
}

fn walked(paths: &[&str]) -> Vec<WalkEntry> {
    paths
        .iter()
        .map(|path| WalkEntry {
            path: path.to_string(),
            is_file: true,
            is_symlink: false,
            extension: Some("rs".to_string()),
        })
        .collect()
}

fn indexing(paths: &[&str]) -> Pipeline {
    let mut pipeline = Pipeline::new();
    let plan = pipeline.directories.index_directory(
        "/d".to_string(),
        "d1".to_string(),
        &vec![],
        &walked(paths),
    );
    assert_eq!(plan.jobs.len(), paths.len());
    pipeline
}

#[test]
fn one_file_goes_from_disk_to_the_store() {
    let mut pipeline = indexing(&["/d/a.rs"]);
    let started = pipeline.file_read("/d", &job("/d/a.rs"), TWO_SPANS, &vec![]).unwrap();
    assert_eq!(started.file, 0);
    assert!(started.batches.is_empty());
    assert!(!started.notify);
    assert_eq!(
        pipeline.directories.get_status("/d"),
        IndexingStatus::Indexing { jobs_outstanding: 1 }
    );

    let batch = pipeline.flush();
    let spans = pipeline.spans(&batch).unwrap();
    assert_eq!(spans.len(), 2);
    assert!(spans[0].contains("struct A {}"));
    assert!(spans[1].contains("impl A"));
    let answer = FakeEmbeddingProvider.embed(spans);
    let embedded = pipeline.batch_embedded(&batch, answer, 5);
    assert_eq!(embedded.result, Ok(vec![0]));
    assert!(embedded.dropped.is_empty());
    assert!(embedded.notify.is_empty());
    assert_eq!(
        pipeline.directories.get_status("/d"),
        IndexingStatus::Indexing { jobs_outstanding: 1 }
    );

    let commands = pipeline.write_commands(0, 5).unwrap().unwrap();
    assert_eq!(commands.len(), 4);
    assert_eq!(commands[0], StoreCommand::DeleteFileAndSpans { path: "/d/a.rs".to_string() });
    assert_eq!(
        commands[1],
        StoreCommand::CreateFile { path: "/d/a.rs".to_string(), directory_id: "d1".to_string() }
    );
    match (&commands[2], &commands[3]) {
        (StoreCommand::CreateSpan { span: first }, StoreCommand::CreateSpan { span: second }) => {
            assert_eq!((first.start_byte, first.end_byte), (0, 11));
            assert_eq!((second.start_byte, second.end_byte), (13, 32));
            assert_eq!(first.embedding.len(), 5);
        }
        other => panic!("unexpected commands {other:?}"),
    }
    assert!(pipeline.write_commands(1, 5).is_none());

    assert_eq!(pipeline.file_written(0), Some("/d".to_string()));
    assert_eq!(pipeline.directories.get_status("/d"), IndexingStatus::Indexed);
    assert_eq!(pipeline.file_written(0), None);
}

#[test]
fn waiters_are_woken_when_the_last_file_is_done() {
    let mut pipeline = indexing(&["/d/a.rs", "/d/b.rs"]);
    pipeline.file_read("/d", &job("/d/a.rs"), &source(6), &vec![]).unwrap();
    let started = pipeline.file_read("/d", &job("/d/b.rs"), &source(4), &vec![]).unwrap();
    assert_eq!(started.batches.len(), 1);
    assert_eq!(pipeline.spans(&started.batches[0]).unwrap().len(), 10);
    assert_eq!(
        pipeline.directories.get_status("/d"),
        IndexingStatus::Indexing { jobs_outstanding: 2 }
    );
    let answer = FakeEmbeddingProvider.embed(pipeline.spans(&started.batches[0]).unwrap());
    let embedded = pipeline.batch_embedded(&started.batches[0], answer, 5);
    assert_eq!(embedded.result, Ok(vec![0, 1]));
    assert_eq!(pipeline.file_written(1), None);
    assert_eq!(
        pipeline.directories.get_status("/d"),
        IndexingStatus::Indexing { jobs_outstanding: 1 }
    );
    assert_eq!(pipeline.file_written(0), Some("/d".to_string()));
    assert_eq!(pipeline.directories.get_status("/d"), IndexingStatus::Indexed);
}

#[test]
fn a_file_without_spans_is_counted_and_counted_off() {
    let mut pipeline = indexing(&["/d/empty.rs"]);
    let started = pipeline.file_read("/d", &job("/d/empty.rs"), "fn main() {}", &vec![]).unwrap();
    assert!(started.batches.is_empty());
    assert!(started.notify);
    assert_eq!(pipeline.directories.get_status("/d"), IndexingStatus::Indexed);
    assert_eq!(pipeline.table.holders_of(0), Some(0));
    assert!(pipeline.flush().is_empty());
    assert_eq!(pipeline.write_commands(0, 5).unwrap().unwrap().len(), 2);
}

#[test]
fn an_unchanged_file_is_not_embedded_again() {
    let mut first = indexing(&["/d/a.rs"]);
    first.file_read("/d", &job("/d/a.rs"), TWO_SPANS, &vec![]).unwrap();
    let batch = first.flush();
    let answer = FakeEmbeddingProvider.embed(first.spans(&batch).unwrap());
    first.batch_embedded(&batch, answer, 5);
    let written = first.write_commands(0, 5).unwrap().unwrap();
    let known: Vec<KnownEmbedding> = written
        .iter()
        .filter_map(|command| match command {
            StoreCommand::CreateSpan { span } => Some(KnownEmbedding {
                sha: span.sha.clone(),
                embedding: span.embedding.clone(),
            }),
            _ => None,
        })
        .collect();
    assert_eq!(known.len(), 2);

    let mut second = indexing(&["/d/a.rs"]);
    let started = second.file_read("/d", &job("/d/a.rs"), TWO_SPANS, &known).unwrap();
    assert!(started.batches.is_empty());
    assert!(started.notify);
    assert!(second.flush().is_empty());
    assert_eq!(second.directories.get_status("/d"), IndexingStatus::Indexed);
    assert_eq!(second.write_commands(0, 5).unwrap().unwrap(), written);
}

#[test]
fn a_failed_embed_call_counts_its_files_off() {
    let mut pipeline = indexing(&["/d/a.rs"]);
    pipeline.file_read("/d", &job("/d/a.rs"), TWO_SPANS, &vec![]).unwrap();
    let batch = pipeline.flush();
    let embedded = pipeline.batch_embedded(&batch, Err(ProviderError::Unavailable), 5);
    assert_eq!(embedded.result, Err(EmbedError::ProviderFailed));
    assert_eq!(embedded.dropped, vec![0]);
    assert_eq!(embedded.notify, vec!["/d".to_string()]);
    assert_eq!(pipeline.directories.get_status("/d"), IndexingStatus::Indexed);
    assert!(pipeline.write_commands(0, 5).unwrap().is_err());
}

#[test]
fn a_file_that_fails_to_parse_changes_nothing() {
    let mut pipeline = indexing(&["/d/a.rs"]);
    let mut broken = job("/d/a.rs");
    broken.strategy = auden::parsers::strategy::ParsingStrategy::TreeSitter {
        language: "rust".to_string(),
        query: "(struct_item".to_string(),
    };
    assert_eq!(
        pipeline.file_read("/d", &broken, TWO_SPANS, &vec![]),
        Err(StartError::Parse(ParseError::InvalidQuery))
    );
    assert_eq!(
        pipeline.file_read("/other", &job("/other/a.rs"), TWO_SPANS, &vec![]),
        Err(StartError::NotIndexed)
    );
    assert_eq!(pipeline.table.len(), 0);
    assert_eq!(pipeline.directories.get_status("/d"), IndexingStatus::Indexed);
}

#[test]
fn directories_with_the_same_file_names_stay_apart() {
    let mut pipeline = Pipeline::new();
    pipeline.directories.index_directory(
        "/d1".to_string(),
        "one".to_string(),
        &vec![],
        &walked(&["/d1/a.rs"]),
    );
    pipeline.directories.index_directory(
        "/d2".to_string(),
        "two".to_string(),
        &vec![],
        &walked(&["/d2/a.rs"]),
    );
    pipeline.file_read("/d1", &job("/d1/a.rs"), TWO_SPANS, &vec![]).unwrap();
    pipeline.file_read("/d2", &job("/d2/a.rs"), TWO_SPANS, &vec![]).unwrap();
    let batch = pipeline.flush();
    let answer = FakeEmbeddingProvider.embed(pipeline.spans(&batch).unwrap());
    assert_eq!(pipeline.batch_embedded(&batch, answer, 5).result, Ok(vec![0, 1]));
    let first = pipeline.write_commands(0, 5).unwrap().unwrap();
    let second = pipeline.write_commands(1, 5).unwrap().unwrap();
    assert_eq!(
        first[1],
        StoreCommand::CreateFile { path: "/d1/a.rs".to_string(), directory_id: "one".to_string() }
    );
    assert_eq!(
        second[1],
        StoreCommand::CreateFile { path: "/d2/a.rs".to_string(), directory_id: "two".to_string() }
    );
    assert_eq!(pipeline.file_written(1), Some("/d2".to_string()));
    assert_eq!(
        pipeline.directories.get_status("/d1"),
        IndexingStatus::Indexing { jobs_outstanding: 1 }
    );
    assert_eq!(pipeline.file_written(0), Some("/d1".to_string()));
}
