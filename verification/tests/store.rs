use auden::db::{
    create_file_and_spans, created_id, delete_stale_files, get_or_create_directory, span_rows,
    DirectoryLookup, Span, StoreCommand, StoreError,
};
use auden::directory_state::DirectoryState;
use auden::file_context::{ContextDocument, FileContext, FileDetails};
use auden::parsers::registry::load_extensions;
use auden::walk::{
    is_hidden, is_target_dir, keep_entry, plan_walk, starts_with, strategy_for, was_walked,
    WalkEntry,
};

fn bits(values: &[f32]) -> Vec<u32> {
    values.iter().map(|v| v.to_bits()).collect()
}

fn entry(path: &str, extension: Option<&str>) -> WalkEntry {
    WalkEntry {
        path: path.to_string(),
        is_file: true,
        is_symlink: false,
        extension: extension.map(|e| e.to_string()),
    }
}

#[test]
fn test_create_spans() {
    let mut directory_state = DirectoryState::new("id0".to_string());
    directory_state.new_job();

    let test_file = FileContext {
        details: FileDetails {
            path: "/tmp/foo".to_string(),
            directory: "/tmp".to_string(),
            directory_id: directory_state.id.clone(),
        },
        documents: vec![ContextDocument {
            start_byte: 0,
            end_byte: 10,
            sha: vec![1, 2, 3],
            content: "this is a test document".to_string(),
        }],
        embeddings: vec![bits(&[0.1, 0.2, 0.3])],
    };

    let result = create_file_and_spans(&test_file, 3);
    let commands = result.unwrap();
    assert_eq!(
        commands,
        vec![
            StoreCommand::DeleteFileAndSpans { path: "/tmp/foo".to_string() },
            StoreCommand::CreateFile {
                path: "/tmp/foo".to_string(),
                directory_id: "id0".to_string()
            },
            StoreCommand::CreateSpan {
                span: Span {
                    start_byte: 0,
                    end_byte: 10,
                    sha: vec![1, 2, 3],
                    embedding: bits(&[0.1, 0.2, 0.3]),
                }
            },
        ]
    );
    assert!(directory_state.job_dropped());
}

#[test]
fn rows_follow_the_documents() {
    let file = FileContext {
        details: FileDetails { path: "/tmp/foo".to_string(), directory: "/d".to_string(), directory_id: "d".to_string() },
        documents: vec![
            ContextDocument {
                start_byte: 0,
                end_byte: 10,
                sha: vec![1, 2, 3],
                content: "one".to_string(),
            },
            ContextDocument {
                start_byte: 1,
                end_byte: 12,
                sha: vec![4, 5, 6],
                content: "two".to_string(),
            },
        ],
        embeddings: vec![bits(&[0.1, 0.2, 0.3]), bits(&[0.9, 0.9, 0.1])],
    };
    let rows = span_rows(&file, 3).unwrap();
    assert_eq!(rows.len(), 2);
    assert_eq!((rows[0].start_byte, rows[0].end_byte), (0, 10));
    assert_eq!((rows[1].start_byte, rows[1].end_byte), (1, 12));
    assert_eq!(rows[1].sha, vec![4, 5, 6]);
    assert_eq!(rows[1].embedding, bits(&[0.9, 0.9, 0.1]));
    assert_ne!(
        (rows[0].start_byte, rows[0].end_byte),
        (rows[1].start_byte, rows[1].end_byte)
    );
    for row in &rows {
        assert_eq!(row.embedding.len(), 3);
    }
    assert_eq!(span_rows(&file, 3), span_rows(&file.clone(), 3));
}

#[test]
fn unfinished_files_are_not_written() {
    let mut file = FileContext::new(
        FileDetails { path: "/tmp/foo".to_string(), directory: "/d".to_string(), directory_id: "d".to_string() },
        vec![
            ContextDocument { start_byte: 0, end_byte: 1, sha: vec![1], content: "a".to_string() },
            ContextDocument { start_byte: 2, end_byte: 3, sha: vec![2], content: "b".to_string() },
        ],
    );
    assert_eq!(span_rows(&file, 2), Err(StoreError::EmptyEmbedding));
    file.set_embedding(0, vec![1, 2]);
    assert_eq!(create_file_and_spans(&file, 2), Err(StoreError::EmptyEmbedding));
    file.set_embedding(1, vec![1, 2, 3]);
    assert_eq!(span_rows(&file, 2), Err(StoreError::DimensionMismatch));
    assert_eq!(create_file_and_spans(&file, 3), Err(StoreError::DimensionMismatch));
    file.set_embedding(1, vec![4, 5]);
    assert_eq!(create_file_and_spans(&file, 2).unwrap().len(), 4);
}

#[test]
fn a_file_without_spans_writes_no_span_rows() {
    let file = FileContext::new(
        FileDetails { path: "/tmp/none".to_string(), directory: "/d".to_string(), directory_id: "d".to_string() },
        vec![],
    );
    assert_eq!(span_rows(&file, 5), Ok(vec![]));
    assert_eq!(create_file_and_spans(&file, 5).unwrap().len(), 2);
}

#[test]
fn one_directory_row_is_the_directory() {
    assert_eq!(
        get_or_create_directory(&vec!["d7".to_string()]),
        DirectoryLookup::Existing { id: "d7".to_string() }
    );
    assert_eq!(get_or_create_directory(&vec![]), DirectoryLookup::Create);
    assert_eq!(
        get_or_create_directory(&vec!["a".to_string(), "b".to_string()]),
        DirectoryLookup::Create
    );
}

#[test]
fn an_insert_gives_the_first_row() {
    assert_eq!(
        created_id(&vec!["f1".to_string(), "f2".to_string()], StoreError::FileNotCreated),
        Ok("f1".to_string())
    );
    assert_eq!(created_id(&vec![], StoreError::FileNotCreated), Err(StoreError::FileNotCreated));
    assert_eq!(created_id(&vec![], StoreError::SpanNotCreated), Err(StoreError::SpanNotCreated));
    assert_eq!(
        created_id(&vec![], StoreError::DirectoryNotCreated),
        Err(StoreError::DirectoryNotCreated)
    );
}

#[test]
fn hidden_and_target_entries_are_skipped() {
    assert!(is_hidden(".git"));
    assert!(is_hidden("."));
    assert!(!is_hidden("src"));
    assert!(!is_hidden(""));
    assert!(!is_hidden("a.rs"));
    assert!(is_target_dir("target"));
    assert!(is_target_dir("targets.rs"));
    assert!(!is_target_dir("targe"));
    assert!(!is_target_dir("my_target"));
    assert!(keep_entry("src"));
    assert!(!keep_entry(".cargo"));
    assert!(!keep_entry("target"));
    assert!(starts_with("é€x", "é€"));
    assert!(!starts_with("é", "é€"));
    assert!(starts_with("abc", ""));
}

#[test]
fn only_registered_regular_files_are_parsed() {
    let parsers = load_extensions();
    let mut link = entry("/d/link.rs", Some("rs"));
    link.is_symlink = true;
    let mut dir = entry("/d/sub.rs", Some("rs"));
    dir.is_file = false;
    let entries = vec![
        entry("/d/a.rs", Some("rs")),
        entry("/d/notes.txt", Some("txt")),
        link,
        dir,
        entry("/d/Makefile", None),
        entry("/d/b.rs", Some("rs")),
    ];
    let plan = plan_walk(&parsers, &vec![], &entries);
    let paths: Vec<&str> = plan.jobs.iter().map(|j| j.path.as_str()).collect();
    assert_eq!(paths, vec!["/d/a.rs", "/d/b.rs"]);
    assert_eq!(plan.jobs[0].strategy, auden::parsers::rust::rust_strategy());
    assert!(strategy_for(&entries[0], &parsers).is_some());
    assert!(strategy_for(&entries[1], &parsers).is_none());
    assert!(strategy_for(&entries[2], &parsers).is_none());
    assert!(was_walked(&entries, &parsers, "/d/b.rs"));
    assert!(!was_walked(&entries, &parsers, "/d/notes.txt"));
    assert!(!was_walked(&entries, &parsers, "/d/link.rs"));
}

#[test]
fn files_that_have_gone_are_deleted() {
    let parsers = load_extensions();
    let known = vec!["/d/a.rs".to_string(), "/d/b.rs".to_string(), "/d/c.rs".to_string()];
    let entries = vec![entry("/d/c.rs", Some("rs")), entry("/d/a.rs", Some("rs"))];
    let plan = plan_walk(&parsers, &known, &entries);
    assert_eq!(plan.jobs.len(), 2);
    assert_eq!(plan.stale_paths, vec!["/d/b.rs".to_string()]);
    assert_eq!(
        delete_stale_files(&plan.stale_paths),
        vec![StoreCommand::DeleteFileAndSpans { path: "/d/b.rs".to_string() }]
    );
    assert!(delete_stale_files(&vec![]).is_empty());
}

#[test]
fn a_directory_of_text_files_has_nothing_to_parse() {
    let parsers = load_extensions();
    let entries = vec![entry("/d/a.txt", Some("txt")), entry("/d/b.txt", Some("txt"))];
    let plan = plan_walk(&parsers, &vec![], &entries);
    assert!(plan.jobs.is_empty());
    assert!(plan.stale_paths.is_empty());
    let mut index = auden::semantic_index::SemanticIndex::new();
    let plan = index.index_directory("/d".to_string(), "d".to_string(), &vec![], &entries);
    assert!(plan.jobs.is_empty());
    assert_eq!(index.get_status("/d"), auden::directory_state::IndexingStatus::Indexed);
    assert!(index.directory_state("/d").unwrap().notified);
}

#[test]
fn reindexing_unchanged_files_gives_the_same_rows() {
    let strategy = auden::parsers::rust::rust_strategy();
    let details = FileDetails { path: "/d/a.rs".to_string(), directory: "/d".to_string(), directory_id: "d".to_string() };
    let source = "struct A {}\n\nimpl A { fn x(){} }";
    let mut first =
        auden::parsers::strategy::parse_file(details.clone(), source, &strategy).unwrap();
    first.set_embedding(0, vec![1, 2]);
    first.set_embedding(1, vec![3, 4]);
    let rows = span_rows(&first, 2).unwrap();
    let known: Vec<auden::file_context::KnownEmbedding> = rows
        .iter()
        .map(|r| auden::file_context::KnownEmbedding {
            sha: r.sha.clone(),
            embedding: r.embedding.clone(),
        })
        .collect();
    let mut second = auden::parsers::strategy::parse_file(details, source, &strategy).unwrap();
    second.fill_known(&known);
    assert!(second.complete());
    assert!(second.document_ids().is_empty());
    assert_eq!(span_rows(&second, 2).unwrap(), rows);
}
