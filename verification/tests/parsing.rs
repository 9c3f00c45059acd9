use auden::file_context::{ContextDocument, FileDetails};
use auden::languages::load_languages;
use auden::parsers::registry::{load_extensions, ExtensionRegistry, RegistryError};
use auden::parsers::rust::rust_strategy;
use auden::parsers::strategy::{
    documents_from_captures, format_prompt, get_sha, get_treesitter_language, parse_content,
    parse_file, parse_treesitter, same_text, slice_span, ParseError, ParsingStrategy,
};
use auden::parsing::FileContextParser;
use auden::treesitter::{Capture, Grammar};

const SOURCE: &str = "struct CodeContextParser {}\n\nimpl CodeContextParser {\n    pub fn parse(content: &str) -> anyhow::Result<()> {\n        todo!();\n    }\n}\n";

#[test]
fn rust_test_rust_parsing() {
    let strategy = rust_strategy();
    let content = SOURCE;
    let parsed = parse_content("/tmp/foo.rs", content, &strategy).unwrap();

    let content1 = "The below is a code snippet from the '/tmp/foo.rs' file.\n```rust\nstruct CodeContextParser {}\n```".to_string();
    let sha1 = get_sha(&content1);

    let content2 = "The below is a code snippet from the '/tmp/foo.rs' file.\n```rust\nimpl CodeContextParser {\n    pub fn parse(content: &str) -> anyhow::Result<()> {\n        todo!();\n    }\n}\n```".to_string();
    let sha2 = get_sha(&content2);
    assert_eq!(
        parsed,
        vec![
            ContextDocument { start_byte: 0, end_byte: 27, content: content1, sha: sha1 },
            ContextDocument { start_byte: 29, end_byte: 134, content: content2, sha: sha2 },
        ]
    );
}

#[test]
fn parsing_test_rust_parsing() {
    let language_registry = load_languages();
    let rust_config = language_registry.get_config_from_extension("rs").unwrap();
    let test_string = "
        struct CodeContextParser {}

        impl CodeContextParser {
            pub fn parse(content: &str) -> anyhow::Result<()> {
                todo!();
            }
        }
        ";

    let documents = FileContextParser::parse_content(test_string, rust_config).unwrap();
    let test_documents = vec![
        auden::parsing::ContextDocument {
            start_byte: 9,
            end_byte: 36,
            content: "struct CodeContextParser {}".to_string(),
        },
        auden::parsing::ContextDocument {
            start_byte: 46,
            end_byte: 183,
            content: "impl CodeContextParser {
            pub fn parse(content: &str) -> anyhow::Result<()> {
                todo!();
            }
        }"
            .to_string(),
        },
    ];

    assert_eq!(documents, test_documents);
}

#[test]
fn sha_is_the_sha256_of_the_text() {
    let expected: Vec<u8> = vec![
        186, 120, 22, 191, 143, 1, 207, 234, 65, 65, 64, 222, 93, 174, 34, 35, 176, 3, 97, 163,
        150, 23, 122, 156, 180, 16, 255, 97, 242, 0, 21, 173,
    ];
    assert_eq!(get_sha("abc"), expected);
    assert_eq!(get_sha("abc").len(), 32);
    assert_ne!(get_sha("abc"), get_sha("abd"));
    assert_ne!(get_sha("abc"), "abc".as_bytes().to_vec());
}

#[test]
fn prompt_names_file_and_language() {
    assert_eq!(
        format_prompt("a.rs", "rust", "struct A {}"),
        "The below is a code snippet from the 'a.rs' file.\n```rust\nstruct A {}\n```"
    );
}

#[test]
fn enum_items_are_spans_too() {
    let parsed = parse_content("e.rs", "enum E { A }\nfn f() {}\n", &rust_strategy()).unwrap();
    assert_eq!(parsed.len(), 1);
    assert_eq!((parsed[0].start_byte, parsed[0].end_byte), (0, 12));
}

#[test]
fn two_spans_of_a_small_file() {
    let parsed =
        parse_content("a.rs", "struct A {}\n\nimpl A { fn x(){} }", &rust_strategy()).unwrap();
    assert_eq!(parsed.len(), 2);
    assert_eq!((parsed[0].start_byte, parsed[0].end_byte), (0, 11));
    assert_eq!((parsed[1].start_byte, parsed[1].end_byte), (13, 32));
    assert!(parsed[0].start_byte < parsed[1].start_byte);
}

#[test]
fn a_text_without_items_has_no_spans() {
    let parsed = parse_content("a.rs", "fn main() {}\n", &rust_strategy()).unwrap();
    assert!(parsed.is_empty());
}

#[test]
fn unknown_language_is_refused() {
    let strategy = ParsingStrategy::TreeSitter {
        language: "cobol".to_string(),
        query: "(struct_item) @item".to_string(),
    };
    assert_eq!(parse_content("a.cob", "x", &strategy), Err(ParseError::UnsupportedLanguage));
    assert_eq!(
        parse_treesitter("x", "Rust", "(struct_item) @item", "a.rs"),
        Err(ParseError::UnsupportedLanguage)
    );
}

#[test]
fn malformed_query_is_refused() {
    assert_eq!(
        parse_treesitter("struct A {}", "rust", "(no_such_node) @item", "a.rs"),
        Err(ParseError::InvalidQuery)
    );
    assert_eq!(
        parse_treesitter("struct A {}", "rust", "(struct_item", "a.rs"),
        Err(ParseError::InvalidQuery)
    );
}

#[test]
fn a_query_that_ends_inside_a_wrong_name_is_refused() {
    assert_eq!(
        parse_treesitter("struct A {}", "rust", "(oops", "a.rs"),
        Err(ParseError::InvalidQuery)
    );
    assert_eq!(
        parse_treesitter("struct A {}", "rust", "(struct_item name: (oops", "a.rs"),
        Err(ParseError::InvalidQuery)
    );
    assert_eq!(
        parse_treesitter("struct A {}", "rust", "(struct_item) @item (#eq? @nothing", "a.rs"),
        Err(ParseError::InvalidQuery)
    );
    assert_eq!(auden::treesitter::terminated("(a)"), "(a)\n");
}

#[test]
fn parse_file_starts_with_empty_slots() {
    let details = FileDetails { path: "/tmp/foo.rs".to_string(), directory: "/tmp".to_string(), directory_id: "d1".to_string() };
    let file = parse_file(details.clone(), SOURCE, &rust_strategy()).unwrap();
    assert_eq!(file.details, details);
    assert_eq!(file.documents.len(), 2);
    assert_eq!(file.embeddings, vec![Vec::<u32>::new(), Vec::<u32>::new()]);
    assert_eq!(file.document_ids(), vec![0, 1]);
    assert!(!file.complete());
}

#[test]
fn slices_follow_character_boundaries() {
    let text = "aé€b";
    assert_eq!(slice_span(text, 0, 1), Some("a"));
    assert_eq!(slice_span(text, 1, 3), Some("é"));
    assert_eq!(slice_span(text, 1, 6), Some("é€"));
    assert_eq!(slice_span(text, 0, 7), Some("aé€b"));
    assert_eq!(slice_span(text, 1, 2), None);
    assert_eq!(slice_span(text, 2, 3), None);
    assert_eq!(slice_span(text, 3, 3), None);
    assert_eq!(slice_span(text, 4, 3), None);
    assert_eq!(slice_span(text, 0, 8), None);
    assert_eq!(slice_span(text, 9, 12), None);
}

#[test]
fn only_item_captures_become_documents() {
    let captures = vec![
        Capture { index: 1, start_byte: 0, end_byte: 3 },
        Capture { index: 0, start_byte: 4, end_byte: 7 },
        Capture { index: 0, start_byte: 0, end_byte: 3 },
    ];
    let documents = documents_from_captures("p", "rust", "abc def", &captures).unwrap();
    assert_eq!(documents.len(), 2);
    assert_eq!(documents[0].content, format_prompt("p", "rust", "def"));
    assert_eq!(documents[0].sha, get_sha(&documents[0].content));
    assert_eq!((documents[1].start_byte, documents[1].end_byte), (0, 3));
    assert_eq!(documents[1].content, format_prompt("p", "rust", "abc"));
}

#[test]
fn a_capture_outside_the_text_fails_the_file() {
    let captures = vec![
        Capture { index: 0, start_byte: 0, end_byte: 3 },
        Capture { index: 0, start_byte: 4, end_byte: 70 },
    ];
    assert_eq!(
        documents_from_captures("p", "rust", "abc def", &captures),
        Err(ParseError::InvalidRange)
    );
    let skipped = vec![Capture { index: 2, start_byte: 4, end_byte: 70 }];
    assert_eq!(documents_from_captures("p", "rust", "abc def", &skipped), Ok(vec![]));
}

#[test]
fn texts_compare_by_content() {
    assert!(same_text("rust", "rust"));
    assert!(!same_text("rust", "Rust"));
    assert!(!same_text("rust", "rus"));
    assert!(same_text("", ""));
}

#[test]
fn registry_knows_rust_sources() {
    let registry = load_extensions();
    assert_eq!(registry.get_strategy_for_extension("rs".to_string()), Ok(&rust_strategy()));
    assert_eq!(
        registry.get_strategy_for_extension("txt".to_string()),
        Err(RegistryError::StrategyNotFound)
    );
}

#[test]
fn later_registration_replaces_earlier() {
    let mut registry = ExtensionRegistry::new();
    assert_eq!(
        registry.get_strategy_for_extension("rs".to_string()),
        Err(RegistryError::StrategyNotFound)
    );
    let first = ParsingStrategy::TreeSitter { language: "rust".to_string(), query: "a".to_string() };
    let second = ParsingStrategy::TreeSitter { language: "rust".to_string(), query: "b".to_string() };
    let other = ParsingStrategy::TreeSitter { language: "c".to_string(), query: "c".to_string() };
    registry.register("rs".to_string(), first);
    registry.register("c".to_string(), other.clone());
    registry.register("rs".to_string(), second.clone());
    assert_eq!(registry.get_strategy_for_extension("rs".to_string()), Ok(&second));
    assert_eq!(registry.get_strategy_for_extension("c".to_string()), Ok(&other));
}

#[test]
fn languages_are_found_by_extension() {
    let languages = load_languages();
    let rust = languages.get_config_from_extension("rs").unwrap();
    assert_eq!(rust.name, "Rust");
    assert_eq!(rust.item_idx(), 0);
    assert!(rust.has_extension("rs"));
    assert!(!rust.has_extension("r"));
    assert!(languages.get_config_from_extension("py").is_none());
    assert_eq!(rust.get_treesitter_language(), Ok(Grammar::Rust));
    assert!(rust.query.contains("(enum_item) @item"));
    assert!(rust.query.contains("(struct_item) @item"));
    assert!(rust.query.contains("(impl_item) @item"));
}

#[test]
fn a_language_without_grammar_is_refused() {
    let mut config = load_languages().languages[0].clone();
    config.name = "Fortran".to_string();
    assert_eq!(config.get_treesitter_language(), Err(ParseError::UnsupportedLanguage));
    assert_eq!(
        FileContextParser::parse_content("struct A {}", &config),
        Err(ParseError::UnsupportedLanguage)
    );
    let mut broken = load_languages().languages[0].clone();
    broken.query = "(nothing_like_this) @item".to_string();
    assert_eq!(
        FileContextParser::parse_content("struct A {}", &broken),
        Err(ParseError::InvalidQuery)
    );
    broken.query = "(oops".to_string();
    assert_eq!(
        FileContextParser::parse_content("struct A {}", &broken),
        Err(ParseError::InvalidQuery)
    );
}

#[test]
fn the_language_registry_finds_enumerations_too() {
    let languages = load_languages();
    let rust = languages.get_config_from_extension("rs").unwrap();
    let documents =
        FileContextParser::parse_content("enum E { A }\n\nstruct S {}\n", rust).unwrap();
    assert_eq!(
        documents,
        vec![
            auden::parsing::ContextDocument {
                start_byte: 0,
                end_byte: 12,
                content: "enum E { A }".to_string(),
            },
            auden::parsing::ContextDocument {
                start_byte: 14,
                end_byte: 25,
                content: "struct S {}".to_string(),
            },
        ]
    );
}

#[test]
fn grammars_are_known_by_name() {
    assert_eq!(get_treesitter_language("rust"), Ok(Grammar::Rust));
    assert_eq!(get_treesitter_language("Rust"), Err(ParseError::UnsupportedLanguage));
    assert_eq!(get_treesitter_language(""), Err(ParseError::UnsupportedLanguage));
}

#[test]
fn parsing_twice_gives_the_same_spans_with_whole_digests() {
    let first = parse_content("/tmp/foo.rs", SOURCE, &rust_strategy()).unwrap();
    let second = parse_content("/tmp/foo.rs", SOURCE, &rust_strategy()).unwrap();
    assert_eq!(first, second);
    for document in &first {
        assert_eq!(document.sha.len(), 32);
    }
}
