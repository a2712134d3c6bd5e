use rag_pipeline::chunker::{document_splitter, split, split_text};
use rag_pipeline::document::{title_from_path, DocumentReader};
use rag_pipeline::RagError;

#[test]
fn exact_chunking() {
    let chunks = split_text("ABCDEFGHIJ", 4, 1).unwrap();
    assert_eq!(chunks, vec!["ABCD", "DEFG", "GHIJ"]);
}

#[test]
fn single_short_document() {
    let chunks = split_text("abc", 10, 2).unwrap();
    assert_eq!(chunks, vec!["abc"]);
}

#[test]
fn empty_document_yields_no_chunks() {
    let chunks = split_text("", 4, 1).unwrap();
    assert!(chunks.is_empty());
}

#[test]
fn chunk_count_matches_ceiling_formula() {
    let text: String = std::iter::repeat('x').take(100).collect();
    let chunks = split_text(&text, 10, 3).unwrap();
    // ceil((100 - 3) / (10 - 3)) = ceil(97 / 7) = 14
    assert_eq!(chunks.len(), 14);
}

#[test]
fn aligned_document_has_no_short_tail() {
    let chunks = split_text("abcdef", 2, 0).unwrap();
    assert_eq!(chunks, vec!["ab", "cd", "ef"]);
}

#[test]
fn multibyte_characters_are_never_split() {
    let chunks = split_text("αβγδε", 2, 0).unwrap();
    assert_eq!(chunks, vec!["αβ", "γδ", "ε"]);
}

#[test]
fn zero_chunk_size_is_invalid() {
    let r = split_text("abc", 0, 0);
    assert!(matches!(r, Err(RagError::InvalidConfig)));
}

#[test]
fn overlap_at_least_chunk_size_is_invalid() {
    let r = split_text("abc", 3, 3);
    assert!(matches!(r, Err(RagError::InvalidConfig)));
    let r = document_splitter(&[], 2, 5);
    assert!(matches!(r, Err(RagError::InvalidConfig)));
}

#[test]
fn splitter_tags_chunks_with_titles_and_ids() {
    let docs = vec![
        DocumentReader {
            title: "first".to_string(),
            contents: "ABCDEFGHIJ".to_string(),
        },
        DocumentReader {
            title: "second".to_string(),
            contents: "xyz".to_string(),
        },
    ];
    let (chunks, titles, ids) = document_splitter(&docs, 4, 1).unwrap();
    assert_eq!(chunks, vec!["ABCD", "DEFG", "GHIJ", "xyz"]);
    assert_eq!(titles, vec!["first", "first", "first", "second"]);
    assert_eq!(ids.len(), 4);
    for id in &ids {
        assert_eq!(id.chars().count(), 36);
    }
    assert_ne!(ids[0], ids[1]);
}

#[test]
fn split_tags_each_window_with_title_and_fresh_id() {
    let doc = DocumentReader {
        title: "brief".to_string(),
        contents: "ABCDEFGHIJ".to_string(),
    };
    let chunks = split(&doc, 4, 1).unwrap();
    let contents: Vec<&str> = chunks.iter().map(|c| c.content.as_str()).collect();
    assert_eq!(contents, vec!["ABCD", "DEFG", "GHIJ"]);
    for chunk in &chunks {
        assert_eq!(chunk.title, "brief");
        assert_eq!(chunk.id.chars().count(), 36);
    }
    assert_ne!(chunks[0].id, chunks[1].id);
    assert!(matches!(split(&doc, 4, 4), Err(RagError::InvalidConfig)));
}

#[test]
fn title_is_the_underscored_file_stem() {
    assert_eq!(title_from_path("docs/client brief 1.pdf"), "client_brief_1");
    assert_eq!(title_from_path("report.pdf"), "report");
    assert_eq!(title_from_path("a/b/notes"), "notes");
    assert_eq!(title_from_path("archive/.hidden"), "");
    assert_eq!(title_from_path("dir/"), "");
}
