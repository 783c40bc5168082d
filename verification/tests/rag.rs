use romhack::rag::{chunk_text, CHUNK_CHARS};
use romhack::server::chunk_payload;

#[test]
fn chunk_empty_string() {
    assert!(chunk_text("", 100).is_empty());
}

#[test]
fn chunk_short_text_is_single_chunk() {
    let chunks = chunk_text("hello world", 100);
    assert_eq!(chunks.len(), 1);
    assert_eq!(chunks[0], "hello world");
}

#[test]
fn chunk_splits_on_double_newline() {
    let text = "para one\n\npara two\n\npara three";
    let chunks = chunk_text(text, 100);
    assert_eq!(chunks.len(), 1);
}

#[test]
fn chunk_splits_when_over_limit() {
    let text = "aaaa\n\nbbbb\n\ncccc";
    let chunks = chunk_text(text, 6);
    assert!(chunks.len() > 1);
}

#[test]
fn chunk_hard_splits_long_para() {
    let long = "x".repeat(1500);
    let chunks = chunk_text(&long, 600);
    assert_eq!(chunks.len(), 3);
    for c in &chunks[..2] {
        assert_eq!(c.len(), 600);
    }
}

// ── Further cases ────────────────────────────────────────────────────────────

#[test]
fn chunk_exact_grouping() {
    let chunks = chunk_text("aaaa\n\nbbbb\n\ncccc", 10);
    assert_eq!(chunks, vec!["aaaa\n\nbbbb", "cccc"]);
}

#[test]
fn chunk_blank_text_has_no_chunk() {
    assert!(chunk_text(" \n\n\t \n\n ", CHUNK_CHARS).is_empty());
}

#[test]
fn chunk_sizes_stay_within_limit() {
    let text = format!("{}\n\nshort\n\n{}\n\nend", "y".repeat(25), "z".repeat(7));
    for c in chunk_text(&text, 10) {
        assert!(!c.is_empty());
        assert!(c.chars().count() <= 10, "chunk too long: {c:?}");
    }
}

#[test]
fn chunk_hard_split_counts_characters() {
    let chunks = chunk_text(&"é".repeat(5), 2);
    assert_eq!(chunks, vec!["éé", "éé", "é"]);
}

#[test]
fn chunk_long_paragraph_closes_open_chunk_first() {
    let chunks = chunk_text("ab\n\ncdefghij", 5);
    assert_eq!(chunks, vec!["ab", "cdefg", "hij"]);
}

#[test]
fn chunk_payload_fields() {
    let p = chunk_payload("t", "doc.md", Some("gba"));
    assert_eq!(
        p,
        vec![
            ("text".to_string(), "t".to_string()),
            ("source".to_string(), "doc.md".to_string()),
            ("platform".to_string(), "gba".to_string()),
        ]
    );
    assert_eq!(chunk_payload("t", "s", None).len(), 2);
}

#[test]
fn chunks_keep_every_non_whitespace_character() {
    let text = "alpha beta\n\n\n  gamma\n\ndelta epsilon zeta eta theta iota kappa";
    let chunks = chunk_text(text, 12);
    let joined: String = chunks.concat().chars().filter(|c| !c.is_whitespace()).collect();
    let expected: String = text.chars().filter(|c| !c.is_whitespace()).collect();
    assert_eq!(joined, expected);
}

#[test]
fn blank_text_has_no_chunk_even_with_zero_limit() {
    assert!(chunk_text("  \n\n \t", 0).is_empty());
    assert!(chunk_text("", 0).is_empty());
}
