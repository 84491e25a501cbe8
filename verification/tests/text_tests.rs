use rustyrag::bm25::{bm25_counts, count_term, document_frequency, holds_term, tokenize};
use rustyrag::semantic::{breakpoints_from, merge_segments, split_sentences};
use rustyrag::error::Error;
use rustyrag::stream::{classify_sse_line, normalize_base_url, ollama_stream_step, LineBuffer, SseLine};
use rustyrag::text::{decimal_string, replace, trim};

fn strings(v: &[&str]) -> Vec<String> {
    v.iter().map(|s| s.to_string()).collect()
}

#[test]
fn text_helpers() {
    assert_eq!(decimal_string(0), "0");
    assert_eq!(decimal_string(1234567), "1234567");
    assert_eq!(trim("  \t a b \n\u{3000}"), "a b");
    assert_eq!(trim(" \n "), "");
    assert_eq!(replace("aaa", "aa", "b"), "ba");
    assert_eq!(replace("x-y-z", "-", "+"), "x+y+z");
}

#[test]
fn sentences_split_after_terminals_and_paragraphs() {
    let s = split_sentences("Hello world. How are you?  Fine!\n\nNew para\nsame para");
    assert_eq!(s, strings(&["Hello world.", "How are you?", "Fine!", "New para\nsame para"]));
    assert_eq!(split_sentences("pi is 3.14 here"), strings(&["pi is 3.14 here"]));
    assert_eq!(split_sentences("one\n\n\n two"), strings(&["one", "two"]));
    assert!(split_sentences("   \n\n  ").is_empty());
    assert_eq!(split_sentences("End."), strings(&["End."]));
}

#[test]
fn segments_merge_within_size() {
    let s = strings(&["aaa", "bbb", "ccc"]);
    assert_eq!(merge_segments(&s, &vec![], 7), strings(&["aaa bbb", "ccc"]));
    assert_eq!(merge_segments(&s, &vec![1], 100), strings(&["aaa", "bbb ccc"]));
    assert_eq!(merge_segments(&s, &vec![], 2), strings(&["aaa", "bbb", "ccc"]));
    assert_eq!(merge_segments(&s, &vec![1, 1, 3], 100), strings(&["aaa", "bbb ccc"]));
    let long = strings(&["é", "é"]);
    assert_eq!(merge_segments(&long, &vec![], 4), strings(&["é", "é"]));
    assert_eq!(merge_segments(&long, &vec![], 5), strings(&["é é"]));
}

#[test]
fn breakpoints_mark_low_similarity() {
    assert_eq!(breakpoints_from(&vec![true, false, true]), vec![1, 3]);
    assert!(breakpoints_from(&vec![]).is_empty());
}

#[test]
fn tokens_are_lowercase_words() {
    assert_eq!(tokenize("How to run the Pipeline, with cargo! a"), strings(&["how", "to", "run", "the", "pipeline", "with", "cargo"]));
    assert_eq!(tokenize("é x ÉTÉ"), strings(&["é", "été"]));
}

#[test]
fn line_buffer_splits_lines() {
    let mut b = LineBuffer::new();
    b.push_text("data: a\n da");
    assert_eq!(b.next_line(), Some("data: a".to_string()));
    assert_eq!(b.next_line(), None);
    b.push_text("ta: b\r\n\n");
    assert_eq!(b.next_line(), Some("data: b".to_string()));
    assert_eq!(b.next_line(), Some("".to_string()));
    assert_eq!(b.next_line(), None);
}

#[test]
fn sse_lines() {
    assert!(matches!(classify_sse_line("data: {\"a\":1}"), SseLine::Data(d) if d == "{\"a\":1}"));
    assert!(matches!(classify_sse_line("data: [DONE]"), SseLine::Done));
    assert!(matches!(classify_sse_line(": keep-alive"), SseLine::Ignore));
    assert!(matches!(classify_sse_line("data: data: x "), SseLine::Data(d) if d == "x"));
    assert!(matches!(classify_sse_line("data:x"), SseLine::Ignore));
}

#[test]
fn base_url_normalized() {
    assert_eq!(normalize_base_url("http://localhost:11434//"), "http://localhost:11434");
    assert_eq!(normalize_base_url("http://h"), "http://h");
    assert_eq!(normalize_base_url("///"), "");
}

#[test]
fn word_tokens_split_lowercase_text() {
    assert_eq!(rustyrag::bm25::word_tokens("ab-cd e__fg"), strings(&["ab", "cd", "fg"]));
    assert!(rustyrag::bm25::word_tokens("").is_empty());
}

#[test]
fn bm25_counts_of_relevant_and_unrelated_docs() {
    let docs = strings(&["How to run the pipeline with cargo", "Unrelated weather forecast for tomorrow"]);
    let c = bm25_counts("run pipeline", &docs);
    assert_eq!(c.query_terms, strings(&["run", "pipeline"]));
    assert_eq!(c.doc_lengths, vec![7, 5]);
    assert_eq!(c.doc_freqs, vec![1, 1]);
    assert_eq!(c.term_freqs, vec![vec![1, 1], vec![0, 0]]);
}

#[test]
fn bm25_counts_repeated_terms() {
    let docs = strings(&["cargo cargo run", "run", ""]);
    let c = bm25_counts("Run run x", &docs);
    assert_eq!(c.query_terms, strings(&["run", "run"]));
    assert_eq!(c.doc_lengths, vec![3, 1, 0]);
    assert_eq!(c.doc_freqs, vec![2, 2]);
    assert_eq!(c.term_freqs, vec![vec![1, 1], vec![1, 1], vec![0, 0]]);
    let tokens = strings(&["a", "bb", "a"]);
    assert_eq!(count_term(&tokens, "a"), 2);
    assert!(holds_term(&tokens, "bb"));
    assert!(!holds_term(&tokens, "b"));
    assert_eq!(document_frequency(&vec![tokens.clone(), strings(&["c"]), tokens], "a"), 2);
}

#[test]
fn ollama_stream_steps() {
    let s = ollama_stream_step(Ok(("Hi".to_string(), false))).ok().unwrap();
    assert_eq!((s.emit, s.stop), (Some("Hi".to_string()), false));
    let s = ollama_stream_step(Ok((String::new(), true))).ok().unwrap();
    assert_eq!((s.emit, s.stop), (None, true));
    match ollama_stream_step(Err("bad json".to_string())) {
        Err(Error::Adapter { adapter, message }) => {
            assert_eq!(adapter, "ollama");
            assert_eq!(message, "stream parse error: bad json");
        }
        _ => panic!("expected error"),
    }
}
