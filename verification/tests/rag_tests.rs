use rustyrag::document::RetrievedChunk;
use rustyrag::error::Error;
use rustyrag::rag::{
    build_context, build_user_prompt, embed_price_tier, estimated_tokens, first_choice, is_hybrid,
    retrieval_fetch_k, EmbedPriceTier,
};
use rustyrag::store::{payload_string, payload_usize, record_payload, retrieved_chunk, PayloadValue};

fn chunk(title: &str, idx: usize, content: &str) -> RetrievedChunk {
    RetrievedChunk { score_bits: 0.5f32.to_bits(), source_uri: format!("docs/{title}"), title: title.into(), chunk_index: idx, content: content.into() }
}

#[test]
fn context_entries_within_budget() {
    let chunks = vec![chunk("a.md", 0, "alpha"), chunk("b.md", 12, "beta")];
    let full = build_context(1000, &chunks);
    assert_eq!(full, "[source: a.md | chunk 0]\nalpha\n\n[source: b.md | chunk 12]\nbeta\n\n");
    let first_len = "[source: a.md | chunk 0]\nalpha\n\n".len();
    assert_eq!(first_len, 32);
    assert_eq!(build_context(8, &chunks), "[source: a.md | chunk 0]\nalpha\n\n");
    assert_eq!(build_context(7, &chunks), "");
    assert_eq!(build_context(usize::MAX, &chunks), full);
}

#[test]
fn prompt_and_fetch_count() {
    assert_eq!(
        build_user_prompt("CTX", "Why?"),
        "Use the context below to answer the question.\n\nContext:\nCTX\n\nQuestion:\nWhy?"
    );
    assert_eq!(retrieval_fetch_k("hybrid", 5), 15);
    assert_eq!(retrieval_fetch_k("semantic", 5), 5);
    assert!(is_hybrid("hybrid") && !is_hybrid("semantic"));
}

#[test]
fn embed_pricing() {
    assert_eq!(embed_price_tier("text-embedding-3-small"), EmbedPriceTier::Small);
    assert_eq!(embed_price_tier("text-embedding-3-large"), EmbedPriceTier::Large);
    assert_eq!(embed_price_tier("text-embedding-ada-002"), EmbedPriceTier::Ada);
    assert_eq!(embed_price_tier("nomic-embed-text"), EmbedPriceTier::Free);
    assert_eq!(embed_price_tier("my-ollama-model"), EmbedPriceTier::Free);
    assert_eq!(embed_price_tier("other"), EmbedPriceTier::Small);
    assert_eq!(estimated_tokens(0), 1);
    assert_eq!(estimated_tokens(7), 1);
    assert_eq!(estimated_tokens(4000), 1000);
}

#[test]
fn first_choice_or_error() {
    assert_eq!(first_choice(vec!["a".into(), "b".into()]).unwrap(), "a");
    match first_choice(vec![]) {
        Err(Error::Adapter { adapter, message }) => {
            assert_eq!(adapter, "openai");
            assert_eq!(message, "openai returned no choices");
        }
        _ => panic!("expected error"),
    }
}

#[test]
fn payload_round_trip() {
    let record = rustyrag::document::ChunkRecord {
        point_id: 7,
        vector_bits: vec![],
        source_id: "id".into(),
        source_uri: "docs/a.md".into(),
        title: "a.md".into(),
        chunk_index: 4,
        content: "text".into(),
        content_hash: "h".into(),
    };
    let p = record_payload(&record);
    assert_eq!(p.len(), 6);
    let c = retrieved_chunk(1.0f32.to_bits(), &p);
    assert_eq!(c.source_uri, "docs/a.md");
    assert_eq!(c.title, "a.md");
    assert_eq!(c.chunk_index, 4);
    assert_eq!(c.content, "text");
    assert_eq!(f32::from_bits(c.score_bits), 1.0);
    let odd = vec![("title".to_string(), PayloadValue::Integer(3)), ("chunk_index".to_string(), PayloadValue::Text("x".into()))];
    assert_eq!(payload_string(&odd, "title"), "");
    assert_eq!(payload_usize(&odd, "chunk_index"), 0);
    assert_eq!(payload_usize(&odd, "missing"), 0);
    let neg = vec![("chunk_index".to_string(), PayloadValue::Integer(-1))];
    assert_eq!(payload_usize(&neg, "chunk_index"), -1i64 as usize);
}
