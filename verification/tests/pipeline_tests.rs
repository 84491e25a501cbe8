use rustyrag::chunker::RecursiveChunker;
use rustyrag::config::{
    ChunkConfig, DistanceMetric, EmbedConfig, IndexConfig, ParseConfig, PipelineConfig,
    SourceConfig, StoreConfig,
};
use rustyrag::document::{number_chunks, Chunk, Document, RawDocument};
use rustyrag::error::Error;
use rustyrag::etl::{batch_ranges, build_chunk_records, embed_batches, PipelineRunner, ScanStep};
use rustyrag::parser::{is_html, is_pdf, AutoParser, ParseStep};
use rustyrag::source::{
    chunk_point_id, document_title, has_extension, hash_bytes, hash_content, is_supported_doc,
    is_yaml, make_raw_document, pdf_placeholder, sort_by_uri, FilesystemSource,
};
use rustyrag::state::IndexState;
use sha2::{Digest, Sha256};

fn config(max_chunks: usize, checkpoint: bool, chunk_adapter: &str) -> PipelineConfig {
    PipelineConfig {
        version: 1,
        name: "p".to_string(),
        source: SourceConfig { adapter: "filesystem".into(), path: ".".into(), glob: "**/*".into(), max_file_size_bytes: 100 },
        parse: ParseConfig { adapter: "auto".into() },
        chunk: ChunkConfig { adapter: chunk_adapter.into(), chunk_size: 10, chunk_overlap: 0, similarity_threshold_bits: 0 },
        embed: EmbedConfig { adapter: "openai".into(), model: "m".into(), batch_size: 2, base_url: "u".into() },
        store: StoreConfig { adapter: "qdrant".into(), url: "u".into(), collection: "c".into(), distance: DistanceMetric::Dot },
        index: IndexConfig { idempotency_key: "content_hash".into(), batch_upsert_size: 2, max_chunks_per_document: max_chunks, checkpoint },
    }
}

fn raw(uri: &str, content: &str) -> RawDocument {
    make_raw_document(uri.to_string(), content.to_string(), hash_content(content))
}

#[test]
fn content_hash_is_hex_sha256() {
    assert_eq!(hash_content("hello"), "2cf24dba5fb0a30e26e83b2ac5b9e29e1b161e5c1fa7425e73043362938b9824");
    assert_eq!(hash_bytes(b"hello"), hash_content("hello"));
    assert_eq!(hash_content(""), hex::encode(Sha256::digest(b"")));
}

#[test]
fn point_id_is_first_eight_digest_bytes() {
    let digest = Sha256::digest("docs/a.md:3".as_bytes());
    let expected = u64::from_le_bytes(digest[..8].try_into().unwrap());
    assert_eq!(chunk_point_id("docs/a.md", 3), expected);
    assert_eq!(chunk_point_id("docs/a.md", 3), chunk_point_id("docs/a.md", 3));
    assert_ne!(chunk_point_id("docs/a.md", 3), chunk_point_id("docs/a.md", 4));
}

#[test]
fn supported_documents_by_extension() {
    assert!(is_supported_doc("a/b.md"));
    assert!(is_supported_doc("b.htm"));
    assert!(!is_supported_doc("a/b.MD"));
    assert!(!is_supported_doc("a/b.rs"));
    assert!(!is_supported_doc("README"));
    assert!(has_extension("x/Y.PDF", "pdf"));
    assert!(!has_extension("x/pdf", "pdf"));
    assert!(is_yaml("c/p.yml"));
    assert!(!is_yaml("c/p.YAML"));
    let source = FilesystemSource::new("./data".into(), "**/*".into(), 10);
    assert!(source.accepts("x.txt", 10));
    assert!(!source.accepts("x.txt", 11));
    assert!(!source.accepts("x.bin", 1));
}

#[test]
fn raw_documents() {
    let d = raw("data/docs/guide.md", "body");
    assert_eq!(d.title, "guide.md");
    assert_eq!(d.id, d.content_hash);
    assert_eq!(document_title(".."), "..");
    assert_eq!(pdf_placeholder("a/b.pdf"), "__pdf__:a/b.pdf");
}

#[test]
fn documents_sorted_by_uri() {
    let docs = vec![raw("c", "1"), raw("a", "2"), raw("b", "3"), raw("a", "4")];
    let sorted = sort_by_uri(docs);
    let uris: Vec<&str> = sorted.iter().map(|d| d.uri.as_str()).collect();
    assert_eq!(uris, vec!["a", "a", "b", "c"]);
    assert_eq!(sorted[0].content, "2");
    assert_eq!(sorted[1].content, "4");
}

#[test]
fn recursive_chunker_uses_text_splitter() {
    let text = "First sentence here. Second sentence follows. Third one ends it.";
    let doc = Document { raw: raw("a.md", text), parsed_content: text.to_string() };
    let chunks = RecursiveChunker::new(25, 5).chunk(&doc).unwrap();
    let splitter = text_splitter::TextSplitter::new(text_splitter::ChunkConfig::new(25).with_overlap(5).unwrap());
    let expected: Vec<&str> = splitter.chunks(text).collect();
    assert!(expected.len() > 1);
    assert_eq!(chunks.len(), expected.len());
    for (i, c) in chunks.iter().enumerate() {
        assert_eq!(c.chunk_index, i);
        assert_eq!(c.content, expected[i]);
    }
    match RecursiveChunker::new(5, 5).chunk(&doc) {
        Err(Error::Config(m)) => assert_eq!(m, "chunk_overlap must be smaller than chunk_size"),
        _ => panic!("expected error"),
    }
}

#[test]
fn auto_parser_picks_by_extension() {
    let p = AutoParser;
    let md = raw("n.md", "# Title");
    assert!(!is_pdf(&md) && !is_html(&md));
    match p.parse(&md) {
        Ok(ParseStep::Parsed(d)) => assert_eq!(d.parsed_content, "# Title"),
        _ => panic!("expected parsed"),
    }
    let html = raw("page.HTML", "<p>Hello <b>there</b></p>");
    assert!(is_html(&html));
    let expected = html2text::config::plain().string_from_read("<p>Hello <b>there</b></p>".as_bytes(), 80).unwrap();
    match p.parse(&html) {
        Ok(ParseStep::Parsed(d)) => {
            assert_eq!(d.parsed_content, expected);
            assert_ne!(d.parsed_content, html.content);
        }
        _ => panic!("expected parsed"),
    }
    let pdf = raw("x.pdf", "__pdf__:x.pdf");
    assert!(matches!(p.parse(&pdf), Ok(ParseStep::NeedsPdfText)));
    match p.finish_pdf(&pdf, Err("bad xref".to_string())) {
        Err(Error::Adapter { adapter, message }) => {
            assert_eq!(adapter, "auto");
            assert_eq!(message, "pdf extract failed for x.pdf: bad xref");
        }
        _ => panic!("expected error"),
    }
    assert_eq!(p.finish_pdf(&pdf, Ok("text".to_string())).unwrap().parsed_content, "text");
}

#[test]
fn batches() {
    assert_eq!(batch_ranges(5, 2), vec![(0, 2), (2, 4), (4, 5)]);
    assert!(batch_ranges(0, 3).is_empty());
    assert_eq!(embed_batches(3, 0), vec![(0, 1), (1, 2), (2, 3)]);
    assert_eq!(embed_batches(3, 10), vec![(0, 3)]);
}

#[test]
fn chunk_records_pair_chunks_with_vectors() {
    let doc = Document { raw: raw("d.md", "abc"), parsed_content: "abc".into() };
    let chunks = number_chunks(vec!["a".to_string(), "b".to_string(), "c".to_string()]);
    let vectors = vec![vec![1u32, 2], vec![3, 4]];
    let records = build_chunk_records(&doc, &chunks, vectors);
    assert_eq!(records.len(), 2);
    assert_eq!(records[1].vector_bits, vec![3, 4]);
    assert_eq!(records[1].content, "b");
    assert_eq!(records[1].chunk_index, 1);
    assert_eq!(records[1].point_id, chunk_point_id("d.md", 1));
    assert_eq!(records[0].source_id, doc.raw.id);
    assert_eq!(records[0].content_hash, doc.raw.content_hash);
}

fn keys(d: &[(&str, &str)]) -> Vec<(String, String)> {
    d.iter().map(|(a, b)| (a.to_string(), b.to_string())).collect()
}

#[test]
fn run_skips_unchanged_and_checkpoints() {
    let runner = PipelineRunner::new(config(5, true, "recursive"), "p.yaml".into());
    let mut state = IndexState::new();
    state.mark_indexed("a".into(), "h1".into());
    let mut run = runner.start_run(state, keys(&[("a", "h1"), ("b", "h2"), ("c", "h3")]));
    assert_eq!(run.scan(), ScanStep::Skip);
    assert_eq!(run.scan(), ScanStep::Process);
    assert!(run.admit_chunks(5).is_ok());
    assert_eq!(run.scan(), ScanStep::Process);
    assert!(run.admit_chunks(1).is_ok());
    assert!(run.scan_done());
    assert_eq!(run.next_document(), 1);
    run.record_upsert(5);
    assert!(run.finish_document());
    assert!(run.state().is_unchanged("b", "h2"));
    assert_eq!(run.next_document(), 2);
    run.record_upsert(1);
    assert!(run.finish_document());
    assert!(!run.finish_run());
    let report = run.report();
    assert_eq!(
        (report.documents_seen, report.documents_skipped, report.documents_indexed, report.chunks_written),
        (3, 1, 2, 6)
    );
    assert!(run.state().is_unchanged("a", "h1") && run.state().is_unchanged("c", "h3"));
}

#[test]
fn run_without_checkpoint_saves_at_end() {
    let runner = PipelineRunner::new(config(5, false, "recursive"), "p.yaml".into());
    let mut run = runner.start_run(IndexState::new(), keys(&[("a", "h1")]));
    assert_eq!(run.scan(), ScanStep::Process);
    assert!(run.admit_chunks(0).is_ok());
    assert!(!run.finish_document());
    assert!(!run.state().is_unchanged("a", "h1"));
    assert!(run.finish_run());
    assert!(run.state().is_unchanged("a", "h1"));
}

#[test]
fn run_rejects_documents_over_the_limit() {
    let runner = PipelineRunner::new(config(2, true, "recursive"), "p.yaml".into());
    let mut run = runner.start_run(IndexState::new(), keys(&[("docs/big.md", "h")]));
    assert_eq!(run.scan(), ScanStep::Process);
    match run.admit_chunks(3) {
        Err(Error::Config(m)) => assert_eq!(m, "document `docs/big.md` produced 3 chunks (limit: 2)"),
        _ => panic!("expected error"),
    }
}

#[test]
fn nothing_to_index_saves_nothing() {
    let runner = PipelineRunner::new(config(2, false, "recursive"), "p.yaml".into());
    let mut state = IndexState::new();
    state.mark_indexed("a".into(), "h".into());
    let mut run = runner.start_run(state, keys(&[("a", "h")]));
    assert_eq!(run.scan(), ScanStep::Skip);
    assert!(run.scan_done());
    assert!(!run.finish_run());
}

#[test]
fn dry_run_tallies_and_warns() {
    let runner = PipelineRunner::new(config(1, true, "semantic"), "p.yaml".into());
    let mut state = IndexState::new();
    state.mark_indexed("a".into(), "h1".into());
    let mut run = runner.start_dry_run(state, keys(&[("a", "h1"), ("b", "h2"), ("c", "h3")]));
    assert_eq!(run.scan(), ScanStep::Skip);
    assert_eq!(run.scan(), ScanStep::Process);
    run.tally_chunks(&vec![Chunk { chunk_index: 0, content: "héllo".into() }]);
    assert_eq!(run.scan(), ScanStep::Process);
    run.tally_chunks(&number_chunks(vec!["x".into(), "y".into()]));
    assert!(run.scan_done());
    let r = run.report();
    assert_eq!((r.documents_seen, r.documents_skipped, r.documents_to_index, r.chunks_total, r.total_chars), (3, 1, 1, 1, 6));
    assert_eq!(
        r.warnings,
        vec![
            "semantic chunking calls the embed API during dry-run to compute breakpoints".to_string(),
            "c exceeds max_chunks_per_document (2 > 1)".to_string(),
        ]
    );
}

#[test]
fn point_id_from_digest_bytes() {
    let d = vec![1u8, 0, 0, 0, 0, 0, 0, 0, 9, 9];
    assert_eq!(rustyrag::source::point_id_from_digest(&d), 1);
    let d = vec![0u8, 1, 0, 0, 0, 0, 0, 0];
    assert_eq!(rustyrag::source::point_id_from_digest(&d), 256);
    let d = vec![0xffu8; 8];
    assert_eq!(rustyrag::source::point_id_from_digest(&d), u64::MAX);
}

#[test]
fn supported_extensions() {
    assert!(rustyrag::source::is_supported_extension("pdf"));
    assert!(!rustyrag::source::is_supported_extension("PDF"));
    assert!(!rustyrag::source::is_supported_extension(""));
}

#[test]
fn html_rendering_outcome() {
    let html = raw("p.htm", "<p>x</p>");
    assert_eq!(AutoParser.finish_html(&html, Some("x".into())).unwrap().parsed_content, "x");
    match AutoParser.finish_html(&html, None) {
        Err(Error::Adapter { adapter, message }) => {
            assert_eq!(adapter, "auto");
            assert_eq!(message, "html conversion failed for p.htm");
        }
        _ => panic!("expected error"),
    }
}

fn copy_state(s: &IndexState) -> IndexState {
    let mut out = IndexState::new();
    for (uri, hash) in s.entries() {
        out.mark_indexed(uri, hash);
    }
    out
}

#[test]
fn second_run_skips_every_document() {
    let runner = PipelineRunner::new(config(5, false, "recursive"), "p.yaml".into());
    let docs = [("a", "h1"), ("b", "h2")];
    let mut first = runner.start_run(IndexState::new(), keys(&docs));
    for n in [2usize, 1] {
        assert_eq!(first.scan(), ScanStep::Process);
        assert!(first.admit_chunks(n).is_ok());
    }
    first.record_upsert(2);
    assert!(!first.finish_document());
    first.record_upsert(1);
    assert!(!first.finish_document());
    assert!(first.finish_run());

    let mut second = runner.start_run(copy_state(first.state()), keys(&docs));
    assert_eq!(second.scan(), ScanStep::Skip);
    assert_eq!(second.scan(), ScanStep::Skip);
    assert!(second.scan_done());
    assert!(!second.finish_run());
    let r = second.report();
    assert_eq!((r.documents_seen, r.documents_skipped, r.documents_indexed, r.chunks_written), (2, 2, 0, 0));
    assert!(second.state().is_unchanged("a", "h1") && second.state().is_unchanged("b", "h2"));
}

#[test]
fn dry_run_counts_match_the_run() {
    let runner = PipelineRunner::new(config(5, true, "recursive"), "p.yaml".into());
    let mut state = IndexState::new();
    state.mark_indexed("a".into(), "h1".into());
    let docs = [("a", "h1"), ("b", "h2"), ("c", "h3")];
    let mut dry = runner.start_dry_run(copy_state(&state), keys(&docs));
    let mut run = runner.start_run(state, keys(&docs));
    let counts = [3usize, 2];
    let mut k = 0;
    while !dry.scan_done() {
        if dry.scan() == ScanStep::Process {
            dry.tally_chunks(&number_chunks(vec!["x".to_string(); counts[k]]));
            k += 1;
        }
    }
    k = 0;
    while !run.scan_done() {
        if run.scan() == ScanStep::Process {
            assert!(run.admit_chunks(counts[k]).is_ok());
            k += 1;
        }
    }
    for n in counts {
        run.next_document();
        run.record_upsert(n);
        run.finish_document();
    }
    run.finish_run();
    let d = dry.report();
    let r = run.report();
    assert_eq!(
        (d.documents_seen, d.documents_skipped, d.documents_to_index, d.chunks_total),
        (r.documents_seen, r.documents_skipped, r.documents_indexed, r.chunks_written)
    );
    assert_eq!((r.documents_seen, r.documents_skipped, r.documents_indexed, r.chunks_written), (3, 1, 2, 5));
}
