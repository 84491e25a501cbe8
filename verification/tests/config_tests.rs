use rustyrag::config::{
    default_checkpoint, default_embed_adapter, default_hybrid_dense_weight, default_max_chunks,
    default_max_file_size, default_ollama_url, default_similarity_threshold, in_unit_interval,
    ChunkConfig, ContextConfig, DistanceMetric, EmbedConfig, GenerationConfig, IndexConfig,
    ParseConfig, PipelineConfig, RagConfig, RerankConfig, RetrievalConfig, SourceConfig,
    StoreConfig,
};
use rustyrag::error::Error;
use rustyrag::factory::{
    chunker_kind, config_kind, llm_kind, pipeline_embedder_kind, rag_embedder_kind, require_openai_key, ChunkerKind,
    ConfigKind, EmbedderKind, LlmKind,
};
use rustyrag::registry::{adapter_registry, list_adapters};
use rustyrag::validate::{ensure_adapter, validate_pipeline, validate_rag, ValidationReport};

fn pipeline() -> PipelineConfig {
    PipelineConfig {
        version: 1,
        name: "docs-index".to_string(),
        source: SourceConfig {
            adapter: "filesystem".to_string(),
            path: "./data/docs".to_string(),
            glob: "**/*".to_string(),
            max_file_size_bytes: default_max_file_size(),
        },
        parse: ParseConfig { adapter: "auto".to_string() },
        chunk: ChunkConfig {
            adapter: "recursive".to_string(),
            chunk_size: 800,
            chunk_overlap: 100,
            similarity_threshold_bits: default_similarity_threshold(),
        },
        embed: EmbedConfig {
            adapter: "openai".to_string(),
            model: "text-embedding-3-small".to_string(),
            batch_size: 64,
            base_url: default_ollama_url(),
        },
        store: StoreConfig {
            adapter: "qdrant".to_string(),
            url: "http://localhost:6334".to_string(),
            collection: "docs".to_string(),
            distance: DistanceMetric::Cosine,
        },
        index: IndexConfig {
            idempotency_key: "content_hash".to_string(),
            batch_upsert_size: 100,
            max_chunks_per_document: default_max_chunks(),
            checkpoint: default_checkpoint(),
        },
    }
}

fn rag() -> RagConfig {
    RagConfig {
        version: 1,
        name: "default".to_string(),
        retrieval: RetrievalConfig {
            collection: "docs".to_string(),
            store_url: "http://localhost:6334".to_string(),
            embed_model: "text-embedding-3-small".to_string(),
            top_k: 5,
            search_mode: "hybrid".to_string(),
            rerank: RerankConfig { enabled: false, adapter: "none".to_string() },
            hybrid_dense_weight_bits: default_hybrid_dense_weight(),
            embed_base_url: default_ollama_url(),
            embed_adapter: default_embed_adapter(),
        },
        generation: GenerationConfig {
            adapter: "openai".to_string(),
            model: "gpt-4o-mini".to_string(),
            system_prompt: "Answer from context.".to_string(),
            base_url: default_ollama_url(),
        },
        context: ContextConfig { max_tokens: 2000, template: "default".to_string() },
    }
}

fn config_message(r: Result<(), Error>) -> String {
    match r {
        Err(Error::Config(m)) => m,
        _ => panic!("expected a configuration error"),
    }
}

#[test]
fn defaults_match_documented_values() {
    assert_eq!(default_max_file_size(), 10 * 1024 * 1024);
    assert_eq!(default_similarity_threshold(), 0.5f32.to_bits());
    assert_eq!(default_hybrid_dense_weight(), 0.7f32.to_bits());
    assert_eq!(default_ollama_url(), "http://localhost:11434");
    assert_eq!(default_max_chunks(), 10_000);
    assert!(default_checkpoint());
    assert_eq!(default_embed_adapter(), "openai");
}

#[test]
fn unit_interval_follows_float_comparison() {
    for x in [0.0f32, -0.0, 0.25, 1.0, 1.5, -0.1, f32::NAN, f32::INFINITY, 1e-30] {
        assert_eq!(in_unit_interval(x.to_bits()), (0.0..=1.0).contains(&x), "value {x}");
    }
}

#[test]
fn valid_pipeline_passes() {
    assert!(validate_pipeline(&pipeline()).is_ok());
}

#[test]
fn pipeline_version_is_checked() {
    let mut c = pipeline();
    c.version = 2;
    assert_eq!(config_message(validate_pipeline(&c)), "unsupported pipeline version 2 (expected 1)");
}

#[test]
fn pipeline_adapters_are_checked_in_order() {
    let mut c = pipeline();
    c.source.adapter = "s3".to_string();
    c.embed.adapter = "cohere".to_string();
    assert_eq!(
        config_message(validate_pipeline(&c)),
        "source.adapter `s3` is not supported (allowed: filesystem)"
    );
    let mut c = pipeline();
    c.embed.adapter = "cohere".to_string();
    assert_eq!(
        config_message(validate_pipeline(&c)),
        "embed.adapter `cohere` is not supported (allowed: openai, ollama)"
    );
    let mut c = pipeline();
    c.store.adapter = "pgvector".to_string();
    assert_eq!(
        config_message(validate_pipeline(&c)),
        "store.adapter `pgvector` is not supported (allowed: qdrant)"
    );
}

#[test]
fn recursive_overlap_must_be_smaller() {
    let mut c = pipeline();
    c.chunk.chunk_overlap = 800;
    assert_eq!(
        config_message(validate_pipeline(&c)),
        "chunk_overlap must be smaller than chunk_size for recursive chunker"
    );
    c.chunk.adapter = "semantic".to_string();
    assert!(validate_pipeline(&c).is_ok());
}

#[test]
fn semantic_threshold_must_be_in_unit_interval() {
    let mut c = pipeline();
    c.chunk.adapter = "semantic".to_string();
    c.chunk.similarity_threshold_bits = 1.5f32.to_bits();
    assert_eq!(
        config_message(validate_pipeline(&c)),
        "chunk.similarity_threshold must be between 0.0 and 1.0"
    );
    c.chunk.similarity_threshold_bits = 1.0f32.to_bits();
    assert!(validate_pipeline(&c).is_ok());
}

#[test]
fn idempotency_key_must_be_content_hash() {
    let mut c = pipeline();
    c.index.idempotency_key = "mtime".to_string();
    assert_eq!(config_message(validate_pipeline(&c)), "only idempotency_key=content_hash is supported");
}

#[test]
fn rag_validation() {
    assert!(validate_rag(&rag()).is_ok());
    let mut c = rag();
    c.version = 3;
    assert_eq!(config_message(validate_rag(&c)), "unsupported rag version 3 (expected 1)");
    let mut c = rag();
    c.generation.adapter = "anthropic".to_string();
    assert_eq!(
        config_message(validate_rag(&c)),
        "generation.adapter `anthropic` is not supported (allowed: openai, ollama)"
    );
    let mut c = rag();
    c.retrieval.embed_adapter = "x".to_string();
    assert_eq!(
        config_message(validate_rag(&c)),
        "retrieval.embed.adapter `x` is not supported (allowed: openai, ollama)"
    );
    let mut c = rag();
    c.retrieval.search_mode = "keyword".to_string();
    assert_eq!(
        config_message(validate_rag(&c)),
        "retrieval.search_mode.adapter `keyword` is not supported (allowed: semantic, hybrid)"
    );
    let mut c = rag();
    c.retrieval.hybrid_dense_weight_bits = (-0.5f32).to_bits();
    assert_eq!(
        config_message(validate_rag(&c)),
        "retrieval.hybrid_dense_weight must be between 0.0 and 1.0"
    );
    c.retrieval.search_mode = "semantic".to_string();
    assert!(validate_rag(&c).is_ok());
}

#[test]
fn ensure_adapter_lists_allowed() {
    assert!(ensure_adapter("chunk", "semantic", &["recursive", "semantic"]).is_ok());
    assert_eq!(
        config_message(ensure_adapter("chunk", "fixed", &["recursive", "semantic"])),
        "chunk.adapter `fixed` is not supported (allowed: recursive, semantic)"
    );
    assert_eq!(
        config_message(ensure_adapter("x", "y", &[])),
        "x.adapter `y` is not supported (allowed: )"
    );
}

#[test]
fn registry_lists_every_adapter() {
    let all = adapter_registry();
    assert_eq!(all.len(), 11);
    assert_eq!(all[0].stage, "source");
    assert_eq!(all[0].name, "filesystem");
    assert_eq!(all[0].label, "Local filesystem");
    assert_eq!(all[10].name, "hybrid");
    assert_eq!(all[10].description, "Combine vector search with keyword BM25 reranking.");
    assert_eq!(list_adapters(None).len(), 11);
    let chunk: Vec<String> = list_adapters(Some("chunk")).into_iter().map(|e| e.name).collect();
    assert_eq!(chunk, vec!["recursive".to_string(), "semantic".to_string()]);
    let generation: Vec<String> = list_adapters(Some("generation")).into_iter().map(|e| e.name).collect();
    assert_eq!(generation, vec!["openai".to_string(), "ollama".to_string()]);
    assert!(list_adapters(Some("nope")).is_empty());
}

#[test]
fn validation_report_starts_empty() {
    let r = ValidationReport::default();
    assert!(r.pipeline_name.is_empty());
    assert!(r.warnings.is_empty());
}

#[test]
fn adapter_kinds() {
    assert_eq!(pipeline_embedder_kind("openai").ok(), Some(EmbedderKind::OpenAi));
    assert_eq!(pipeline_embedder_kind("ollama").ok(), Some(EmbedderKind::Ollama));
    match pipeline_embedder_kind("cohere") {
        Err(Error::Config(m)) => assert_eq!(m, "unsupported embed adapter `cohere`"),
        _ => panic!("expected error"),
    }
    match rag_embedder_kind("x") {
        Err(Error::Config(m)) => assert_eq!(m, "unsupported retrieval embed adapter `x`"),
        _ => panic!("expected error"),
    }
    assert_eq!(llm_kind("ollama").ok(), Some(LlmKind::Ollama));
    match llm_kind("x") {
        Err(Error::Config(m)) => assert_eq!(m, "unsupported generation adapter `x`"),
        _ => panic!("expected error"),
    }
    assert_eq!(chunker_kind("semantic").ok(), Some(ChunkerKind::Semantic));
    match chunker_kind("fixed") {
        Err(Error::Config(m)) => assert_eq!(m, "unsupported chunk adapter `fixed`"),
        _ => panic!("expected error"),
    }
}

#[test]
fn config_kind_by_path() {
    assert_eq!(config_kind("configs/pipelines/docs.yaml"), ConfigKind::Pipeline);
    assert_eq!(config_kind("my-pipeline.yaml"), ConfigKind::Pipeline);
    assert_eq!(config_kind("configs/rag/default.yaml"), ConfigKind::Rag);
}

#[test]
fn openai_key_is_required() {
    assert_eq!(require_openai_key(Some("sk-test".to_string()), "embed").ok(), Some("sk-test".to_string()));
    match require_openai_key(None, "generation") {
        Err(Error::Config(m)) => assert_eq!(
            m,
            "OPENAI_API_KEY must be set for openai generation adapter. Add it to `.env` in the project root or export it in your shell."
        ),
        _ => panic!("expected error"),
    }
}

#[test]
fn validation_accepts_exactly_the_registered_names() {
    let names = ["filesystem", "auto", "recursive", "semantic", "openai", "ollama", "qdrant", "hybrid", "pgvector", "none"];
    let registry = adapter_registry();
    let listed = |stage: &str, name: &str| registry.iter().any(|e| e.stage == stage && e.name == name);
    for name in names {
        let mut p = pipeline();
        p.source.adapter = name.to_string();
        assert_eq!(validate_pipeline(&p).is_ok(), listed("source", name));
        let mut p = pipeline();
        p.parse.adapter = name.to_string();
        assert_eq!(validate_pipeline(&p).is_ok(), listed("parse", name));
        let mut p = pipeline();
        p.chunk.adapter = name.to_string();
        assert_eq!(validate_pipeline(&p).is_ok(), listed("chunk", name));
        let mut p = pipeline();
        p.embed.adapter = name.to_string();
        assert_eq!(validate_pipeline(&p).is_ok(), listed("embed", name));
        let mut p = pipeline();
        p.store.adapter = name.to_string();
        assert_eq!(validate_pipeline(&p).is_ok(), listed("store", name));
        let mut r = rag();
        r.generation.adapter = name.to_string();
        assert_eq!(validate_rag(&r).is_ok(), listed("generation", name));
        let mut r = rag();
        r.retrieval.embed_adapter = name.to_string();
        assert_eq!(validate_rag(&r).is_ok(), listed("embed", name));
        let mut r = rag();
        r.retrieval.search_mode = name.to_string();
        assert_eq!(validate_rag(&r).is_ok(), listed("search_mode", name));
    }
}
