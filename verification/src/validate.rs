use vstd::prelude::*;
use vstd::string::StringExecFns;
use crate::config::{in_unit_interval, unit_interval_bits, PipelineConfig, RagConfig};
use crate::error::{config_error, config_outcome, Error};
use crate::text::{decimal, owned, push_decimal, str_eq};

verus! {

/// Summary of a validated configuration.
pub struct ValidationReport {
    pub pipeline_name: String,
    pub warnings: Vec<String>,
}

impl Default for ValidationReport {
    fn default() -> (r: ValidationReport)
        ensures
            r.pipeline_name@ == Seq::<char>::empty(),
            r.warnings@.len() == 0,
    {
        ValidationReport { pipeline_name: String::new(), warnings: Vec::new() }
    }
}

impl ValidationReport {
    /// An empty report.
    pub fn new() -> (r: ValidationReport)
        ensures
            r.pipeline_name@ == Seq::<char>::empty(),
            r.warnings@.len() == 0,
    {
        ValidationReport { pipeline_name: String::new(), warnings: Vec::new() }
    }
}

/// The elements of `list` separated by `sep`.
pub open spec fn join(list: Seq<Seq<char>>, sep: Seq<char>) -> Seq<char>
    decreases list.len(),
{
    if list.len() == 0 {
        Seq::empty()
    } else if list.len() == 1 {
        list[0]
    } else {
        join(list.drop_last(), sep) + sep + list.last()
    }
}

/// Views of a slice of string slices.
pub open spec fn views(list: Seq<&str>) -> Seq<Seq<char>> {
    list.map_values(|s: &str| s@)
}

/// The message for an adapter name that is not among `allowed`, if it is not.
pub open spec fn adapter_error(stage: Seq<char>, actual: Seq<char>, allowed: Seq<Seq<char>>) -> Option<Seq<char>> {
    if allowed.contains(actual) {
        None
    } else {
        Some(stage + ".adapter `"@ + actual + "` is not supported (allowed: "@ + join(allowed, ", "@) + ")"@)
    }
}

/// Message for an unsupported configuration version.
pub open spec fn version_message(kind: Seq<char>, version: u32) -> Seq<char> {
    "unsupported "@ + kind + " version "@ + decimal(version as nat) + " (expected 1)"@
}

/// The first problem that `validate_pipeline` reports for `c`, if any.
pub open spec fn pipeline_error(c: PipelineConfig) -> Option<Seq<char>> {
    if c.version != 1 {
        Some(version_message("pipeline"@, c.version))
    } else if adapter_error("source"@, c.source.adapter@, seq!["filesystem"@]) is Some {
        adapter_error("source"@, c.source.adapter@, seq!["filesystem"@])
    } else if adapter_error("parse"@, c.parse.adapter@, seq!["auto"@]) is Some {
        adapter_error("parse"@, c.parse.adapter@, seq!["auto"@])
    } else if adapter_error("chunk"@, c.chunk.adapter@, seq!["recursive"@, "semantic"@]) is Some {
        adapter_error("chunk"@, c.chunk.adapter@, seq!["recursive"@, "semantic"@])
    } else if adapter_error("embed"@, c.embed.adapter@, seq!["openai"@, "ollama"@]) is Some {
        adapter_error("embed"@, c.embed.adapter@, seq!["openai"@, "ollama"@])
    } else if adapter_error("store"@, c.store.adapter@, seq!["qdrant"@]) is Some {
        adapter_error("store"@, c.store.adapter@, seq!["qdrant"@])
    } else if c.chunk.adapter@ == "recursive"@ && c.chunk.chunk_overlap >= c.chunk.chunk_size {
        Some("chunk_overlap must be smaller than chunk_size for recursive chunker"@)
    } else if c.chunk.adapter@ == "semantic"@ && !unit_interval_bits(c.chunk.similarity_threshold_bits) {
        Some("chunk.similarity_threshold must be between 0.0 and 1.0"@)
    } else if c.index.idempotency_key@ != "content_hash"@ {
        Some("only idempotency_key=content_hash is supported"@)
    } else {
        None
    }
}

/// The first problem that `validate_rag` reports for `c`, if any.
pub open spec fn rag_error(c: RagConfig) -> Option<Seq<char>> {
    if c.version != 1 {
        Some(version_message("rag"@, c.version))
    } else if adapter_error("generation"@, c.generation.adapter@, seq!["openai"@, "ollama"@]) is Some {
        adapter_error("generation"@, c.generation.adapter@, seq!["openai"@, "ollama"@])
    } else if adapter_error("retrieval.embed"@, c.retrieval.embed_adapter@, seq!["openai"@, "ollama"@]) is Some {
        adapter_error("retrieval.embed"@, c.retrieval.embed_adapter@, seq!["openai"@, "ollama"@])
    } else if adapter_error("retrieval.search_mode"@, c.retrieval.search_mode@, seq!["semantic"@, "hybrid"@]) is Some {
        adapter_error("retrieval.search_mode"@, c.retrieval.search_mode@, seq!["semantic"@, "hybrid"@])
    } else if c.retrieval.search_mode@ == "hybrid"@ && !unit_interval_bits(c.retrieval.hybrid_dense_weight_bits) {
        Some("retrieval.hybrid_dense_weight must be between 0.0 and 1.0"@)
    } else {
        None
    }
}

/// `list` joined by `sep`.
pub fn join_strs(list: &[&str], sep: &str) -> (out: String)
    ensures
        out@ == join(views(list@), sep@),
{
    let mut out = String::new();
    let ghost all = views(list@);
    let mut i: usize = 0;
    while i < list.len()
        invariant
            i <= list.len(),
            all == views(list@),
            out@ == join(all.take(i as int), sep@),
        decreases list.len() - i,
    {
        proof {
            assert(all.take(i + 1).drop_last() =~= all.take(i as int));
            assert(all.take(i + 1).last() == list@[i as int]@);
        }
        if i != 0 {
            out.append(sep);
        }
        out.append(list[i]);
        i += 1;
        proof {
            if i == 1 {
                assert(all.take(1).len() == 1);
                assert(out@ =~= all.take(1)[0]);
            }
        }
    }
    assert(all.take(list.len() as int) =~= all);
    out
}

/// Accepts `actual` when it is one of `allowed`; otherwise a configuration error that names the
/// stage, the adapter and the allowed ones.
pub fn ensure_adapter(stage: &str, actual: &str, allowed: &[&str]) -> (r: Result<(), Error>)
    ensures
        config_outcome(r, adapter_error(stage@, actual@, views(allowed@))),
{
    let ghost all = views(allowed@);
    let mut i: usize = 0;
    while i < allowed.len()
        invariant
            i <= allowed.len(),
            all == views(allowed@),
            forall|j: int| 0 <= j < i ==> all[j] != actual@,
        decreases allowed.len() - i,
    {
        if str_eq(allowed[i], actual) {
            assert(all[i as int] == actual@);
            return Ok(());
        }
        i += 1;
    }
    assert(!all.contains(actual@));
    let mut msg = owned(stage);
    msg.append(".adapter `");
    msg.append(actual);
    msg.append("` is not supported (allowed: ");
    let joined = join_strs(allowed, ", ");
    msg.append(joined.as_str());
    msg.append(")");
    Err(config_error(msg))
}

fn version_error(kind: &str, version: u32) -> (e: Error)
    ensures
        e matches Error::Config(m) && m@ == version_message(kind@, version),
{
    let mut msg = owned("unsupported ");
    msg.append(kind);
    msg.append(" version ");
    push_decimal(&mut msg, version as usize);
    msg.append(" (expected 1)");
    config_error(msg)
}

/// Checks a pipeline configuration: its version, that every stage names a supported adapter,
/// the chunking parameters, and the idempotency key.
pub fn validate_pipeline(config: &PipelineConfig) -> (r: Result<(), Error>)
    ensures
        config_outcome(r, pipeline_error(*config)),
{
    if config.version != 1 {
        return Err(version_error("pipeline", config.version));
    }
    proof {
        reveal_strlit("filesystem");
        reveal_strlit("auto");
        reveal_strlit("recursive");
        reveal_strlit("semantic");
        reveal_strlit("openai");
        reveal_strlit("ollama");
        reveal_strlit("qdrant");
    }
    let r = ensure_adapter("source", config.source.adapter.as_str(), &["filesystem"]);
    assert(views(seq!["filesystem"]) =~= seq!["filesystem"@]);
    if r.is_err() {
        return r;
    }
    let r = ensure_adapter("parse", config.parse.adapter.as_str(), &["auto"]);
    assert(views(seq!["auto"]) =~= seq!["auto"@]);
    if r.is_err() {
        return r;
    }
    let r = ensure_adapter("chunk", config.chunk.adapter.as_str(), &["recursive", "semantic"]);
    assert(views(seq!["recursive", "semantic"]) =~= seq!["recursive"@, "semantic"@]);
    if r.is_err() {
        return r;
    }
    let r = ensure_adapter("embed", config.embed.adapter.as_str(), &["openai", "ollama"]);
    assert(views(seq!["openai", "ollama"]) =~= seq!["openai"@, "ollama"@]);
    if r.is_err() {
        return r;
    }
    let r = ensure_adapter("store", config.store.adapter.as_str(), &["qdrant"]);
    assert(views(seq!["qdrant"]) =~= seq!["qdrant"@]);
    if r.is_err() {
        return r;
    }
    if str_eq(config.chunk.adapter.as_str(), "recursive") {
        if config.chunk.chunk_overlap >= config.chunk.chunk_size {
            return Err(config_error(owned("chunk_overlap must be smaller than chunk_size for recursive chunker")));
        }
    }
    if str_eq(config.chunk.adapter.as_str(), "semantic") {
        if !in_unit_interval(config.chunk.similarity_threshold_bits) {
            return Err(config_error(owned("chunk.similarity_threshold must be between 0.0 and 1.0")));
        }
    }
    if !str_eq(config.index.idempotency_key.as_str(), "content_hash") {
        return Err(config_error(owned("only idempotency_key=content_hash is supported")));
    }
    Ok(())
}

/// Checks a retrieval-and-generation configuration: its version, the generation and embed
/// adapters, the search mode, and the hybrid weight.
pub fn validate_rag(config: &RagConfig) -> (r: Result<(), Error>)
    ensures
        config_outcome(r, rag_error(*config)),
{
    if config.version != 1 {
        return Err(version_error("rag", config.version));
    }
    let r = ensure_adapter("generation", config.generation.adapter.as_str(), &["openai", "ollama"]);
    assert(views(seq!["openai", "ollama"]) =~= seq!["openai"@, "ollama"@]);
    if r.is_err() {
        return r;
    }
    let r = ensure_adapter("retrieval.embed", config.retrieval.embed_adapter.as_str(), &["openai", "ollama"]);
    if r.is_err() {
        return r;
    }
    let r = ensure_adapter("retrieval.search_mode", config.retrieval.search_mode.as_str(), &["semantic", "hybrid"]);
    assert(views(seq!["semantic", "hybrid"]) =~= seq!["semantic"@, "hybrid"@]);
    if r.is_err() {
        return r;
    }
    if str_eq(config.retrieval.search_mode.as_str(), "hybrid") && !in_unit_interval(config.retrieval.hybrid_dense_weight_bits) {
        return Err(config_error(owned("retrieval.hybrid_dense_weight must be between 0.0 and 1.0")));
    }
    Ok(())
}

/// The registry lists an adapter named `name` for `stage`.
pub open spec fn registered(stage: Seq<char>, name: Seq<char>) -> bool {
    exists|i: int| 0 <= i < crate::registry::registry_spec().len() && #[trigger] crate::registry::registry_spec()[i].0 == stage && crate::registry::registry_spec()[i].1 == name
}

proof fn lemma_registered(stage: Seq<char>, name: Seq<char>, i: int)
    requires
        0 <= i < crate::registry::registry_spec().len(),
        crate::registry::registry_spec()[i].0 == stage,
        crate::registry::registry_spec()[i].1 == name,
    ensures
        registered(stage, name),
{
}

/// The registry's adapters, read off by stage.
proof fn lemma_registered_pairs(stage: Seq<char>, name: Seq<char>)
    ensures
        registered(stage, name) <==> {
            ||| stage == "source"@ && name == "filesystem"@
            ||| stage == "parse"@ && name == "auto"@
            ||| stage == "chunk"@ && (name == "recursive"@ || name == "semantic"@)
            ||| stage == "embed"@ && (name == "openai"@ || name == "ollama"@)
            ||| stage == "store"@ && name == "qdrant"@
            ||| stage == "generation"@ && (name == "openai"@ || name == "ollama"@)
            ||| stage == "search_mode"@ && (name == "semantic"@ || name == "hybrid"@)
        },
{
    let r = crate::registry::registry_spec();
    if registered(stage, name) {
        let i = choose|i: int| 0 <= i < r.len() && #[trigger] r[i].0 == stage && r[i].1 == name;
        assert(0 <= i < 11);
    }
    if stage == "source"@ && name == "filesystem"@ { lemma_registered(stage, name, 0); }
    if stage == "parse"@ && name == "auto"@ { lemma_registered(stage, name, 1); }
    if stage == "chunk"@ && name == "recursive"@ { lemma_registered(stage, name, 2); }
    if stage == "chunk"@ && name == "semantic"@ { lemma_registered(stage, name, 3); }
    if stage == "embed"@ && name == "openai"@ { lemma_registered(stage, name, 4); }
    if stage == "embed"@ && name == "ollama"@ { lemma_registered(stage, name, 5); }
    if stage == "store"@ && name == "qdrant"@ { lemma_registered(stage, name, 6); }
    if stage == "generation"@ && name == "openai"@ { lemma_registered(stage, name, 7); }
    if stage == "generation"@ && name == "ollama"@ { lemma_registered(stage, name, 8); }
    if stage == "search_mode"@ && name == "semantic"@ { lemma_registered(stage, name, 9); }
    if stage == "search_mode"@ && name == "hybrid"@ { lemma_registered(stage, name, 10); }
}

proof fn lemma_stage_names_distinct()
    ensures
        "source"@ != "parse"@, "source"@ != "chunk"@, "source"@ != "embed"@, "source"@ != "store"@,
        "source"@ != "generation"@, "source"@ != "search_mode"@,
        "parse"@ != "chunk"@, "parse"@ != "embed"@, "parse"@ != "store"@, "parse"@ != "generation"@,
        "parse"@ != "search_mode"@,
        "chunk"@ != "embed"@, "chunk"@ != "store"@, "chunk"@ != "generation"@, "chunk"@ != "search_mode"@,
        "embed"@ != "store"@, "embed"@ != "generation"@, "embed"@ != "search_mode"@,
        "store"@ != "generation"@, "store"@ != "search_mode"@,
        "generation"@ != "search_mode"@,
{
    reveal_strlit("source");
    reveal_strlit("parse");
    reveal_strlit("chunk");
    reveal_strlit("embed");
    reveal_strlit("store");
    reveal_strlit("generation");
    reveal_strlit("search_mode");
    assert("source"@[1] != "store"@[1]);
    assert("source"@[0] != "generation"@[0]);
    assert("source"@[1] != "search_mode"@[1]);
    assert("store"@[1] != "search_mode"@[1]);
    assert("parse"@[0] != "chunk"@[0]);
    assert("parse"@[0] != "embed"@[0]);
    assert("parse"@[0] != "store"@[0]);
    assert("chunk"@[0] != "embed"@[0]);
    assert("chunk"@[0] != "store"@[0]);
    assert("embed"@[0] != "store"@[0]);
}

/// The checks of a pipeline configuration other than its version and adapter names.
pub open spec fn pipeline_settings_ok(c: PipelineConfig) -> bool {
    &&& !(c.chunk.adapter@ == "recursive"@ && c.chunk.chunk_overlap >= c.chunk.chunk_size)
    &&& !(c.chunk.adapter@ == "semantic"@ && !unit_interval_bits(c.chunk.similarity_threshold_bits))
    &&& c.index.idempotency_key@ == "content_hash"@
}

/// The checks of a retrieval configuration other than its version and adapter names.
pub open spec fn rag_settings_ok(c: RagConfig) -> bool {
    !(c.retrieval.search_mode@ == "hybrid"@ && !unit_interval_bits(c.retrieval.hybrid_dense_weight_bits))
}

/// Law: validation and the adapter registry accept the same adapter names. A pipeline
/// configuration of version 1 whose other settings are sound is valid exactly when the
/// registry lists each of its source, parse, chunk, embed and store adapters under that stage.
pub proof fn law_pipeline_validation_matches_registry(c: PipelineConfig)
    ensures
        pipeline_error(c) is None <==> {
            &&& c.version == 1
            &&& registered("source"@, c.source.adapter@)
            &&& registered("parse"@, c.parse.adapter@)
            &&& registered("chunk"@, c.chunk.adapter@)
            &&& registered("embed"@, c.embed.adapter@)
            &&& registered("store"@, c.store.adapter@)
            &&& pipeline_settings_ok(c)
        },
{
    lemma_stage_names_distinct();
    lemma_registered_pairs("source"@, c.source.adapter@);
    lemma_registered_pairs("parse"@, c.parse.adapter@);
    lemma_registered_pairs("chunk"@, c.chunk.adapter@);
    lemma_registered_pairs("embed"@, c.embed.adapter@);
    lemma_registered_pairs("store"@, c.store.adapter@);
    let a = c.chunk.adapter@;
    assert(seq!["filesystem"@].contains(c.source.adapter@) <==> c.source.adapter@ == "filesystem"@) by {
        if c.source.adapter@ == "filesystem"@ { assert(seq!["filesystem"@][0] == c.source.adapter@); }
    }
    assert(seq!["auto"@].contains(c.parse.adapter@) <==> c.parse.adapter@ == "auto"@) by {
        if c.parse.adapter@ == "auto"@ { assert(seq!["auto"@][0] == c.parse.adapter@); }
    }
    assert(seq!["recursive"@, "semantic"@].contains(a) <==> (a == "recursive"@ || a == "semantic"@)) by {
        if a == "recursive"@ { assert(seq!["recursive"@, "semantic"@][0] == a); }
        if a == "semantic"@ { assert(seq!["recursive"@, "semantic"@][1] == a); }
    }
    let e = c.embed.adapter@;
    assert(seq!["openai"@, "ollama"@].contains(e) <==> (e == "openai"@ || e == "ollama"@)) by {
        if e == "openai"@ { assert(seq!["openai"@, "ollama"@][0] == e); }
        if e == "ollama"@ { assert(seq!["openai"@, "ollama"@][1] == e); }
    }
    assert(seq!["qdrant"@].contains(c.store.adapter@) <==> c.store.adapter@ == "qdrant"@) by {
        if c.store.adapter@ == "qdrant"@ { assert(seq!["qdrant"@][0] == c.store.adapter@); }
    }
}

/// Law: validation and the adapter registry accept the same names. A retrieval configuration
/// of version 1 whose hybrid weight is sound is valid exactly when the registry lists its
/// generation adapter, its query-time embed adapter and its search mode.
pub proof fn law_rag_validation_matches_registry(c: RagConfig)
    ensures
        rag_error(c) is None <==> {
            &&& c.version == 1
            &&& registered("generation"@, c.generation.adapter@)
            &&& registered("embed"@, c.retrieval.embed_adapter@)
            &&& registered("search_mode"@, c.retrieval.search_mode@)
            &&& rag_settings_ok(c)
        },
{
    lemma_stage_names_distinct();
    lemma_registered_pairs("generation"@, c.generation.adapter@);
    lemma_registered_pairs("embed"@, c.retrieval.embed_adapter@);
    lemma_registered_pairs("search_mode"@, c.retrieval.search_mode@);
    let g = c.generation.adapter@;
    assert(seq!["openai"@, "ollama"@].contains(g) <==> (g == "openai"@ || g == "ollama"@)) by {
        if g == "openai"@ { assert(seq!["openai"@, "ollama"@][0] == g); }
        if g == "ollama"@ { assert(seq!["openai"@, "ollama"@][1] == g); }
    }
    let e = c.retrieval.embed_adapter@;
    assert(seq!["openai"@, "ollama"@].contains(e) <==> (e == "openai"@ || e == "ollama"@)) by {
        if e == "openai"@ { assert(seq!["openai"@, "ollama"@][0] == e); }
        if e == "ollama"@ { assert(seq!["openai"@, "ollama"@][1] == e); }
    }
    let m = c.retrieval.search_mode@;
    assert(seq!["semantic"@, "hybrid"@].contains(m) <==> (m == "semantic"@ || m == "hybrid"@)) by {
        if m == "semantic"@ { assert(seq!["semantic"@, "hybrid"@][0] == m); }
        if m == "hybrid"@ { assert(seq!["semantic"@, "hybrid"@][1] == m); }
    }
}

} // verus!
