use vstd::prelude::*;
use crate::text::{owned, str_eq};

verus! {

/// Metadata of one adapter option, for command-line and graphical config authoring.
pub struct AdapterEntry {
    pub stage: String,
    pub name: String,
    pub label: String,
    pub description: String,
}

/// The four texts of an entry: stage, name, label, description.
pub open spec fn entry_view(e: AdapterEntry) -> (Seq<char>, Seq<char>, Seq<char>, Seq<char>) {
    (e.stage@, e.name@, e.label@, e.description@)
}

/// Views of a list of entries.
pub open spec fn entry_views(v: Seq<AdapterEntry>) -> Seq<(Seq<char>, Seq<char>, Seq<char>, Seq<char>)> {
    v.map_values(|e: AdapterEntry| entry_view(e))
}

/// Every built-in adapter, in registration order.
pub open spec fn registry_spec() -> Seq<(Seq<char>, Seq<char>, Seq<char>, Seq<char>)> {
    seq![
        ("source"@, "filesystem"@, "Local filesystem"@, "Read files from a local directory via glob pattern."@),
        ("parse"@, "auto"@, "Auto-detect"@, "Plain text and markdown as-is; PDF/HTML when extension matches."@),
        ("chunk"@, "recursive"@, "Recursive split"@, "Split by size with sentence/paragraph boundaries. Fast, no extra API cost."@),
        ("chunk"@, "semantic"@, "Semantic split"@, "Embed sentences and split where topic shifts. Better coherence; uses embed API at ingest."@),
        ("embed"@, "openai"@, "OpenAI"@, "OpenAI embedding models (text-embedding-3-small, etc.)."@),
        ("embed"@, "ollama"@, "Ollama"@, "Local embeddings via Ollama (nomic-embed-text, etc.)."@),
        ("store"@, "qdrant"@, "Qdrant"@, "Qdrant vector database."@),
        ("generation"@, "openai"@, "OpenAI"@, "OpenAI chat models (gpt-4o-mini, etc.)."@),
        ("generation"@, "ollama"@, "Ollama"@, "Local LLM via Ollama."@),
        ("search_mode"@, "semantic"@, "Semantic (dense)"@, "Vector similarity search only."@),
        ("search_mode"@, "hybrid"@, "Hybrid (dense + BM25)"@, "Combine vector search with keyword BM25 reranking."@)
    ]
}

/// The registered entries of `stage`, or all of them when no stage is given.
pub open spec fn entries_of_stage(stage: Option<Seq<char>>) -> Seq<(Seq<char>, Seq<char>, Seq<char>, Seq<char>)> {
    registry_spec().filter(|t: (Seq<char>, Seq<char>, Seq<char>, Seq<char>)| stage is None || t.0 == stage->0)
}

fn entry(stage: &str, name: &str, label: &str, description: &str) -> (e: AdapterEntry)
    ensures
        entry_view(e) == (stage@, name@, label@, description@),
{
    AdapterEntry {
        stage: owned(stage),
        name: owned(name),
        label: owned(label),
        description: owned(description),
    }
}

/// All built-in adapters. New adapters register here for discovery.
pub fn adapter_registry() -> (v: Vec<AdapterEntry>)
    ensures
        entry_views(v@) == registry_spec(),
{
    let mut v: Vec<AdapterEntry> = Vec::new();
    v.push(entry("source", "filesystem", "Local filesystem", "Read files from a local directory via glob pattern."));
    v.push(entry("parse", "auto", "Auto-detect", "Plain text and markdown as-is; PDF/HTML when extension matches."));
    v.push(entry("chunk", "recursive", "Recursive split", "Split by size with sentence/paragraph boundaries. Fast, no extra API cost."));
    v.push(entry("chunk", "semantic", "Semantic split", "Embed sentences and split where topic shifts. Better coherence; uses embed API at ingest."));
    v.push(entry("embed", "openai", "OpenAI", "OpenAI embedding models (text-embedding-3-small, etc.)."));
    v.push(entry("embed", "ollama", "Ollama", "Local embeddings via Ollama (nomic-embed-text, etc.)."));
    v.push(entry("store", "qdrant", "Qdrant", "Qdrant vector database."));
    v.push(entry("generation", "openai", "OpenAI", "OpenAI chat models (gpt-4o-mini, etc.)."));
    v.push(entry("generation", "ollama", "Ollama", "Local LLM via Ollama."));
    v.push(entry("search_mode", "semantic", "Semantic (dense)", "Vector similarity search only."));
    v.push(entry("search_mode", "hybrid", "Hybrid (dense + BM25)", "Combine vector search with keyword BM25 reranking."));
    assert(entry_views(v@) =~= registry_spec());
    v
}

fn copy_entry(e: &AdapterEntry) -> (c: AdapterEntry)
    ensures
        entry_view(c) == entry_view(*e),
{
    entry(e.stage.as_str(), e.name.as_str(), e.label.as_str(), e.description.as_str())
}

/// The registered adapters of one stage, or all of them, in registration order.
pub fn list_adapters(stage: Option<&str>) -> (v: Vec<AdapterEntry>)
    ensures
        entry_views(v@) == entries_of_stage(match stage { Some(s) => Some(s@), None => None }),
{
    let all = adapter_registry();
    let ghost want: Option<Seq<char>> = match stage { Some(s) => Some(s@), None => None };
    let ghost pred = |t: (Seq<char>, Seq<char>, Seq<char>, Seq<char>)| want is None || t.0 == want->0;
    let ghost full = registry_spec();
    let mut out: Vec<AdapterEntry> = Vec::new();
    let mut i: usize = 0;
    while i < all.len()
        invariant
            i <= all.len(),
            entry_views(all@) == full,
            full == registry_spec(),
            want == (match stage { Some(s) => Some(s@), None => None::<Seq<char>> }),
            pred == (|t: (Seq<char>, Seq<char>, Seq<char>, Seq<char>)| want is None || t.0 == want->0),
            entry_views(out@) == full.take(i as int).filter(pred),
        decreases all.len() - i,
    {
        let keep = match stage {
            None => true,
            Some(s) => str_eq(all[i].stage.as_str(), s),
        };
        proof {
            assert(full.take(i + 1) =~= full.take(i as int).push(full[i as int]));
            full.take(i as int).lemma_filter_push(full[i as int], pred);
            assert(full[i as int] == entry_view(all@[i as int]));
            assert(keep == pred(full[i as int]));
        }
        if keep {
            let c = copy_entry(&all[i]);
            out.push(c);
            assert(entry_views(out@) =~= full.take(i as int).filter(pred).push(full[i as int]));
        }
        i += 1;
    }
    assert(full.take(all.len() as int) =~= full);
    out
}

} // verus!
