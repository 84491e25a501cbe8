use vstd::prelude::*;
use crate::text::owned;

verus! {

/// Pipeline configuration: one pipeline indexes into one collection.
pub struct PipelineConfig {
    pub version: u32,
    pub name: String,
    pub source: SourceConfig,
    pub parse: ParseConfig,
    pub chunk: ChunkConfig,
    pub embed: EmbedConfig,
    pub store: StoreConfig,
    pub index: IndexConfig,
}

/// Where the raw documents come from.
pub struct SourceConfig {
    pub adapter: String,
    pub path: String,
    pub glob: String,
    /// Files larger than this many bytes are skipped.
    pub max_file_size_bytes: u64,
}

/// How raw documents are turned into text.
pub struct ParseConfig {
    pub adapter: String,
}

/// How documents are split into chunks.
pub struct ChunkConfig {
    pub adapter: String,
    pub chunk_size: usize,
    pub chunk_overlap: usize,
    /// IEEE-754 bit pattern of the `f32` cosine-similarity breakpoint of semantic chunking.
    pub similarity_threshold_bits: u32,
}

/// Which embedding model is used.
pub struct EmbedConfig {
    pub adapter: String,
    pub model: String,
    pub batch_size: usize,
    pub base_url: String,
}

/// Distance function of the vector collection.
#[derive(Debug, Clone, Copy, PartialEq, Eq, Structural)]
pub enum DistanceMetric {
    Cosine,
    Euclid,
    Dot,
}

/// Where chunk vectors are written.
pub struct StoreConfig {
    pub adapter: String,
    pub url: String,
    pub collection: String,
    pub distance: DistanceMetric,
}

/// Indexing behaviour.
pub struct IndexConfig {
    pub idempotency_key: String,
    pub batch_upsert_size: usize,
    /// Documents that produce more chunks than this are rejected.
    pub max_chunks_per_document: usize,
    /// Persist the index state after each document.
    pub checkpoint: bool,
}

/// Retrieval-and-generation service configuration.
pub struct RagConfig {
    pub version: u32,
    pub name: String,
    pub retrieval: RetrievalConfig,
    pub generation: GenerationConfig,
    pub context: ContextConfig,
}

/// How chunks are retrieved for a query.
pub struct RetrievalConfig {
    pub collection: String,
    pub store_url: String,
    pub embed_model: String,
    pub top_k: usize,
    pub search_mode: String,
    pub rerank: RerankConfig,
    /// IEEE-754 bit pattern of the `f32` weight of the dense score in hybrid mode.
    pub hybrid_dense_weight_bits: u32,
    pub embed_base_url: String,
    pub embed_adapter: String,
}

/// Reranking options.
pub struct RerankConfig {
    pub enabled: bool,
    pub adapter: String,
}

/// Which language model answers.
pub struct GenerationConfig {
    pub adapter: String,
    pub model: String,
    pub system_prompt: String,
    pub base_url: String,
}

/// How retrieved chunks are put into the prompt.
pub struct ContextConfig {
    pub max_tokens: usize,
    pub template: String,
}

/// Bit pattern of `0.5f32`.
pub open spec fn half_bits() -> u32 {
    0x3F00_0000
}

/// Bit pattern of `0.7f32`.
pub open spec fn seven_tenths_bits() -> u32 {
    0x3F33_3333
}

/// True when the `f32` with bit pattern `b` satisfies `0.0 <= x && x <= 1.0`:
/// the non-negative values up to `1.0` (bits `0x3F80_0000`) and negative zero.
pub open spec fn unit_interval_bits(b: u32) -> bool {
    b <= 0x3F80_0000 || b == 0x8000_0000
}

/// Whether the `f32` with bit pattern `b` lies in `0.0..=1.0`.
pub fn in_unit_interval(b: u32) -> (r: bool)
    ensures
        r == unit_interval_bits(b),
{
    b <= 0x3F80_0000 || b == 0x8000_0000
}

/// Default file size limit: 10 MiB.
pub fn default_max_file_size() -> (n: u64)
    ensures
        n == 10 * 1024 * 1024,
{
    10 * 1024 * 1024
}

/// Default similarity threshold of semantic chunking: `0.5`, as a bit pattern.
pub fn default_similarity_threshold() -> (b: u32)
    ensures
        b == half_bits(),
{
    0x3F00_0000
}

/// Default Ollama base URL.
pub fn default_ollama_url() -> (s: String)
    ensures
        s@ == "http://localhost:11434"@,
{
    owned("http://localhost:11434")
}

/// Default limit of chunks per document.
pub fn default_max_chunks() -> (n: usize)
    ensures
        n == 10_000,
{
    10_000
}

/// Checkpointing is on by default.
pub fn default_checkpoint() -> (b: bool)
    ensures
        b,
{
    true
}

/// Default dense weight of hybrid search: `0.7`, as a bit pattern.
pub fn default_hybrid_dense_weight() -> (b: u32)
    ensures
        b == seven_tenths_bits(),
{
    0x3F33_3333
}

/// Default query-time embed adapter.
pub fn default_embed_adapter() -> (s: String)
    ensures
        s@ == "openai"@,
{
    owned("openai")
}

} // verus!
