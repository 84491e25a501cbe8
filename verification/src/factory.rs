use vstd::prelude::*;
use vstd::string::StringExecFns;
use crate::error::{config_error, Error};
use crate::text::{owned, str_eq};

verus! {

/// Embedding services.
#[derive(Debug, Clone, Copy, PartialEq, Eq, Structural)]
pub enum EmbedderKind {
    OpenAi,
    Ollama,
}

/// Chunkers.
#[derive(Debug, Clone, Copy, PartialEq, Eq, Structural)]
pub enum ChunkerKind {
    Recursive,
    Semantic,
}

/// Language-model services.
#[derive(Debug, Clone, Copy, PartialEq, Eq, Structural)]
pub enum LlmKind {
    OpenAi,
    Ollama,
}

/// `r` is the kind named `name` among `openai` and `ollama`, or the configuration error
/// `<prefix> \`<name>\``.
pub open spec fn service_choice<K>(r: Result<K, Error>, name: Seq<char>, open_ai: K, ollama: K, prefix: Seq<char>) -> bool {
    if name == "openai"@ {
        r == Ok::<K, Error>(open_ai)
    } else if name == "ollama"@ {
        r == Ok::<K, Error>(ollama)
    } else {
        r matches Err(Error::Config(m)) && m@ == prefix + " `"@ + name + "`"@
    }
}

fn unsupported(prefix: &str, name: &str) -> (e: Error)
    ensures
        e matches Error::Config(m) && m@ == prefix@ + " `"@ + name@ + "`"@,
{
    let mut m = owned(prefix);
    m.append(" `");
    m.append(name);
    m.append("`");
    config_error(m)
}

/// The embedding service of a pipeline's `embed.adapter`.
pub fn pipeline_embedder_kind(adapter: &str) -> (r: Result<EmbedderKind, Error>)
    ensures
        service_choice(r, adapter@, EmbedderKind::OpenAi, EmbedderKind::Ollama, "unsupported embed adapter"@),
{
    if str_eq(adapter, "openai") {
        Ok(EmbedderKind::OpenAi)
    } else if str_eq(adapter, "ollama") {
        Ok(EmbedderKind::Ollama)
    } else {
        Err(unsupported("unsupported embed adapter", adapter))
    }
}

/// The query-time embedding service of `retrieval.embed_adapter`.
pub fn rag_embedder_kind(adapter: &str) -> (r: Result<EmbedderKind, Error>)
    ensures
        service_choice(r, adapter@, EmbedderKind::OpenAi, EmbedderKind::Ollama, "unsupported retrieval embed adapter"@),
{
    if str_eq(adapter, "openai") {
        Ok(EmbedderKind::OpenAi)
    } else if str_eq(adapter, "ollama") {
        Ok(EmbedderKind::Ollama)
    } else {
        Err(unsupported("unsupported retrieval embed adapter", adapter))
    }
}

/// The language-model service of `generation.adapter`.
pub fn llm_kind(adapter: &str) -> (r: Result<LlmKind, Error>)
    ensures
        service_choice(r, adapter@, LlmKind::OpenAi, LlmKind::Ollama, "unsupported generation adapter"@),
{
    if str_eq(adapter, "openai") {
        Ok(LlmKind::OpenAi)
    } else if str_eq(adapter, "ollama") {
        Ok(LlmKind::Ollama)
    } else {
        Err(unsupported("unsupported generation adapter", adapter))
    }
}

/// The chunker of a pipeline's `chunk.adapter`.
pub fn chunker_kind(adapter: &str) -> (r: Result<ChunkerKind, Error>)
    ensures
        adapter@ == "recursive"@ ==> r == Ok::<ChunkerKind, Error>(ChunkerKind::Recursive),
        adapter@ == "semantic"@ ==> r == Ok::<ChunkerKind, Error>(ChunkerKind::Semantic),
        adapter@ != "recursive"@ && adapter@ != "semantic"@ ==> (r matches Err(Error::Config(m)) && m@ == "unsupported chunk adapter"@ + " `"@ + adapter@ + "`"@),
{
    proof {
        reveal_strlit("recursive");
        reveal_strlit("semantic");
        assert("semantic"@[0] != "recursive"@[0]);
    }
    if str_eq(adapter, "recursive") {
        Ok(ChunkerKind::Recursive)
    } else if str_eq(adapter, "semantic") {
        Ok(ChunkerKind::Semantic)
    } else {
        Err(unsupported("unsupported chunk adapter", adapter))
    }
}

/// Kinds of configuration files.
#[derive(Debug, Clone, Copy, PartialEq, Eq, Structural)]
pub enum ConfigKind {
    Pipeline,
    Rag,
}

/// A configuration file is a pipeline when its path mentions `pipelines` or ends with
/// `pipeline.yaml`; otherwise it configures retrieval and generation.
pub open spec fn config_kind_of(path: Seq<char>) -> ConfigKind {
    if crate::text::contains_seq(path, "pipelines"@) || (path.len() >= 13 && path.subrange(path.len() - 13, path.len() as int) == "pipeline.yaml"@) {
        ConfigKind::Pipeline
    } else {
        ConfigKind::Rag
    }
}

/// What the configuration file at `path` configures.
pub fn config_kind(path: &str) -> (k: ConfigKind)
    ensures
        k == config_kind_of(path@),
{
    proof {
        reveal_strlit("pipeline.yaml");
    }
    if crate::text::str_contains(path, "pipelines") || crate::text::str_ends_with(path, "pipeline.yaml") {
        ConfigKind::Pipeline
    } else {
        ConfigKind::Rag
    }
}

/// The error raised when no OpenAI key is configured for the `purpose` adapter
/// (`embed` or `generation`).
pub open spec fn missing_key_message(purpose: Seq<char>) -> Seq<char> {
    "OPENAI_API_KEY must be set for openai "@ + purpose
        + " adapter. Add it to `.env` in the project root or export it in your shell."@
}

/// The OpenAI key for the `purpose` adapter: the value found in the environment, or a
/// configuration error when there is none.
pub fn require_openai_key(found: Option<String>, purpose: &str) -> (r: Result<String, Error>)
    ensures
        found is Some ==> (r matches Ok(k) && k@ == found->0@),
        found is None ==> (r matches Err(Error::Config(m)) && m@ == missing_key_message(purpose@)),
{
    match found {
        Some(k) => Ok(k),
        None => {
            let mut m = owned("OPENAI_API_KEY must be set for openai ");
            m.append(purpose);
            m.append(" adapter. Add it to `.env` in the project root or export it in your shell.");
            Err(config_error(m))
        },
    }
}

} // verus!
