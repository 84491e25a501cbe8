use vstd::prelude::*;
use vstd::string::StringExecFns;
use crate::document::RetrievedChunk;
use crate::error::Error;
use crate::text::{byte_len, contains_seq, decimal, lemma_utf8_len_concat, owned, push_decimal, str_contains, str_eq, utf8_len};

verus! {

/// A question sent to the query service.
pub struct QueryRequest {
    pub query: String,
}

/// The text of one chunk in the prompt context.
pub open spec fn context_entry(c: RetrievedChunk) -> Seq<char> {
    "[source: "@ + c.title@ + " | chunk "@ + decimal(c.chunk_index as nat) + "]\n"@ + c.content@ + "\n\n"@
}

/// `acc` followed by the leading entries of `es` while the total stays within `max` bytes.
pub open spec fn fill_context(acc: Seq<char>, es: Seq<Seq<char>>, max: nat) -> Seq<char>
    decreases es.len(),
{
    if es.len() == 0 {
        acc
    } else if utf8_len(acc) + utf8_len(es[0]) > max {
        acc
    } else {
        fill_context(acc + es[0], es.drop_first(), max)
    }
}

/// Context budget in bytes: four per token, saturating.
pub open spec fn context_budget(max_tokens: usize) -> nat {
    if max_tokens * 4 > usize::MAX {
        usize::MAX as nat
    } else {
        (max_tokens * 4) as nat
    }
}

/// The context built from `chunks` for a budget of `max_tokens` tokens.
pub open spec fn context_of(max_tokens: usize, chunks: Seq<RetrievedChunk>) -> Seq<char> {
    fill_context(Seq::empty(), chunks.map_values(|c: RetrievedChunk| context_entry(c)), context_budget(max_tokens))
}

/// The prompt that asks the model to answer `question` from `context`.
pub open spec fn user_prompt_of(context: Seq<char>, question: Seq<char>) -> Seq<char> {
    "Use the context below to answer the question.\n\nContext:\n"@ + context + "\n\nQuestion:\n"@ + question
}

fn context_entry_text(c: &RetrievedChunk) -> (s: String)
    ensures
        s@ == context_entry(*c),
{
    let mut s = owned("[source: ");
    s.append(c.title.as_str());
    s.append(" | chunk ");
    push_decimal(&mut s, c.chunk_index);
    s.append("]\n");
    s.append(c.content.as_str());
    s.append("\n\n");
    s
}

/// Prompt context from retrieved chunks: each chunk as `[source: <title> | chunk <n>]`, its
/// content and a blank line, in order, stopping before the first chunk that would take the
/// context past four bytes per token of `max_tokens`.
pub fn build_context(max_tokens: usize, chunks: &Vec<RetrievedChunk>) -> (s: String)
    ensures
        s@ == context_of(max_tokens, chunks@),
{
    let max_chars: usize = if max_tokens > usize::MAX / 4 { usize::MAX } else { max_tokens * 4 };
    let ghost es = chunks@.map_values(|c: RetrievedChunk| context_entry(c));
    let mut context = String::new();
    let mut i: usize = 0;
    assert(es.skip(0) =~= es);
    while i < chunks.len()
        invariant
            i <= chunks.len(),
            es == chunks@.map_values(|c: RetrievedChunk| context_entry(c)),
            max_chars == context_budget(max_tokens),
            fill_context(Seq::empty(), es, max_chars as nat) == fill_context(context@, es.skip(i as int), max_chars as nat),
        decreases chunks.len() - i,
    {
        let entry = context_entry_text(&chunks[i]);
        let ghost rest = es.skip(i as int);
        assert(rest[0] == es[i as int]);
        assert(rest.drop_first() =~= es.skip(i + 1));
        let a = byte_len(context.as_str());
        let b = byte_len(entry.as_str());
        if a + b > max_chars {
            return context;
        }
        context.append(entry.as_str());
        i += 1;
    }
    assert(es.skip(i as int).len() == 0);
    context
}

proof fn lemma_fill_within(acc: Seq<char>, es: Seq<Seq<char>>, max: nat)
    requires
        utf8_len(acc) <= max,
    ensures
        utf8_len(fill_context(acc, es, max)) <= max,
    decreases es.len(),
{
    if es.len() > 0 && utf8_len(acc) + utf8_len(es[0]) <= max {
        lemma_utf8_len_concat(acc, es[0]);
        lemma_fill_within(acc + es[0], es.drop_first(), max);
    }
}

/// Law: the prompt context never exceeds its budget of four bytes per token.
pub proof fn law_context_within_budget(max_tokens: usize, chunks: Seq<RetrievedChunk>)
    ensures
        utf8_len(context_of(max_tokens, chunks)) <= context_budget(max_tokens),
{
    assert(utf8_len(Seq::<char>::empty()) == 0) by {
        assert(vstd::utf8::encode_utf8(Seq::<char>::empty()) =~= Seq::<u8>::empty());
    }
    lemma_fill_within(Seq::empty(), chunks.map_values(|c: RetrievedChunk| context_entry(c)), context_budget(max_tokens));
}

/// The prompt that asks the model to answer `question` from `context`.
pub fn build_user_prompt(context: &str, question: &str) -> (s: String)
    ensures
        s@ == user_prompt_of(context@, question@),
{
    let mut s = owned("Use the context below to answer the question.\n\nContext:\n");
    s.append(context);
    s.append("\n\nQuestion:\n");
    s.append(question);
    s
}

/// How many chunks vector search fetches: three times `top_k` in hybrid mode, which reranks
/// and keeps `top_k`, otherwise `top_k`.
pub fn retrieval_fetch_k(search_mode: &str, top_k: usize) -> (k: usize)
    requires
        search_mode@ == "hybrid"@ ==> top_k * 3 <= usize::MAX,
    ensures
        k == if search_mode@ == "hybrid"@ { top_k * 3 } else { top_k as int },
{
    if str_eq(search_mode, "hybrid") {
        top_k * 3
    } else {
        top_k
    }
}

/// Whether retrieval reranks with keyword scores.
pub fn is_hybrid(search_mode: &str) -> (r: bool)
    ensures
        r == (search_mode@ == "hybrid"@),
{
    str_eq(search_mode, "hybrid")
}

/// Price class of an embedding model, per thousand tokens.
#[derive(Debug, Clone, Copy, PartialEq, Eq, Structural)]
pub enum EmbedPriceTier {
    /// `text-embedding-3-small` and unknown models: 0.00002 USD.
    Small,
    /// `text-embedding-3-large`: 0.00013 USD.
    Large,
    /// `text-embedding-ada-002`: 0.0001 USD.
    Ada,
    /// Local models (names holding `nomic` or `ollama`): free.
    Free,
}

/// Price class of embedding model `model`.
pub open spec fn price_tier_of(model: Seq<char>) -> EmbedPriceTier {
    if model == "text-embedding-3-small"@ {
        EmbedPriceTier::Small
    } else if model == "text-embedding-3-large"@ {
        EmbedPriceTier::Large
    } else if model == "text-embedding-ada-002"@ {
        EmbedPriceTier::Ada
    } else if contains_seq(model, "nomic"@) || contains_seq(model, "ollama"@) {
        EmbedPriceTier::Free
    } else {
        EmbedPriceTier::Small
    }
}

/// Price class of embedding model `model`, for the dry-run cost estimate.
pub fn embed_price_tier(model: &str) -> (t: EmbedPriceTier)
    ensures
        t == price_tier_of(model@),
{
    if str_eq(model, "text-embedding-3-small") {
        EmbedPriceTier::Small
    } else if str_eq(model, "text-embedding-3-large") {
        EmbedPriceTier::Large
    } else if str_eq(model, "text-embedding-ada-002") {
        EmbedPriceTier::Ada
    } else if str_contains(model, "nomic") || str_contains(model, "ollama") {
        EmbedPriceTier::Free
    } else {
        EmbedPriceTier::Small
    }
}

/// Estimated tokens of `total_chars` bytes of text: a quarter of them, at least one.
pub fn estimated_tokens(total_chars: usize) -> (t: usize)
    ensures
        t == if total_chars / 4 >= 1 { total_chars / 4 } else { 1 },
{
    let q = total_chars / 4;
    if q >= 1 { q } else { 1 }
}

/// The answer of a chat completion: its first choice, or an error when there is none.
pub fn first_choice(contents: Vec<String>) -> (r: Result<String, Error>)
    ensures
        contents@.len() > 0 ==> (r matches Ok(s) && s@ == contents@[0]@),
        contents@.len() == 0 ==> crate::error::is_adapter_error(r, "openai"@, "openai returned no choices"@),
{
    if contents.len() > 0 {
        Ok(owned(contents[0].as_str()))
    } else {
        Err(Error::Adapter { adapter: owned("openai"), message: owned("openai returned no choices") })
    }
}

/// The entries of `es`, concatenated in order.
pub open spec fn concat_all(es: Seq<Seq<char>>) -> Seq<char>
    decreases es.len(),
{
    if es.len() == 0 {
        Seq::empty()
    } else {
        es[0] + concat_all(es.drop_first())
    }
}

/// The context entries of `chunks`, concatenated in order.
pub open spec fn chunk_text(chunks: Seq<RetrievedChunk>) -> Seq<char>
    decreases chunks.len(),
{
    if chunks.len() == 0 {
        Seq::empty()
    } else {
        context_entry(chunks[0]) + chunk_text(chunks.drop_first())
    }
}

proof fn lemma_fill_prefix(acc: Seq<char>, es: Seq<Seq<char>>, max: nat) -> (k: nat)
    ensures
        k <= es.len(),
        fill_context(acc, es, max) == acc + concat_all(es.take(k as int)),
        k < es.len() ==> utf8_len(fill_context(acc, es, max)) + utf8_len(es[k as int]) > max,
    decreases es.len(),
{
    if es.len() == 0 {
        assert(es.take(0) =~= Seq::<Seq<char>>::empty());
        assert(acc + Seq::<char>::empty() =~= acc);
        0
    } else if utf8_len(acc) + utf8_len(es[0]) > max {
        assert(es.take(0) =~= Seq::<Seq<char>>::empty());
        assert(acc + Seq::<char>::empty() =~= acc);
        0
    } else {
        let k1 = lemma_fill_prefix(acc + es[0], es.drop_first(), max);
        let t = es.take(k1 as int + 1);
        assert(t[0] == es[0]);
        assert(t.drop_first() =~= es.drop_first().take(k1 as int));
        assert(acc + es[0] + concat_all(es.drop_first().take(k1 as int)) =~= acc + concat_all(t));
        if k1 < es.drop_first().len() {
            assert(es.drop_first()[k1 as int] == es[k1 as int + 1]);
        }
        k1 + 1
    }
}

proof fn lemma_concat_entries(cs: Seq<RetrievedChunk>)
    ensures
        concat_all(cs.map_values(|c: RetrievedChunk| context_entry(c))) == chunk_text(cs),
    decreases cs.len(),
{
    if cs.len() > 0 {
        lemma_concat_entries(cs.drop_first());
        assert(cs.map_values(|c: RetrievedChunk| context_entry(c)).drop_first() =~= cs.drop_first().map_values(|c: RetrievedChunk| context_entry(c)));
    }
}

/// Law: the context is the entries of the first `k` chunks in rank order, for some `k`; when
/// a chunk is left out, it is because its entry would take the context past the budget, and
/// no chunk after it is included.
pub proof fn law_context_is_ranked_prefix(max_tokens: usize, chunks: Seq<RetrievedChunk>) -> (k: nat)
    ensures
        k <= chunks.len(),
        context_of(max_tokens, chunks) == chunk_text(chunks.take(k as int)),
        k < chunks.len() ==> utf8_len(context_of(max_tokens, chunks)) + utf8_len(context_entry(chunks[k as int])) > context_budget(max_tokens),
{
    let es = chunks.map_values(|c: RetrievedChunk| context_entry(c));
    let k = lemma_fill_prefix(Seq::empty(), es, context_budget(max_tokens));
    assert(es.take(k as int) =~= chunks.take(k as int).map_values(|c: RetrievedChunk| context_entry(c)));
    lemma_concat_entries(chunks.take(k as int));
    assert(Seq::<char>::empty() + concat_all(es.take(k as int)) =~= concat_all(es.take(k as int)));
    k
}

} // verus!
