use vstd::prelude::*;

verus! {

/// A file as read from its source, before parsing.
pub struct RawDocument {
    pub id: String,
    pub uri: String,
    pub title: String,
    pub content: String,
    pub content_hash: String,
}

/// A document after the parse stage.
pub struct Document {
    pub raw: RawDocument,
    pub parsed_content: String,
}

/// One text chunk of a document.
pub struct Chunk {
    pub chunk_index: usize,
    pub content: String,
}

/// A chunk returned by vector search.
pub struct RetrievedChunk {
    /// IEEE-754 bit pattern of the `f32` similarity score.
    pub score_bits: u32,
    pub source_uri: String,
    pub title: String,
    pub chunk_index: usize,
    pub content: String,
}

/// A chunk ready to be written to the vector store.
pub struct ChunkRecord {
    pub point_id: u64,
    /// IEEE-754 bit patterns of the `f32` embedding vector.
    pub vector_bits: Vec<u32>,
    pub source_id: String,
    pub source_uri: String,
    pub title: String,
    pub chunk_index: usize,
    pub content: String,
    pub content_hash: String,
}

/// `v` holds `contents`, in order, numbered from zero.
pub open spec fn numbered_chunks(v: Seq<Chunk>, contents: Seq<Seq<char>>) -> bool {
    &&& v.len() == contents.len()
    &&& forall|i: int| 0 <= i < v.len() ==> (#[trigger] v[i]).chunk_index == i && v[i].content@ == contents[i]
}

/// Chunks numbered from zero, one per element of `contents`, in order.
pub fn number_chunks(contents: Vec<String>) -> (v: Vec<Chunk>)
    ensures
        numbered_chunks(v@, contents@.map_values(|s: String| s@)),
{
    let ghost want = contents@.map_values(|s: String| s@);
    let mut v: Vec<Chunk> = Vec::new();
    let mut rest = contents;
    let mut rev: Vec<String> = Vec::new();
    while rest.len() > 0
        invariant
            rev@.len() + rest@.len() == want.len(),
            forall|i: int| 0 <= i < rest@.len() ==> (#[trigger] rest@[i])@ == want[i],
            forall|i: int| 0 <= i < rev@.len() ==> (#[trigger] rev@[i])@ == want[want.len() - 1 - i],
        decreases rest.len(),
    {
        let s = rest.pop().unwrap();
        rev.push(s);
    }
    let n = rev.len();
    while rev.len() > 0
        invariant
            n == want.len(),
            v@.len() + rev@.len() == n,
            forall|i: int| 0 <= i < rev@.len() ==> (#[trigger] rev@[i])@ == want[n - 1 - i],
            forall|i: int| 0 <= i < v@.len() ==> (#[trigger] v@[i]).chunk_index == i && v@[i].content@ == want[i],
        decreases rev.len(),
    {
        let s = rev.pop().unwrap();
        let idx = v.len();
        v.push(Chunk { chunk_index: idx, content: s });
    }
    v
}

} // verus!
