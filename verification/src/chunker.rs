use vstd::prelude::*;
use text_splitter::{ChunkConfig, TextSplitter};
use crate::document::{number_chunks, numbered_chunks, Chunk, Document};
use crate::error::{config_error, Error};
use crate::text::owned;

verus! {

/// The chunks that text-splitter cuts `text` into for a capacity of `size` characters and an
/// overlap of `overlap` characters (trimmed chunks, in order).
pub uninterp spec fn text_chunks(text: Seq<char>, size: nat, overlap: nat) -> Seq<Seq<char>>;

/// Splits `text` with text-splitter (`ChunkConfig::new(size).with_overlap(overlap)`,
/// `TextSplitter::chunks`). The configuration is refused exactly when the overlap is not
/// smaller than the size; the error text is the crate's message.
#[verifier::external_body]
fn split_text(text: &str, chunk_size: usize, chunk_overlap: usize) -> (r: Result<Vec<String>, String>)
    ensures
        r is Ok <==> chunk_overlap < chunk_size,
        r matches Ok(parts) ==> parts@.map_values(|s: String| s@) == text_chunks(text@, chunk_size as nat, chunk_overlap as nat),
{
    match ChunkConfig::new(chunk_size).with_overlap(chunk_overlap) {
        Ok(config) => Ok(TextSplitter::new(config).chunks(text).map(|s| s.to_string()).collect()),
        Err(err) => Err(err.to_string()),
    }
}

/// Splits documents into chunks of bounded size at sentence and paragraph boundaries.
pub struct RecursiveChunker {
    pub chunk_size: usize,
    pub chunk_overlap: usize,
}

impl RecursiveChunker {
    /// A chunker for chunks of `chunk_size` characters overlapping by `chunk_overlap`.
    pub fn new(chunk_size: usize, chunk_overlap: usize) -> (c: RecursiveChunker)
        ensures
            c.chunk_size == chunk_size,
            c.chunk_overlap == chunk_overlap,
    {
        RecursiveChunker { chunk_size, chunk_overlap }
    }

    /// The chunks of the parsed content of `document`, numbered from zero; a configuration
    /// error when the overlap is not smaller than the chunk size.
    pub fn chunk(&self, document: &Document) -> (r: Result<Vec<Chunk>, Error>)
        ensures
            self.chunk_overlap >= self.chunk_size ==> (r matches Err(Error::Config(m)) && m@ == "chunk_overlap must be smaller than chunk_size"@),
            self.chunk_overlap < self.chunk_size ==> (r matches Ok(v) && numbered_chunks(
                v@,
                text_chunks(document.parsed_content@, self.chunk_size as nat, self.chunk_overlap as nat),
            )),
    {
        if self.chunk_overlap >= self.chunk_size {
            return Err(config_error(owned("chunk_overlap must be smaller than chunk_size")));
        }
        match split_text(document.parsed_content.as_str(), self.chunk_size, self.chunk_overlap) {
            Ok(parts) => Ok(number_chunks(parts)),
            Err(message) => Err(config_error(message)),
        }
    }
}

} // verus!
