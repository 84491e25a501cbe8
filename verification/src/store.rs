use vstd::prelude::*;
use crate::document::{ChunkRecord, RetrievedChunk};
use crate::text::{owned, str_eq};

verus! {

/// A payload value of a stored point, as far as the library reads it.
pub enum PayloadValue {
    Text(String),
    Integer(i64),
    /// Any other kind of value.
    Other,
}

/// The text stored under `key` in `p` (the first entry with that key), or the empty text when
/// there is none or it is not text.
pub open spec fn payload_text(p: Seq<(String, PayloadValue)>, key: Seq<char>) -> Seq<char>
    decreases p.len(),
{
    if p.len() == 0 {
        Seq::empty()
    } else if p[0].0@ == key {
        match p[0].1 {
            PayloadValue::Text(t) => t@,
            _ => Seq::empty(),
        }
    } else {
        payload_text(p.drop_first(), key)
    }
}

/// The integer stored under `key` in `p`, converted with `as usize`, or zero when there is none
/// or it is not an integer.
pub open spec fn payload_index(p: Seq<(String, PayloadValue)>, key: Seq<char>) -> usize
    decreases p.len(),
{
    if p.len() == 0 {
        0
    } else if p[0].0@ == key {
        match p[0].1 {
            PayloadValue::Integer(n) => n as usize,
            _ => 0,
        }
    } else {
        payload_index(p.drop_first(), key)
    }
}

/// The text stored under `key`, or the empty string.
pub fn payload_string(payload: &Vec<(String, PayloadValue)>, key: &str) -> (s: String)
    ensures
        s@ == payload_text(payload@, key@),
{
    let mut i: usize = 0;
    assert(payload@.skip(0) =~= payload@);
    while i < payload.len()
        invariant
            i <= payload.len(),
            payload_text(payload@, key@) == payload_text(payload@.skip(i as int), key@),
        decreases payload.len() - i,
    {
        assert(payload@.skip(i as int)[0] == payload@[i as int]);
        assert(payload@.skip(i as int).drop_first() =~= payload@.skip(i + 1));
        if str_eq(payload[i].0.as_str(), key) {
            return match &payload[i].1 {
                PayloadValue::Text(t) => owned(t.as_str()),
                _ => String::new(),
            };
        }
        i += 1;
    }
    String::new()
}

/// The integer stored under `key` as a `usize`, or zero.
pub fn payload_usize(payload: &Vec<(String, PayloadValue)>, key: &str) -> (n: usize)
    ensures
        n == payload_index(payload@, key@),
{
    let mut i: usize = 0;
    assert(payload@.skip(0) =~= payload@);
    while i < payload.len()
        invariant
            i <= payload.len(),
            payload_index(payload@, key@) == payload_index(payload@.skip(i as int), key@),
        decreases payload.len() - i,
    {
        assert(payload@.skip(i as int)[0] == payload@[i as int]);
        assert(payload@.skip(i as int).drop_first() =~= payload@.skip(i + 1));
        if str_eq(payload[i].0.as_str(), key) {
            return match &payload[i].1 {
                PayloadValue::Integer(v) => #[verifier::truncate] (*v as usize),
                _ => 0,
            };
        }
        i += 1;
    }
    0
}

/// The chunk that a search hit with score `score_bits` and payload `payload` stands for.
pub fn retrieved_chunk(score_bits: u32, payload: &Vec<(String, PayloadValue)>) -> (c: RetrievedChunk)
    ensures
        c.score_bits == score_bits,
        c.source_uri@ == payload_text(payload@, "source_uri"@),
        c.title@ == payload_text(payload@, "title"@),
        c.chunk_index == payload_index(payload@, "chunk_index"@),
        c.content@ == payload_text(payload@, "content"@),
{
    RetrievedChunk {
        score_bits,
        source_uri: payload_string(payload, "source_uri"),
        title: payload_string(payload, "title"),
        chunk_index: payload_usize(payload, "chunk_index"),
        content: payload_string(payload, "content"),
    }
}

/// Whether entry `e` holds text `t` under key `k`.
pub open spec fn text_entry(e: (String, PayloadValue), k: Seq<char>, t: Seq<char>) -> bool {
    &&& e.0@ == k
    &&& (e.1 matches PayloadValue::Text(s) && s@ == t)
}

/// `p` is the payload stored with `record`: its source id, source URI, title, chunk index (as
/// an `i64`), content and content hash, in that order.
pub open spec fn payload_of(p: Seq<(String, PayloadValue)>, record: ChunkRecord) -> bool {
    &&& p.len() == 6
    &&& text_entry(p[0], "source_id"@, record.source_id@)
    &&& text_entry(p[1], "source_uri"@, record.source_uri@)
    &&& text_entry(p[2], "title"@, record.title@)
    &&& p[3].0@ == "chunk_index"@ && p[3].1 == PayloadValue::Integer(record.chunk_index as i64)
    &&& text_entry(p[4], "content"@, record.content@)
    &&& text_entry(p[5], "content_hash"@, record.content_hash@)
}

/// The payload stored with a record.
pub fn record_payload(record: &ChunkRecord) -> (p: Vec<(String, PayloadValue)>)
    ensures
        payload_of(p@, *record),
{
    let mut p: Vec<(String, PayloadValue)> = Vec::new();
    p.push((owned("source_id"), PayloadValue::Text(owned(record.source_id.as_str()))));
    p.push((owned("source_uri"), PayloadValue::Text(owned(record.source_uri.as_str()))));
    p.push((owned("title"), PayloadValue::Text(owned(record.title.as_str()))));
    p.push((owned("chunk_index"), PayloadValue::Integer(#[verifier::truncate] (record.chunk_index as i64))));
    p.push((owned("content"), PayloadValue::Text(owned(record.content.as_str()))));
    p.push((owned("content_hash"), PayloadValue::Text(owned(record.content_hash.as_str()))));
    p
}

/// What is stored with a record reads back as the record's source URI, title, content and
/// chunk index.
pub proof fn law_payload_round_trip(record: ChunkRecord, p: Seq<(String, PayloadValue)>)
    requires
        payload_of(p, record),
    ensures
        payload_text(p, "source_uri"@) == record.source_uri@,
        payload_text(p, "title"@) == record.title@,
        payload_text(p, "content"@) == record.content@,
        payload_index(p, "chunk_index"@) == record.chunk_index,
{
    reveal_strlit("source_id");
    reveal_strlit("source_uri");
    reveal_strlit("title");
    reveal_strlit("chunk_index");
    reveal_strlit("content");
    reveal_with_fuel(payload_text, 6);
    reveal_with_fuel(payload_index, 6);
    assert("source_id"@[7] != "source_uri"@[7]);
    assert("source_id"@[0] != "title"@[0]);
    assert("source_id"@[0] != "chunk_index"@[0]);
    assert("source_id"@[0] != "content"@[0]);
    assert("source_uri"@[0] != "title"@[0]);
    assert("source_uri"@[0] != "chunk_index"@[0]);
    assert("source_uri"@[0] != "content"@[0]);
    assert("title"@[0] != "chunk_index"@[0]);
    assert("title"@[0] != "content"@[0]);
    assert("chunk_index"@[1] != "content"@[1]);
    assert(p.drop_first()[0] == p[1]);
    assert(p.drop_first().drop_first()[0] == p[2]);
    assert(p.drop_first().drop_first().drop_first()[0] == p[3]);
    assert(p.drop_first().drop_first().drop_first().drop_first()[0] == p[4]);
    let n = record.chunk_index;
    assert(((n as i64) as usize) == n) by (bit_vector);
}

} // verus!
