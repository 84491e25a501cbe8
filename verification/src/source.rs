use vstd::prelude::*;
use vstd::string::StringExecFns;
use vstd::utf8::encode_utf8;
use vstd::multiset::Multiset;
use sha2::{Digest, Sha256};
use crate::document::RawDocument;
use crate::text::{chars_of, decimal, owned, push_decimal, str_eq, str_eq_ignore_ascii_case, eq_ignore_ascii_case};

verus! {

/// SHA-256 digest of `data`.
pub uninterp spec fn sha256(data: Seq<u8>) -> Seq<u8>;

/// Extension of the last component of path `p`, as `std::path::Path::extension` finds it.
pub uninterp spec fn path_extension(p: Seq<char>) -> Option<Seq<char>>;

/// Last component of path `p`, as `std::path::Path::file_name` finds it.
pub uninterp spec fn path_file_name(p: Seq<char>) -> Option<Seq<char>>;

/// Lowercase hexadecimal digit for `n < 16`.
pub open spec fn hex_digit(n: u8) -> char {
    if n < 10 {
        (('0' as u8) + n) as char
    } else {
        (('a' as u8) + (n - 10)) as char
    }
}

/// Lowercase hexadecimal encoding of `b`, two digits per byte, high nibble first.
pub open spec fn hex_lower(b: Seq<u8>) -> Seq<char>
    decreases b.len(),
{
    if b.len() == 0 {
        Seq::empty()
    } else {
        seq![hex_digit(b[0] / 16), hex_digit(b[0] % 16)] + hex_lower(b.drop_first())
    }
}

/// Little-endian value of the bytes `b`.
pub open spec fn le_value(b: Seq<u8>) -> nat
    decreases b.len(),
{
    if b.len() == 0 {
        0
    } else {
        b[0] as nat + 256 * le_value(b.drop_first())
    }
}

/// `256` to the power `n`.
pub open spec fn pow256(n: nat) -> nat
    decreases n,
{
    if n == 0 {
        1
    } else {
        256 * pow256((n - 1) as nat)
    }
}

/// Hex SHA-256 of the UTF-8 bytes of `content`.
pub open spec fn content_hash_of(content: Seq<char>) -> Seq<char> {
    hex_lower(sha256(encode_utf8(content)))
}

/// Stable numeric identifier of chunk `index` of `uri`: the little-endian value of the first
/// eight bytes of the SHA-256 of `"<uri>:<index>"`.
pub open spec fn point_id_of(uri: Seq<char>, index: nat) -> nat {
    le_value(sha256(encode_utf8(uri + ":"@ + decimal(index))).take(8))
}

/// Extensions of the files a filesystem source reads.
pub open spec fn supported_extension(e: Seq<char>) -> bool {
    e == "md"@ || e == "txt"@ || e == "html"@ || e == "htm"@ || e == "pdf"@
}

/// The path names a file that a filesystem source reads.
pub open spec fn is_supported_path(p: Seq<char>) -> bool {
    path_extension(p) matches Some(e) && supported_extension(e)
}

/// The path's extension is `ext`, ignoring ASCII case.
pub open spec fn has_extension_spec(p: Seq<char>, ext: Seq<char>) -> bool {
    path_extension(p) matches Some(e) && eq_ignore_ascii_case(e, ext)
}

/// Title of a document at `uri`: its file name, or the whole URI when it has none.
pub open spec fn title_of(uri: Seq<char>) -> Seq<char> {
    match path_file_name(uri) {
        Some(n) => n,
        None => uri,
    }
}

/// SHA-256 of `data` (sha2 `Sha256::digest`); the digest is 32 bytes long.
#[verifier::external_body]
fn sha256_digest(data: &[u8]) -> (d: Vec<u8>)
    ensures
        d@ == sha256(data@),
        d@.len() == 32,
{
    Sha256::digest(data).to_vec()
}

/// Lowercase hex encoding (hex `encode`): two digits per byte, high nibble first.
#[verifier::external_body]
fn hex_encode(data: &[u8]) -> (s: String)
    ensures
        s@ == hex_lower(data@),
{
    hex::encode(data)
}

/// Extension of the last path component (std `Path::extension`), when it is valid UTF-8.
#[verifier::external_body]
fn extension_of(path: &str) -> (e: Option<String>)
    ensures
        match e {
            Some(s) => path_extension(path@) == Some(s@),
            None => path_extension(path@) is None,
        },
{
    std::path::Path::new(path).extension().and_then(|e| e.to_str()).map(|e| e.to_string())
}

/// Last path component (std `Path::file_name`), converted lossily to a string.
#[verifier::external_body]
fn file_name_of(path: &str) -> (n: Option<String>)
    ensures
        match n {
            Some(s) => path_file_name(path@) == Some(s@),
            None => path_file_name(path@) is None,
        },
{
    std::path::Path::new(path).file_name().map(|n| n.to_string_lossy().into_owned())
}

/// Hex SHA-256 of the UTF-8 bytes of `content`.
pub fn hash_content(content: &str) -> (h: String)
    ensures
        h@ == content_hash_of(content@),
{
    let digest = sha256_digest(content.as_bytes());
    hex_encode(digest.as_slice())
}

/// Hex SHA-256 of `data`.
pub fn hash_bytes(data: &[u8]) -> (h: String)
    ensures
        h@ == hex_lower(sha256(data@)),
{
    let digest = sha256_digest(data);
    hex_encode(digest.as_slice())
}

proof fn lemma_le_value_bound(b: Seq<u8>)
    ensures
        le_value(b) < pow256(b.len()),
    decreases b.len(),
{
    if b.len() > 0 {
        lemma_le_value_bound(b.drop_first());
        let r = le_value(b.drop_first());
        let p = pow256((b.len() - 1) as nat);
        assert(b[0] as nat + 256 * r < 256 * p) by (nonlinear_arith)
            requires
                r < p,
                b[0] < 256,
        ;
    }
}

/// The little-endian value of the first eight bytes of a digest.
pub fn point_id_from_digest(digest: &Vec<u8>) -> (id: u64)
    requires
        digest@.len() >= 8,
    ensures
        id as nat == le_value(digest@.take(8)),
{
    let ghost first = digest@.take(8);
    let mut acc: u64 = 0;
    let mut i: usize = 8;
    proof {
        assert(first.subrange(8, 8) =~= Seq::<u8>::empty());
        reveal_with_fuel(pow256, 9);
    }
    while i > 0
        invariant
            i <= 8,
            digest@.len() >= 8,
            first == digest@.take(8),
            acc as nat == le_value(first.subrange(i as int, 8)),
        decreases i,
    {
        i -= 1;
        let ghost tail = first.subrange(i as int, 8);
        proof {
            assert(tail.drop_first() =~= first.subrange(i + 1, 8));
            lemma_le_value_bound(tail);
            assert(pow256(tail.len()) <= pow256(8)) by {
                lemma_pow256_mono(tail.len(), 8);
            }
            reveal_with_fuel(pow256, 9);
            assert(pow256(8) == 0x1_0000_0000_0000_0000nat);
        }
        let b = digest[i] as u64;
        assert(tail[0] == digest@[i as int]);
        acc = b + 256 * acc;
    }
    assert(first.subrange(0, 8) =~= first);
    acc
}

/// Stable numeric point identifier of chunk `chunk_index` of `source_uri`.
pub fn chunk_point_id(source_uri: &str, chunk_index: usize) -> (id: u64)
    ensures
        id as nat == point_id_of(source_uri@, chunk_index as nat),
{
    let mut key = owned(source_uri);
    key.append(":");
    push_decimal(&mut key, chunk_index);
    let digest = sha256_digest(key.as_str().as_bytes());
    point_id_from_digest(&digest)
}

proof fn lemma_pow256_mono(a: nat, b: nat)
    requires
        a <= b,
    ensures
        pow256(a) <= pow256(b),
    decreases b,
{
    if a < b {
        lemma_pow256_mono(a, (b - 1) as nat);
    }
}

/// Whether `ext` is the extension of a file that a filesystem source reads (`md`, `txt`,
/// `html`, `htm`, `pdf`, case-sensitive).
pub fn is_supported_extension(ext: &str) -> (r: bool)
    ensures
        r == supported_extension(ext@),
{
    str_eq(ext, "md") || str_eq(ext, "txt") || str_eq(ext, "html") || str_eq(ext, "htm") || str_eq(ext, "pdf")
}

/// Whether `path` names a file that a filesystem source reads.
pub fn is_supported_doc(path: &str) -> (r: bool)
    ensures
        r == is_supported_path(path@),
{
    match extension_of(path) {
        None => false,
        Some(e) => is_supported_extension(e.as_str()),
    }
}

/// Whether `path` has extension `ext`, ignoring ASCII case.
pub fn has_extension(path: &str, ext: &str) -> (r: bool)
    ensures
        r == has_extension_spec(path@, ext@),
{
    match extension_of(path) {
        None => false,
        Some(e) => str_eq_ignore_ascii_case(e.as_str(), ext),
    }
}

/// Whether `path` names a YAML file (`.yaml` or `.yml`, case-sensitive).
pub fn is_yaml(path: &str) -> (r: bool)
    ensures
        r == (path_extension(path@) matches Some(e) && (e == "yaml"@ || e == "yml"@)),
{
    match extension_of(path) {
        None => false,
        Some(e) => str_eq(e.as_str(), "yaml") || str_eq(e.as_str(), "yml"),
    }
}

/// Content that stands for a PDF file until its text is extracted: `__pdf__:<path>`.
pub fn pdf_placeholder(path: &str) -> (s: String)
    ensures
        s@ == "__pdf__:"@ + path@,
{
    let mut s = owned("__pdf__:");
    s.append(path);
    s
}

/// Title of a document at `uri`: its file name, or the whole URI.
pub fn document_title(uri: &str) -> (t: String)
    ensures
        t@ == title_of(uri@),
{
    match file_name_of(uri) {
        Some(n) => n,
        None => owned(uri),
    }
}

/// A raw document for the file at `uri`, identified by its content hash.
pub fn make_raw_document(uri: String, content: String, content_hash: String) -> (d: RawDocument)
    ensures
        d.id@ == content_hash@,
        d.uri@ == uri@,
        d.title@ == title_of(uri@),
        d.content@ == content@,
        d.content_hash@ == content_hash@,
{
    let title = document_title(uri.as_str());
    let id = owned(content_hash.as_str());
    RawDocument { id, uri, title, content, content_hash }
}

/// `a` sorts before or together with `b`: lexicographic order of code points, a prefix first
/// (the order of `String`).
pub open spec fn lex_le(a: Seq<char>, b: Seq<char>) -> bool
    decreases a.len(),
{
    if a.len() == 0 {
        true
    } else if b.len() == 0 {
        false
    } else if a[0] != b[0] {
        (a[0] as u32) < (b[0] as u32)
    } else {
        lex_le(a.drop_first(), b.drop_first())
    }
}

/// Documents in order of their URIs.
pub open spec fn sorted_by_uri(s: Seq<RawDocument>) -> bool {
    forall|i: int, j: int| 0 <= i < j < s.len() ==> lex_le(#[trigger] s[i].uri@, #[trigger] s[j].uri@)
}

proof fn lemma_lex_total(a: Seq<char>, b: Seq<char>)
    ensures
        lex_le(a, b) || lex_le(b, a),
    decreases a.len(),
{
    if a.len() > 0 && b.len() > 0 {
        if a[0] == b[0] {
            lemma_lex_total(a.drop_first(), b.drop_first());
        } else if (a[0] as u32) == (b[0] as u32) {
            vstd::utf8::char_u32_cast(a[0], a[0] as u32);
            vstd::utf8::char_u32_cast(b[0], b[0] as u32);
        }
    }
}

proof fn lemma_lex_trans(a: Seq<char>, b: Seq<char>, c: Seq<char>)
    requires
        lex_le(a, b),
        lex_le(b, c),
    ensures
        lex_le(a, c),
    decreases a.len(),
{
    if a.len() > 0 && b.len() > 0 && c.len() > 0 && a[0] == b[0] && b[0] == c[0] {
        lemma_lex_trans(a.drop_first(), b.drop_first(), c.drop_first());
    }
}

proof fn lemma_lex_skip(a: Seq<char>, b: Seq<char>, i: int)
    requires
        0 <= i <= a.len(),
        i <= b.len(),
        forall|j: int| 0 <= j < i ==> a[j] == b[j],
    ensures
        lex_le(a, b) == lex_le(a.skip(i), b.skip(i)),
    decreases i,
{
    if i > 0 {
        assert(a[0] == b[0]);
        lemma_lex_skip(a.drop_first(), b.drop_first(), i - 1);
        assert(a.drop_first().skip(i - 1) =~= a.skip(i));
        assert(b.drop_first().skip(i - 1) =~= b.skip(i));
    } else {
        assert(a.skip(0) =~= a);
        assert(b.skip(0) =~= b);
    }
}

/// Whether `a` sorts before or together with `b` (std `str` ordering).
pub fn str_le(a: &str, b: &str) -> (r: bool)
    ensures
        r == lex_le(a@, b@),
{
    let x = chars_of(a);
    let y = chars_of(b);
    let mut i: usize = 0;
    while i < x.len() && i < y.len() && x[i] == y[i]
        invariant
            x@ == a@,
            y@ == b@,
            i <= x.len(),
            i <= y.len(),
            forall|j: int| 0 <= j < i ==> x@[j] == y@[j],
        decreases x.len() - i,
    {
        i += 1;
    }
    proof {
        lemma_lex_skip(x@, y@, i as int);
        if i < x.len() {
            assert(x@.skip(i as int)[0] == x@[i as int]);
        }
        if i < y.len() {
            assert(y@.skip(i as int)[0] == y@[i as int]);
        }
    }
    if i == x.len() {
        true
    } else if i == y.len() {
        false
    } else {
        (x[i] as u32) < (y[i] as u32)
    }
}

/// Whether a document's URI is `k`.
pub open spec fn has_uri(k: Seq<char>) -> spec_fn(RawDocument) -> bool {
    |d: RawDocument| d.uri@ == k
}

/// The documents of `s` whose URI is `k`, in order.
pub open spec fn docs_with_uri(s: Seq<RawDocument>, k: Seq<char>) -> Seq<RawDocument> {
    s.filter(has_uri(k))
}

proof fn lemma_docs_with_uri_add(a: Seq<RawDocument>, b: Seq<RawDocument>, k: Seq<char>)
    ensures
        docs_with_uri(a + b, k) == docs_with_uri(a, k) + docs_with_uri(b, k),
{
    Seq::filter_distributes_over_add(a, b, has_uri(k));
}

proof fn lemma_lex_refl(a: Seq<char>)
    ensures
        lex_le(a, a),
    decreases a.len(),
{
    if a.len() > 0 {
        lemma_lex_refl(a.drop_first());
    }
}

proof fn lemma_docs_with_uri_single(x: RawDocument, k: Seq<char>)
    ensures
        docs_with_uri(seq![x], k) == (if x.uri@ == k { seq![x] } else { Seq::<RawDocument>::empty() }),
{
    reveal_with_fuel(Seq::filter, 2);
    assert(seq![x].drop_last() =~= Seq::<RawDocument>::empty());
}

proof fn lemma_docs_with_uri_none(s: Seq<RawDocument>, k: Seq<char>)
    requires
        forall|j: int| 0 <= j < s.len() ==> (#[trigger] s[j]).uri@ != k,
    ensures
        docs_with_uri(s, k) == Seq::<RawDocument>::empty(),
{
    s.lemma_all_neg_filter_empty(has_uri(k));
    assert(s.filter(has_uri(k)).len() == 0);
    assert(docs_with_uri(s, k) =~= Seq::<RawDocument>::empty());
}

/// The documents ordered by URI; documents with equal URIs keep their relative order.
pub fn sort_by_uri(docs: Vec<RawDocument>) -> (out: Vec<RawDocument>)
    ensures
        out@.to_multiset() == docs@.to_multiset(),
        sorted_by_uri(out@),
        forall|k: Seq<char>| #[trigger] docs_with_uri(out@, k) == docs_with_uri(docs@, k),
{
    broadcast use vstd::seq_lib::group_to_multiset_ensures, vstd::multiset::group_multiset_axioms;
    let ghost all = docs@;
    let mut rest = docs;
    let mut out: Vec<RawDocument> = Vec::new();
    assert(out@.to_multiset() =~= Multiset::empty());
    assert(rest@.to_multiset().add(out@.to_multiset()) =~= all.to_multiset());
    assert(all.skip(all.len() as int) =~= Seq::<RawDocument>::empty());
    assert(all.take(all.len() as int) =~= all);
    assert forall|k: Seq<char>| #[trigger] docs_with_uri(out@, k) == docs_with_uri(all.skip(rest@.len() as int), k) by {
        assert(out@ =~= all.skip(rest@.len() as int));
    }
    while rest.len() > 0
        invariant
            rest@.to_multiset().add(out@.to_multiset()) == all.to_multiset(),
            sorted_by_uri(out@),
            rest@.len() <= all.len(),
            rest@ == all.take(rest@.len() as int),
            forall|k: Seq<char>| #[trigger] docs_with_uri(out@, k) == docs_with_uri(all.skip(rest@.len() as int), k),
        decreases rest.len(),
    {
        let ghost before = rest@;
        let x = rest.pop().unwrap();
        assert(before == rest@.push(x));
        let mut p: usize = 0;
        while p < out.len() && !str_le(x.uri.as_str(), out[p].uri.as_str())
            invariant
                p <= out.len(),
                forall|j: int| 0 <= j < p ==> !lex_le(x.uri@, #[trigger] out@[j].uri@),
            decreases out.len() - p,
        {
            p += 1;
        }
        let ghost old_out = out@;
        proof {
            assert forall|j: int| 0 <= j < p implies lex_le(#[trigger] old_out[j].uri@, x.uri@) by {
                lemma_lex_total(x.uri@, old_out[j].uri@);
            }
            assert forall|j: int| p <= j < old_out.len() implies lex_le(x.uri@, #[trigger] old_out[j].uri@) by {
                if j > p {
                    lemma_lex_trans(x.uri@, old_out[p as int].uri@, old_out[j].uri@);
                }
            }
        }
        out.insert(p, x);
        proof {
            let n = out@;
            assert forall|i: int, j: int| 0 <= i < j < n.len() implies lex_le(#[trigger] n[i].uri@, #[trigger] n[j].uri@) by {
                if j < p {
                    assert(n[i] == old_out[i] && n[j] == old_out[j]);
                } else if j == p {
                    assert(n[i] == old_out[i]);
                } else if i < p {
                    assert(n[i] == old_out[i] && n[j] == old_out[j - 1]);
                    lemma_lex_trans(old_out[i].uri@, x.uri@, old_out[j - 1].uri@);
                } else if i == p {
                    assert(n[j] == old_out[j - 1]);
                } else {
                    assert(n[i] == old_out[i - 1] && n[j] == old_out[j - 1]);
                }
            }
            assert(n == old_out.insert(p as int, x));
            vstd::seq_lib::to_multiset_insert(old_out, p as int, x);
            vstd::seq_lib::to_multiset_build(rest@, x);
            assert(before.to_multiset() =~= rest@.to_multiset().insert(x));
            assert(rest@.to_multiset().add(n.to_multiset()) =~= before.to_multiset().add(old_out.to_multiset()));
            let r = rest@.len() as int;
            assert(rest@ =~= all.take(r)) by {
                assert(before == all.take(r + 1));
            }
            assert(all.skip(r) =~= seq![x] + all.skip(r + 1)) by {
                assert(before == all.take(r + 1));
                assert(all[r] == before[r]);
            }
            assert(n =~= old_out.take(p as int) + seq![x] + old_out.skip(p as int));
            assert forall|k: Seq<char>| #[trigger] docs_with_uri(n, k) == docs_with_uri(all.skip(r), k) by {
                let a = old_out.take(p as int);
                let b = old_out.skip(p as int);
                lemma_docs_with_uri_add(a + seq![x], b, k);
                lemma_docs_with_uri_add(a, seq![x], k);
                lemma_docs_with_uri_add(seq![x], all.skip(r + 1), k);
                lemma_docs_with_uri_add(a, b, k);
                assert(old_out =~= a + b);
                lemma_docs_with_uri_single(x, k);
                if x.uri@ == k {
                    assert forall|j: int| 0 <= j < a.len() implies (#[trigger] a[j]).uri@ != k by {
                        assert(a[j] == old_out[j]);
                        lemma_lex_refl(x.uri@);
                    }
                    lemma_docs_with_uri_none(a, k);
                    assert(docs_with_uri(n, k) =~= seq![x] + docs_with_uri(b, k));
                    assert(docs_with_uri(old_out, k) =~= docs_with_uri(b, k));
                } else {
                    assert(docs_with_uri(n, k) =~= docs_with_uri(a, k) + docs_with_uri(b, k));
                }
            }
        }
    }
    proof {
        assert(rest@.to_multiset().len() == 0);
        assert(rest@.to_multiset() =~= Multiset::empty());
        assert(rest@.to_multiset().add(out@.to_multiset()) =~= out@.to_multiset());
        assert(all.skip(0) =~= all);
    }
    out
}

/// Reads the files under a base directory that match a glob pattern.
pub struct FilesystemSource {
    pub base_path: String,
    pub pattern: String,
    pub max_file_size_bytes: u64,
}

impl FilesystemSource {
    /// A source over `base_path` and `pattern` that skips files larger than `max_file_size_bytes`.
    pub fn new(base_path: String, pattern: String, max_file_size_bytes: u64) -> (s: FilesystemSource)
        ensures
            s.base_path@ == base_path@,
            s.pattern@ == pattern@,
            s.max_file_size_bytes == max_file_size_bytes,
    {
        FilesystemSource { base_path, pattern, max_file_size_bytes }
    }

    /// Whether a file at `path` of `size` bytes is read: its extension is supported and it is
    /// not larger than the limit.
    pub fn accepts(&self, path: &str, size: u64) -> (r: bool)
        ensures
            r == (is_supported_path(path@) && size <= self.max_file_size_bytes),
    {
        is_supported_doc(path) && size <= self.max_file_size_bytes
    }
}

/// Law: a filesystem source reads exactly the files whose extension is `md`, `txt`, `html`,
/// `htm` or `pdf` (case-sensitive), and no other.
pub proof fn law_supported_extensions(e: Seq<char>, path: Seq<char>)
    ensures
        supported_extension(e) <==> (e == "md"@ || e == "txt"@ || e == "html"@ || e == "htm"@ || e == "pdf"@),
        is_supported_path(path) <==> (path_extension(path) matches Some(x) && (x == "md"@ || x == "txt"@ || x == "html"@ || x == "htm"@ || x == "pdf"@)),
{
}

} // verus!
