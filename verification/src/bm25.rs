use vstd::prelude::*;
use crate::text::{byte_len, chars_of, str_eq, string_of_range, utf8_len};

verus! {

/// Lowercase of `s` as `str::to_lowercase` maps it (Unicode case mapping).
pub uninterp spec fn lowercase(s: Seq<char>) -> Seq<char>;

/// Whether `c` is alphabetic or numeric in Unicode, as `char::is_alphanumeric` says.
pub uninterp spec fn alphanumeric(c: char) -> bool;

/// Lowercase of `s` (std `str::to_lowercase`).
#[verifier::external_body]
fn to_lowercase(s: &str) -> (r: String)
    ensures
        r@ == lowercase(s@),
{
    s.to_lowercase()
}

/// Whether `c` is alphanumeric (std `char::is_alphanumeric`).
#[verifier::external_body]
fn is_alphanumeric(c: char) -> (r: bool)
    ensures
        r == alphanumeric(c),
{
    c.is_alphanumeric()
}

/// The pieces of `s[start..]` between non-alphanumeric characters, scanning from `i`.
pub open spec fn word_pieces(s: Seq<char>, start: int, i: int) -> Seq<Seq<char>>
    decreases s.len() - i,
{
    if i < 0 || i >= s.len() {
        seq![s.subrange(start, s.len() as int)]
    } else if !alphanumeric(s[i]) {
        seq![s.subrange(start, i)] + word_pieces(s, i + 1, i + 1)
    } else {
        word_pieces(s, start, i + 1)
    }
}

/// Keeps the pieces longer than one byte.
pub open spec fn long_pieces(p: Seq<Seq<char>>) -> Seq<Seq<char>> {
    p.filter(|t: Seq<char>| utf8_len(t) > 1)
}

/// The keyword tokens of `text`: the lowercase text split at every non-alphanumeric character,
/// keeping the pieces of more than one byte.
pub open spec fn tokens_of(text: Seq<char>) -> Seq<Seq<char>> {
    let l = lowercase(text);
    long_pieces(word_pieces(l, 0, 0))
}

fn push_long(out: &mut Vec<String>, piece: String)
    ensures
        final(out)@.map_values(|x: String| x@) == old(out)@.map_values(|x: String| x@) + long_pieces(seq![piece@]),
{
    let ghost p = piece@;
    proof {
        reveal_with_fuel(Seq::filter, 2);
        assert(seq![p].drop_last() =~= Seq::<Seq<char>>::empty());
    }
    if byte_len(piece.as_str()) > 1 {
        out.push(piece);
        assert(out@.map_values(|x: String| x@) =~= old(out)@.map_values(|x: String| x@) + long_pieces(seq![p]));
    } else {
        assert(out@.map_values(|x: String| x@) =~= old(out)@.map_values(|x: String| x@) + long_pieces(seq![p]));
    }
}

/// Keyword tokens of `text` for BM25 scoring.
pub fn tokenize(text: &str) -> (out: Vec<String>)
    ensures
        out@.map_values(|x: String| x@) == tokens_of(text@),
{
    let lower = to_lowercase(text);
    word_tokens(lower.as_str())
}

/// The pieces of `lower` between non-alphanumeric characters that are longer than one byte.
pub fn word_tokens(lower: &str) -> (out: Vec<String>)
    ensures
        out@.map_values(|x: String| x@) == long_pieces(word_pieces(lower@, 0, 0)),
{
    let v = chars_of(lower);
    let ghost s = lower@;
    let n = v.len();
    let mut out: Vec<String> = Vec::new();
    let mut start: usize = 0;
    let mut i: usize = 0;
    while i < n
        invariant
            v@ == s,
            s == lower@,
            n == s.len(),
            start <= i <= n,
            long_pieces(word_pieces(lower@, 0, 0)) == out@.map_values(|x: String| x@) + long_pieces(word_pieces(s, start as int, i as int)),
        decreases n - i,
    {
        if !is_alphanumeric(v[i]) {
            let piece = string_of_range(&v, start, i);
            proof {
                Seq::filter_distributes_over_add(
                    seq![s.subrange(start as int, i as int)],
                    word_pieces(s, (i + 1) as int, (i + 1) as int),
                    |t: Seq<char>| utf8_len(t) > 1,
                );
            }
            push_long(&mut out, piece);
            start = i + 1;
        }
        i += 1;
    }
    let piece = string_of_range(&v, start, n);
    push_long(&mut out, piece);
    assert(out@.map_values(|x: String| x@) =~= long_pieces(word_pieces(lower@, 0, 0)));
    out
}

/// The texts of a list of strings.
pub open spec fn token_views(v: Seq<String>) -> Seq<Seq<char>> {
    v.map_values(|s: String| s@)
}

/// The token lists of a list of tokenized documents.
pub open spec fn token_lists(d: Seq<Vec<String>>) -> Seq<Seq<Seq<char>>> {
    d.map_values(|x: Vec<String>| token_views(x@))
}

/// The keyword tokens of each document.
pub open spec fn document_tokens(docs: Seq<String>) -> Seq<Seq<Seq<char>>> {
    docs.map_values(|s: String| tokens_of(s@))
}

/// How often `term` occurs in `tokens`.
pub open spec fn term_count(tokens: Seq<Seq<char>>, term: Seq<char>) -> nat
    decreases tokens.len(),
{
    if tokens.len() == 0 {
        0
    } else {
        term_count(tokens.drop_last(), term) + (if tokens.last() == term { 1nat } else { 0nat })
    }
}

/// In how many of the token lists `docs` the term occurs.
pub open spec fn doc_freq(docs: Seq<Seq<Seq<char>>>, term: Seq<char>) -> nat
    decreases docs.len(),
{
    if docs.len() == 0 {
        0
    } else {
        doc_freq(docs.drop_last(), term) + (if docs.last().contains(term) { 1nat } else { 0nat })
    }
}

/// How often `term` occurs among `tokens`.
pub fn count_term(tokens: &Vec<String>, term: &str) -> (n: usize)
    ensures
        n == term_count(token_views(tokens@), term@),
{
    let ghost s = token_views(tokens@);
    let mut n: usize = 0;
    let mut i: usize = 0;
    while i < tokens.len()
        invariant
            i <= tokens.len(),
            s == token_views(tokens@),
            n <= i,
            n == term_count(s.take(i as int), term@),
        decreases tokens.len() - i,
    {
        proof {
            assert(s.take(i + 1).drop_last() =~= s.take(i as int));
            assert(s.take(i + 1).last() == tokens@[i as int]@);
        }
        if str_eq(tokens[i].as_str(), term) {
            n += 1;
        }
        i += 1;
    }
    assert(s.take(tokens.len() as int) =~= s);
    n
}

/// Whether `term` is one of `tokens`.
pub fn holds_term(tokens: &Vec<String>, term: &str) -> (r: bool)
    ensures
        r == token_views(tokens@).contains(term@),
{
    let ghost s = token_views(tokens@);
    let mut i: usize = 0;
    while i < tokens.len()
        invariant
            i <= tokens.len(),
            s == token_views(tokens@),
            forall|j: int| 0 <= j < i ==> s[j] != term@,
        decreases tokens.len() - i,
    {
        if str_eq(tokens[i].as_str(), term) {
            assert(s[i as int] == term@);
            return true;
        }
        i += 1;
    }
    false
}

/// In how many of the token lists `docs` the term occurs.
pub fn document_frequency(docs: &Vec<Vec<String>>, term: &str) -> (n: usize)
    ensures
        n == doc_freq(token_lists(docs@), term@),
{
    let ghost d = token_lists(docs@);
    let mut n: usize = 0;
    let mut i: usize = 0;
    while i < docs.len()
        invariant
            i <= docs.len(),
            d == token_lists(docs@),
            n <= i,
            n == doc_freq(d.take(i as int), term@),
        decreases docs.len() - i,
    {
        proof {
            assert(d.take(i + 1).drop_last() =~= d.take(i as int));
            assert(d.take(i + 1).last() == token_views(docs@[i as int]@));
        }
        if holds_term(&docs[i], term) {
            n += 1;
        }
        i += 1;
    }
    assert(d.take(docs.len() as int) =~= d);
    n
}

/// The counts that BM25 weighs: the query's terms, and for the documents their token counts,
/// the number of documents holding each query term, and each term's occurrences per document.
pub struct Bm25Counts {
    pub query_terms: Vec<String>,
    pub doc_lengths: Vec<usize>,
    pub doc_freqs: Vec<usize>,
    pub term_freqs: Vec<Vec<usize>>,
}

/// `c` holds the BM25 counts of query terms `q` over document token lists `d`.
pub open spec fn bm25_counts_of(c: Bm25Counts, q: Seq<Seq<char>>, d: Seq<Seq<Seq<char>>>) -> bool {
    &&& token_views(c.query_terms@) == q
    &&& c.doc_lengths@.len() == d.len()
    &&& forall|i: int| 0 <= i < d.len() ==> #[trigger] c.doc_lengths@[i] == d[i].len()
    &&& c.doc_freqs@.len() == q.len()
    &&& forall|j: int| 0 <= j < q.len() ==> #[trigger] c.doc_freqs@[j] == doc_freq(d, q[j])
    &&& c.term_freqs@.len() == d.len()
    &&& forall|i: int| 0 <= i < d.len() ==> (#[trigger] c.term_freqs@[i])@.len() == q.len()
    &&& forall|i: int, j: int| 0 <= i < d.len() && 0 <= j < q.len() ==> #[trigger] c.term_freqs@[i]@[j] == term_count(d[i], q[j])
}

/// Tokenizes each document.
pub fn tokenize_all(documents: &Vec<String>) -> (out: Vec<Vec<String>>)
    ensures
        token_lists(out@) == document_tokens(documents@),
{
    let mut out: Vec<Vec<String>> = Vec::new();
    let mut i: usize = 0;
    while i < documents.len()
        invariant
            i <= documents.len(),
            out@.len() == i,
            forall|k: int| 0 <= k < i ==> token_views(#[trigger] out@[k]@) == tokens_of(documents@[k]@),
        decreases documents.len() - i,
    {
        let t = tokenize(documents[i].as_str());
        out.push(t);
        i += 1;
    }
    assert(token_lists(out@) =~= document_tokens(documents@));
    out
}

/// The BM25 counts of `query` against `documents`.
pub fn bm25_counts(query: &str, documents: &Vec<String>) -> (c: Bm25Counts)
    ensures
        bm25_counts_of(c, tokens_of(query@), document_tokens(documents@)),
{
    let query_terms = tokenize(query);
    let doc_tokens = tokenize_all(documents);
    let ghost q = token_views(query_terms@);
    let ghost d = token_lists(doc_tokens@);
    let mut doc_lengths: Vec<usize> = Vec::new();
    let mut term_freqs: Vec<Vec<usize>> = Vec::new();
    let mut i: usize = 0;
    while i < doc_tokens.len()
        invariant
            i <= doc_tokens.len(),
            q == token_views(query_terms@),
            d == token_lists(doc_tokens@),
            doc_lengths@.len() == i,
            term_freqs@.len() == i,
            forall|k: int| 0 <= k < i ==> #[trigger] doc_lengths@[k] == d[k].len(),
            forall|k: int| 0 <= k < i ==> (#[trigger] term_freqs@[k])@.len() == q.len(),
            forall|k: int, j: int| 0 <= k < i && 0 <= j < q.len() ==> #[trigger] term_freqs@[k]@[j] == term_count(d[k], q[j]),
        decreases doc_tokens.len() - i,
    {
        let tokens = &doc_tokens[i];
        assert(d[i as int] == token_views(tokens@));
        let mut row: Vec<usize> = Vec::new();
        let mut j: usize = 0;
        while j < query_terms.len()
            invariant
                j <= query_terms.len(),
                q == token_views(query_terms@),
                d[i as int] == token_views(tokens@),
                row@.len() == j,
                forall|t: int| 0 <= t < j ==> #[trigger] row@[t] == term_count(d[i as int], q[t]),
            decreases query_terms.len() - j,
        {
            let n = count_term(tokens, query_terms[j].as_str());
            row.push(n);
            j += 1;
        }
        doc_lengths.push(tokens.len());
        term_freqs.push(row);
        i += 1;
    }
    let mut doc_freqs: Vec<usize> = Vec::new();
    let mut j: usize = 0;
    while j < query_terms.len()
        invariant
            j <= query_terms.len(),
            q == token_views(query_terms@),
            d == token_lists(doc_tokens@),
            doc_freqs@.len() == j,
            forall|t: int| 0 <= t < j ==> #[trigger] doc_freqs@[t] == doc_freq(d, q[t]),
        decreases query_terms.len() - j,
    {
        let n = document_frequency(&doc_tokens, query_terms[j].as_str());
        doc_freqs.push(n);
        j += 1;
    }
    Bm25Counts { query_terms, doc_lengths, doc_freqs, term_freqs }
}

proof fn lemma_term_count_holds(tokens: Seq<Seq<char>>, term: Seq<char>, k: int)
    requires
        0 <= k < tokens.len(),
        tokens[k] == term,
    ensures
        term_count(tokens, term) >= 1,
    decreases tokens.len(),
{
    if k < tokens.len() - 1 {
        assert(tokens.drop_last()[k] == term);
        lemma_term_count_holds(tokens.drop_last(), term, k);
    }
}

/// Law: documents are tokenized as the query is, lowercased: the tokens of each document are
/// the pieces of its lowercase text; so a document whose text is the query holds every query
/// term at least once.
pub proof fn law_documents_tokenized_like_query(query: Seq<char>, docs: Seq<String>, i: int)
    requires
        0 <= i < docs.len(),
    ensures
        document_tokens(docs)[i] == long_pieces(word_pieces(lowercase(docs[i]@), 0, 0)),
        docs[i]@ == query ==> document_tokens(docs)[i] == tokens_of(query),
        docs[i]@ == query ==> forall|j: int| 0 <= j < tokens_of(query).len() ==> term_count(document_tokens(docs)[i], #[trigger] tokens_of(query)[j]) >= 1,
{
    if docs[i]@ == query {
        assert forall|j: int| 0 <= j < tokens_of(query).len() implies term_count(document_tokens(docs)[i], #[trigger] tokens_of(query)[j]) >= 1 by {
            lemma_term_count_holds(document_tokens(docs)[i], tokens_of(query)[j], j);
        }
    }
}

/// Law: a term's count in a token list is at most the list's length, and it is positive exactly
/// when the term is one of the tokens.
pub proof fn law_term_count_bounds(tokens: Seq<Seq<char>>, term: Seq<char>)
    ensures
        term_count(tokens, term) <= tokens.len(),
        term_count(tokens, term) > 0 <==> tokens.contains(term),
    decreases tokens.len(),
{
    if tokens.len() > 0 {
        let p = tokens.drop_last();
        law_term_count_bounds(p, term);
        if p.contains(term) {
            let k = choose|k: int| 0 <= k < p.len() && p[k] == term;
            assert(tokens[k] == term);
        }
        if tokens.contains(term) && tokens.last() != term {
            let k = choose|k: int| 0 <= k < tokens.len() && tokens[k] == term;
            assert(p[k] == term);
        }
        if tokens.last() == term {
            assert(tokens[tokens.len() - 1] == term);
        }
    }
}

/// Law: a term's document frequency is at most the number of documents, and it is positive
/// exactly when some document holds the term.
pub proof fn law_doc_freq_bounds(docs: Seq<Seq<Seq<char>>>, term: Seq<char>)
    ensures
        doc_freq(docs, term) <= docs.len(),
        doc_freq(docs, term) > 0 <==> exists|i: int| 0 <= i < docs.len() && #[trigger] docs[i].contains(term),
    decreases docs.len(),
{
    if docs.len() > 0 {
        let p = docs.drop_last();
        law_doc_freq_bounds(p, term);
        if exists|i: int| 0 <= i < p.len() && #[trigger] p[i].contains(term) {
            let i = choose|i: int| 0 <= i < p.len() && #[trigger] p[i].contains(term);
            assert(docs[i] == p[i]);
        }
        if exists|i: int| 0 <= i < docs.len() && #[trigger] docs[i].contains(term) {
            let i = choose|i: int| 0 <= i < docs.len() && #[trigger] docs[i].contains(term);
            if i < docs.len() - 1 {
                assert(p[i] == docs[i]);
            }
        }
        if docs.last().contains(term) {
            assert(docs[docs.len() - 1].contains(term));
        }
    }
}

} // verus!
