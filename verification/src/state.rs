use vstd::prelude::*;
use vstd::string::StringExecFns;
use crate::text::{owned, str_eq, str_starts_with};

verus! {

/// Map from source URI to the content hash recorded when it was last indexed.
pub open spec fn entries_map(s: Seq<(String, String)>) -> Map<Seq<char>, Seq<char>>
    decreases s.len(),
{
    if s.len() == 0 {
        Map::empty()
    } else {
        entries_map(s.drop_last()).insert(s.last().0@, s.last().1@)
    }
}

/// No source URI occurs twice among `s`.
pub open spec fn distinct_keys(s: Seq<(String, String)>) -> bool {
    forall|i: int, j: int| 0 <= i < s.len() && 0 <= j < s.len() && i != j ==> #[trigger] s[i].0@ != #[trigger] s[j].0@
}

/// Whether `uri` was indexed with exactly `hash`.
pub open spec fn unchanged(m: Map<Seq<char>, Seq<char>>, uri: Seq<char>, hash: Seq<char>) -> bool {
    m.contains_key(uri) && m[uri] == hash
}

/// Where a pipeline keeps its index state: `.rustyrag/<name>.json`, or `<name>.json` when the name
/// is an absolute Unix path (joining an absolute path replaces the base).
pub open spec fn state_path(name: Seq<char>) -> Seq<char> {
    if name.len() > 0 && name[0] == '/' {
        name + ".json"@
    } else {
        ".rustyrag/"@ + name + ".json"@
    }
}

/// `s[i]` is recorded under source URI `k`.
pub open spec fn key_at(s: Seq<(String, String)>, k: Seq<char>, i: int) -> bool {
    0 <= i < s.len() && s[i].0@ == k
}

proof fn lemma_entries_map(s: Seq<(String, String)>)
    requires
        distinct_keys(s),
    ensures
        forall|k: Seq<char>| #[trigger] entries_map(s).contains_key(k) <==> exists|i: int| #[trigger] key_at(s, k, i),
        forall|i: int| 0 <= i < s.len() ==> #[trigger] entries_map(s)[s[i].0@] == s[i].1@,
    decreases s.len(),
{
    if s.len() > 0 {
        let t = s.drop_last();
        assert(distinct_keys(t)) by {
            assert forall|i: int, j: int| 0 <= i < t.len() && 0 <= j < t.len() && i != j implies #[trigger] t[i].0@ != #[trigger] t[j].0@ by {
                assert(t[i] == s[i] && t[j] == s[j]);
            }
        }
        lemma_entries_map(t);
        let last = s.last().0@;
        assert forall|k: Seq<char>| #[trigger] entries_map(s).contains_key(k) <==> exists|i: int| #[trigger] key_at(s, k, i) by {
            if entries_map(s).contains_key(k) {
                if k == last {
                    assert(key_at(s, k, s.len() - 1));
                } else {
                    assert(entries_map(t).contains_key(k));
                    let i = choose|i: int| #[trigger] key_at(t, k, i);
                    assert(t[i] == s[i]);
                    assert(key_at(s, k, i));
                }
            }
            if exists|i: int| #[trigger] key_at(s, k, i) {
                let i = choose|i: int| #[trigger] key_at(s, k, i);
                if i < s.len() - 1 {
                    assert(t[i] == s[i]);
                    assert(key_at(t, k, i));
                    assert(entries_map(t).contains_key(k));
                }
            }
        }
        assert forall|i: int| 0 <= i < s.len() implies #[trigger] entries_map(s)[s[i].0@] == s[i].1@ by {
            if i < s.len() - 1 {
                assert(t[i] == s[i]);
                assert(s[i].0@ != s[s.len() - 1].0@);
                assert(entries_map(t)[t[i].0@] == t[i].1@);
            }
        }
    }
}

/// The content hash of every document as it was last indexed, keyed by source URI.
pub struct IndexState {
    documents: Vec<(String, String)>,
}

impl View for IndexState {
    type V = Map<Seq<char>, Seq<char>>;

    closed spec fn view(&self) -> Map<Seq<char>, Seq<char>> {
        entries_map(self.documents@)
    }
}

impl IndexState {
    #[verifier::type_invariant]
    spec fn keys_distinct(self) -> bool {
        distinct_keys(self.documents@)
    }

    /// A state in which nothing has been indexed.
    pub fn new() -> (s: IndexState)
        ensures
            s@ == Map::<Seq<char>, Seq<char>>::empty(),
    {
        IndexState { documents: Vec::new() }
    }

    /// Where the state of pipeline `pipeline_name` is stored.
    pub fn path_for_pipeline(pipeline_name: &str) -> (p: String)
        ensures
            p@ == state_path(pipeline_name@),
    {
        let absolute = str_starts_with(pipeline_name, "/");
        proof {
            reveal_strlit("/");
            if pipeline_name@.len() > 0 {
                assert(pipeline_name@.take(1)[0] == pipeline_name@[0]);
            }
        }
        proof {
            let nm = pipeline_name@;
            if absolute {
                assert(nm.take(1)[0] == '/');
            } else if nm.len() > 0 && nm[0] == '/' {
                assert(nm.take(1) =~= "/"@);
            }
        }
        let mut p = if absolute { String::new() } else { owned(".rustyrag/") };
        p.append(pipeline_name);
        p.append(".json");
        proof {
            if absolute {
                assert(p@ =~= pipeline_name@ + ".json"@);
            } else {
                assert(p@ =~= ".rustyrag/"@ + pipeline_name@ + ".json"@);
            }
        }
        p
    }

    /// Whether `source_uri` was indexed with exactly `content_hash`.
    pub fn is_unchanged(&self, source_uri: &str, content_hash: &str) -> (r: bool)
        ensures
            r == unchanged(self@, source_uri@, content_hash@),
    {
        proof {
            use_type_invariant(self);
            lemma_entries_map(self.documents@);
        }
        let mut i: usize = 0;
        while i < self.documents.len()
            invariant
                i <= self.documents.len(),
                distinct_keys(self.documents@),
                forall|j: int| 0 <= j < i ==> self.documents@[j].0@ != source_uri@,
            decreases self.documents.len() - i,
        {
            if str_eq(self.documents[i].0.as_str(), source_uri) {
                proof { lemma_entries_map(self.documents@); }
                assert(key_at(self.documents@, source_uri@, i as int));
                assert(entries_map(self.documents@)[self.documents@[i as int].0@] == self.documents@[i as int].1@);
                return str_eq(self.documents[i].1.as_str(), content_hash);
            }
            i += 1;
        }
        assert(!entries_map(self.documents@).contains_key(source_uri@));
        false
    }

    /// Records that `source_uri` was indexed with `content_hash`.
    pub fn mark_indexed(&mut self, source_uri: String, content_hash: String)
        ensures
            final(self)@ == old(self)@.insert(source_uri@, content_hash@),
    {
        proof {
            use_type_invariant(&*self);
            lemma_entries_map(self.documents@);
        }
        let ghost old_docs = self.documents@;
        let mut i: usize = 0;
        while i < self.documents.len()
            invariant
                i <= self.documents.len(),
                self.documents@ == old_docs,
                entries_map(old_docs) == old(self)@,
                distinct_keys(old_docs),
                forall|j: int| 0 <= j < i ==> old_docs[j].0@ != source_uri@,
            decreases self.documents.len() - i,
        {
            if str_eq(self.documents[i].0.as_str(), source_uri.as_str()) {
                let ghost uri = source_uri@;
                let ghost hash = content_hash@;
                let mut docs: Vec<(String, String)> = Vec::new();
                std::mem::swap(&mut docs, &mut self.documents);
                docs.set(i, (source_uri, content_hash));
                proof {
                    lemma_entries_map(old_docs);
                    let n = docs@;
                    assert(distinct_keys(n)) by {
                        assert forall|a: int, b: int| 0 <= a < n.len() && 0 <= b < n.len() && a != b implies #[trigger] n[a].0@ != #[trigger] n[b].0@ by {
                            if a != i && b != i {
                                assert(n[a] == old_docs[a] && n[b] == old_docs[b]);
                            } else if a == i {
                                assert(n[b] == old_docs[b]);
                                assert(old_docs[i as int].0@ == uri);
                            } else {
                                assert(n[a] == old_docs[a]);
                                assert(old_docs[i as int].0@ == uri);
                            }
                        }
                    }
                    lemma_entries_map(n);
                    assert(entries_map(n) =~= entries_map(old_docs).insert(uri, hash)) by {
                        assert forall|k: Seq<char>| #[trigger] entries_map(n).contains_key(k) <==> entries_map(old_docs).insert(uri, hash).contains_key(k) by {
                            if entries_map(n).contains_key(k) {
                                let a = choose|a: int| #[trigger] key_at(n, k, a);
                                if a != i {
                                    assert(n[a] == old_docs[a]);
                                    assert(key_at(old_docs, k, a));
                                }
                            }
                            if entries_map(old_docs).contains_key(k) && k != uri {
                                let a = choose|a: int| #[trigger] key_at(old_docs, k, a);
                                assert(a != i);
                                assert(n[a] == old_docs[a]);
                                assert(key_at(n, k, a));
                            }
                            if k == uri {
                                assert(key_at(n, k, i as int));
                            }
                        }
                        assert forall|k: Seq<char>| #[trigger] entries_map(n).contains_key(k) implies entries_map(n)[k] == entries_map(old_docs).insert(uri, hash)[k] by {
                            let a = choose|a: int| #[trigger] key_at(n, k, a);
                            assert(entries_map(n)[n[a].0@] == n[a].1@);
                            if a != i {
                                assert(n[a] == old_docs[a]);
                                assert(k != uri);
                                assert(entries_map(old_docs)[old_docs[a].0@] == old_docs[a].1@);
                            }
                        }
                    }
                }
                self.documents = docs;
                return;
            }
            i += 1;
        }
        let ghost uri = source_uri@;
        let ghost hash = content_hash@;
        let mut docs: Vec<(String, String)> = Vec::new();
                std::mem::swap(&mut docs, &mut self.documents);
        docs.push((source_uri, content_hash));
        proof {
            let n = docs@;
            assert(n.drop_last() =~= old_docs);
            assert(distinct_keys(n)) by {
                assert forall|a: int, b: int| 0 <= a < n.len() && 0 <= b < n.len() && a != b implies #[trigger] n[a].0@ != #[trigger] n[b].0@ by {
                    if a < old_docs.len() && b < old_docs.len() {
                        assert(n[a] == old_docs[a] && n[b] == old_docs[b]);
                    } else if a < old_docs.len() {
                        assert(n[a] == old_docs[a]);
                    } else {
                        assert(n[b] == old_docs[b]);
                    }
                }
            }
        }
        self.documents = docs;
    }

    /// Every recorded (source URI, content hash) pair, each URI once.
    pub fn entries(&self) -> (v: Vec<(String, String)>)
        ensures
            entries_map(v@) == self@,
            distinct_keys(v@),
    {
        proof {
            use_type_invariant(self);
        }
        let mut v: Vec<(String, String)> = Vec::new();
        let mut i: usize = 0;
        while i < self.documents.len()
            invariant
                i <= self.documents.len(),
                distinct_keys(self.documents@),
                v@.len() == i,
                forall|j: int| 0 <= j < i ==> (#[trigger] v@[j]).0@ == self.documents@[j].0@ && v@[j].1@ == self.documents@[j].1@,
            decreases self.documents.len() - i,
        {
            let k = owned(self.documents[i].0.as_str());
            let h = owned(self.documents[i].1.as_str());
            v.push((k, h));
            i += 1;
        }
        proof {
            lemma_entries_map_same(v@, self.documents@);
        }
        v
    }
}

proof fn lemma_entries_map_same(a: Seq<(String, String)>, b: Seq<(String, String)>)
    requires
        a.len() == b.len(),
        distinct_keys(b),
        forall|j: int| 0 <= j < a.len() ==> (#[trigger] a[j]).0@ == b[j].0@ && a[j].1@ == b[j].1@,
    ensures
        entries_map(a) == entries_map(b),
        distinct_keys(a),
    decreases a.len(),
{
    assert(distinct_keys(a)) by {
        assert forall|i: int, j: int| 0 <= i < a.len() && 0 <= j < a.len() && i != j implies #[trigger] a[i].0@ != #[trigger] a[j].0@ by {
            assert(b[i].0@ != b[j].0@);
        }
    }
    if a.len() > 0 {
        let (ta, tb) = (a.drop_last(), b.drop_last());
        assert(distinct_keys(tb)) by {
            assert forall|i: int, j: int| 0 <= i < tb.len() && 0 <= j < tb.len() && i != j implies #[trigger] tb[i].0@ != #[trigger] tb[j].0@ by {
                assert(tb[i] == b[i] && tb[j] == b[j]);
            }
        }
        assert forall|j: int| 0 <= j < ta.len() implies (#[trigger] ta[j]).0@ == tb[j].0@ && ta[j].1@ == tb[j].1@ by {
            assert(ta[j] == a[j] && tb[j] == b[j]);
        }
        lemma_entries_map_same(ta, tb);
        assert(a.last().0@ == b.last().0@ && a.last().1@ == b.last().1@) by {
            assert(a[a.len() - 1].0@ == b[b.len() - 1].0@);
        }
    }
}

/// Law: once a document is marked as indexed with a hash, it is unchanged for that hash.
pub proof fn law_mark_then_unchanged(m: Map<Seq<char>, Seq<char>>, uri: Seq<char>, hash: Seq<char>)
    ensures
        unchanged(m.insert(uri, hash), uri, hash),
{
}

/// Law: marking one document leaves what is known of every other document as it was.
pub proof fn law_mark_preserves_others(
    m: Map<Seq<char>, Seq<char>>,
    uri: Seq<char>,
    hash: Seq<char>,
    other: Seq<char>,
    other_hash: Seq<char>,
)
    requires
        other != uri,
    ensures
        unchanged(m.insert(uri, hash), other, other_hash) == unchanged(m, other, other_hash),
{
}

/// Law: marking a document with a new hash makes it changed for any other hash.
pub proof fn law_rehash_changes(m: Map<Seq<char>, Seq<char>>, uri: Seq<char>, hash: Seq<char>, other_hash: Seq<char>)
    requires
        other_hash != hash,
    ensures
        !unchanged(m.insert(uri, hash), uri, other_hash),
{
}

} // verus!
