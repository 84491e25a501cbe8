use vstd::prelude::*;
use vstd::string::StringExecFns;
use crate::config::PipelineConfig;
use crate::document::{Chunk, ChunkRecord, Document};
use crate::error::{config_error, Error};
use crate::source::{chunk_point_id, point_id_of};
use crate::state::{unchanged, IndexState};
use crate::text::{byte_len, decimal, owned, push_decimal, str_eq, utf8_len};

verus! {

/// Counters of a pipeline run.
pub struct EtlReport {
    pub documents_seen: usize,
    pub documents_skipped: usize,
    pub documents_indexed: usize,
    pub chunks_written: usize,
}

/// What to do with the next scanned document.
#[derive(Debug, Clone, Copy, PartialEq, Eq, Structural)]
pub enum ScanStep {
    /// The document was indexed with the same content hash before: leave it.
    Skip,
    /// The document must be parsed and chunked; report the chunk count with `admit_chunks`.
    Process,
}

/// A pipeline together with the path of the file that configured it.
pub struct PipelineRunner {
    pub config: PipelineConfig,
    pub config_path: String,
}

impl PipelineRunner {
    /// A runner for `config`, loaded from `config_path`.
    pub fn new(config: PipelineConfig, config_path: String) -> (r: PipelineRunner)
        ensures
            r.config == config,
            r.config_path@ == config_path@,
    {
        PipelineRunner { config, config_path }
    }

    /// Starts a run over `documents` (source URI and content hash of each, in source order),
    /// against the index state `state`.
    pub fn start_run(&self, state: IndexState, documents: Vec<(String, String)>) -> (run: EtlRun)
        ensures
            run.wf(),
            run.documents() == doc_views(documents@),
            run.index_state() == state@,
            run.position() == 0,
            run.queued().len() == 0,
            run.done() == 0,
            !run.awaiting(),
            !run.finished(),
            run.max_chunks() == self.config.index.max_chunks_per_document,
            run.checkpoint() == self.config.index.checkpoint,
            run.seen() == documents@.len(),
            run.skipped() == 0,
            run.indexed() == 0,
            run.written() == 0,
            run.start_state() == state@,
            run.admitted_counts().len() == 0,
            run.written_per_document().len() == 0,
            run.current_written() == 0,
    {
        EtlRun::new(
            state,
            documents,
            self.config.index.max_chunks_per_document,
            self.config.index.checkpoint,
        )
    }

    /// Starts a dry run over `documents` (source URI and content hash of each, in source order).
    pub fn start_dry_run(&self, state: IndexState, documents: Vec<(String, String)>) -> (run: DryRun)
        ensures
            run.wf(),
            run.documents() == doc_views(documents@),
            run.index_state() == state@,
            run.position() == 0,
            !run.awaiting(),
            run.max_chunks() == self.config.index.max_chunks_per_document,
            run.tally().0 == documents@.len(),
            run.tally().1 == 0 && run.tally().2 == 0 && run.tally().3 == 0 && run.tally().4 == 0,
            run.warnings() == (if self.config.chunk.adapter@ == "semantic"@ {
                seq![semantic_dry_run_warning()]
            } else {
                Seq::empty()
            }),
            run.processed().len() == 0,
            run.processed_counts().len() == 0,
    {
        let semantic = str_eq(self.config.chunk.adapter.as_str(), "semantic");
        DryRun::new(state, documents, self.config.index.max_chunks_per_document, semantic)
    }
}

/// Source URI and content hash of each document, as character sequences.
pub open spec fn doc_views(d: Seq<(String, String)>) -> Seq<(Seq<char>, Seq<char>)> {
    d.map_values(|p: (String, String)| (p.0@, p.1@))
}

/// No source URI occurs twice.
pub open spec fn distinct_uris(d: Seq<(Seq<char>, Seq<char>)>) -> bool {
    forall|i: int, j: int| 0 <= i < d.len() && 0 <= j < d.len() && i != j ==> #[trigger] d[i].0 != #[trigger] d[j].0
}

/// `q` holds strictly increasing indices below `bound`.
pub open spec fn increasing_below(q: Seq<int>, bound: int) -> bool {
    &&& forall|t: int| 0 <= t < q.len() ==> 0 <= #[trigger] q[t] < bound
    &&& forall|s: int, t: int| 0 <= s < t < q.len() ==> #[trigger] q[s] < #[trigger] q[t]
}

/// `m` with every queued document marked as indexed, in queue order.
pub open spec fn mark_all(m: Map<Seq<char>, Seq<char>>, d: Seq<(Seq<char>, Seq<char>)>, q: Seq<int>) -> Map<Seq<char>, Seq<char>>
    decreases q.len(),
{
    if q.len() == 0 {
        m
    } else {
        mark_all(m, d, q.drop_last()).insert(d[q.last()].0, d[q.last()].1)
    }
}

/// Message of a document that produced more chunks than allowed.
pub open spec fn too_many_chunks_message(uri: Seq<char>, n: nat, limit: nat) -> Seq<char> {
    "document `"@ + uri + "` produced "@ + decimal(n) + " chunks (limit: "@ + decimal(limit) + ")"@
}

/// Warning that semantic chunking calls the embedding service even in a dry run.
pub open spec fn semantic_dry_run_warning() -> Seq<char> {
    "semantic chunking calls the embed API during dry-run to compute breakpoints"@
}

/// Warning of a document that a dry run would reject for producing too many chunks.
pub open spec fn over_limit_warning(uri: Seq<char>, n: nat, limit: nat) -> Seq<char> {
    uri + " exceeds max_chunks_per_document ("@ + decimal(n) + " > "@ + decimal(limit) + ")"@
}

/// `a` and `b` agree on key `k`.
pub open spec fn same_entry(a: Map<Seq<char>, Seq<char>>, b: Map<Seq<char>, Seq<char>>, k: Seq<char>) -> bool {
    a.contains_key(k) == b.contains_key(k) && (b.contains_key(k) ==> a[k] == b[k])
}

/// Sum of a list of counts.
pub open spec fn sum_counts(s: Seq<nat>) -> nat
    decreases s.len(),
{
    if s.len() == 0 {
        0
    } else {
        sum_counts(s.drop_last()) + s.last()
    }
}

/// How many of the counts are at most `max`, and their sum.
pub open spec fn within_limit(s: Seq<nat>, max: nat) -> (nat, nat)
    decreases s.len(),
{
    if s.len() == 0 {
        (0, 0)
    } else {
        let (n, t) = within_limit(s.drop_last(), max);
        if s.last() <= max {
            (n + 1, t + s.last())
        } else {
            (n, t)
        }
    }
}

proof fn lemma_within_all(s: Seq<nat>, max: nat)
    requires
        forall|t: int| 0 <= t < s.len() ==> #[trigger] s[t] <= max,
    ensures
        within_limit(s, max) == (s.len(), sum_counts(s)),
    decreases s.len(),
{
    if s.len() > 0 {
        let p = s.drop_last();
        assert forall|t: int| 0 <= t < p.len() implies #[trigger] p[t] <= max by {
            assert(p[t] == s[t]);
        }
        lemma_within_all(p, max);
    }
}

proof fn lemma_within_bound(s: Seq<nat>, max: nat)
    ensures
        within_limit(s, max).0 <= s.len(),
    decreases s.len(),
{
    if s.len() > 0 {
        lemma_within_bound(s.drop_last(), max);
    }
}

/// Two strictly increasing index lists below `bound` that hold the same indices are equal.
proof fn lemma_same_increasing(a: Seq<int>, b: Seq<int>, bound: int)
    requires
        increasing_below(a, bound),
        increasing_below(b, bound),
        forall|j: int| 0 <= j < bound ==> (a.contains(j) <==> b.contains(j)),
    ensures
        a == b,
    decreases a.len() + b.len(),
{
    if a.len() == 0 {
        if b.len() > 0 {
            assert(b.contains(b[0]));
        }
        assert(a =~= b);
    } else if b.len() == 0 {
        assert(a.contains(a[0]));
    } else {
        let la = a.last();
        let lb = b.last();
        assert(a.contains(la));
        assert(b.contains(lb));
        assert(b.contains(la));
        assert(a.contains(lb));
        let i = choose|i: int| 0 <= i < b.len() && b[i] == la;
        let k = choose|k: int| 0 <= k < a.len() && a[k] == lb;
        if i < b.len() - 1 {
            assert(b[i] < b[b.len() - 1]);
        }
        if k < a.len() - 1 {
            assert(a[k] < a[a.len() - 1]);
        }
        assert(la == lb);
        let pa = a.drop_last();
        let pb = b.drop_last();
        assert forall|j: int| 0 <= j < la implies (pa.contains(j) <==> pb.contains(j)) by {
            if pa.contains(j) {
                let t = choose|t: int| 0 <= t < pa.len() && pa[t] == j;
                assert(a[t] == j);
                assert(a.contains(j));
                let u = choose|u: int| 0 <= u < b.len() && b[u] == j;
                assert(u != b.len() - 1);
                assert(pb[u] == j);
            }
            if pb.contains(j) {
                let t = choose|t: int| 0 <= t < pb.len() && pb[t] == j;
                assert(b[t] == j);
                assert(b.contains(j));
                let u = choose|u: int| 0 <= u < a.len() && a[u] == j;
                assert(u != a.len() - 1);
                assert(pa[u] == j);
            }
        }
        assert forall|t: int| 0 <= t < pa.len() implies 0 <= #[trigger] pa[t] < la by {
            assert(a[t] < a[a.len() - 1]);
        }
        assert forall|t: int| 0 <= t < pb.len() implies 0 <= #[trigger] pb[t] < la by {
            assert(b[t] < b[b.len() - 1]);
        }
        assert forall|x: int, y: int| 0 <= x < y < pa.len() implies #[trigger] pa[x] < #[trigger] pa[y] by {
            assert(a[x] < a[y]);
        }
        assert forall|x: int, y: int| 0 <= x < y < pb.len() implies #[trigger] pb[x] < #[trigger] pb[y] by {
            assert(b[x] < b[y]);
        }
        lemma_same_increasing(pa, pb, la);
        assert(a =~= pa.push(la));
        assert(b =~= pb.push(lb));
    }
}

proof fn lemma_mark_all(m: Map<Seq<char>, Seq<char>>, d: Seq<(Seq<char>, Seq<char>)>, q: Seq<int>)
    requires
        distinct_uris(d),
        forall|t: int| 0 <= t < q.len() ==> 0 <= #[trigger] q[t] < d.len(),
        forall|s: int, t: int| 0 <= s < t < q.len() ==> #[trigger] q[s] != #[trigger] q[t],
    ensures
        forall|t: int| 0 <= t < q.len() ==> unchanged(mark_all(m, d, q), d[#[trigger] q[t]].0, d[q[t]].1),
        forall|j: int| 0 <= j < d.len() && !q.contains(j) ==> same_entry(mark_all(m, d, q), m, #[trigger] d[j].0),
    decreases q.len(),
{
    if q.len() > 0 {
        let p = q.drop_last();
        assert forall|s: int, t: int| 0 <= s < t < p.len() implies #[trigger] p[s] != #[trigger] p[t] by {
            assert(p[s] == q[s] && p[t] == q[t]);
        }
        assert forall|t: int| 0 <= t < p.len() implies 0 <= #[trigger] p[t] < d.len() by {
            assert(p[t] == q[t]);
        }
        lemma_mark_all(m, d, p);
        let last = q.last();
        assert forall|t: int| 0 <= t < q.len() implies unchanged(mark_all(m, d, q), d[#[trigger] q[t]].0, d[q[t]].1) by {
            if t < q.len() - 1 {
                assert(q[t] == p[t]);
                assert(q[t] != last);
                assert(d[q[t]].0 != d[last].0);
            }
        }
        assert forall|j: int| 0 <= j < d.len() && !q.contains(j) implies same_entry(mark_all(m, d, q), m, #[trigger] d[j].0) by {
            assert(j != last) by {
                assert(q[q.len() - 1] == last);
            }
            assert(d[j].0 != d[last].0);
            if p.contains(j) {
                let t = choose|t: int| 0 <= t < p.len() && p[t] == j;
                assert(q[t] == j);
            }
        }
    }
}

/// State of a pipeline run: which documents were scanned, which are queued for indexing, how
/// many of those are indexed, the index state, and the counters.
pub struct EtlRun {
    state: IndexState,
    docs: Vec<(String, String)>,
    scanned: usize,
    awaiting: bool,
    pending: Vec<usize>,
    indexed: usize,
    finished: bool,
    max_chunks: usize,
    checkpoint: bool,
    report: EtlReport,
    start: Ghost<Map<Seq<char>, Seq<char>>>,
    counts: Ghost<Seq<nat>>,
    per_doc: Ghost<Seq<nat>>,
    cur: Ghost<nat>,
}

impl EtlRun {
    /// Source URI and content hash of every document of the run, in source order.
    pub closed spec fn documents(self) -> Seq<(Seq<char>, Seq<char>)> {
        doc_views(self.docs@)
    }

    /// The index state as the run has updated it so far.
    pub closed spec fn index_state(self) -> Map<Seq<char>, Seq<char>> {
        self.state@
    }

    /// How many documents have been scanned.
    pub closed spec fn position(self) -> nat {
        self.scanned as nat
    }

    /// Whether the document at `position()` waits for its chunk count.
    pub closed spec fn awaiting(self) -> bool {
        self.awaiting
    }

    /// Indices of the documents queued for indexing, in order.
    pub closed spec fn queued(self) -> Seq<int> {
        self.pending@.map_values(|i: usize| i as int)
    }

    /// How many queued documents have been indexed.
    pub closed spec fn done(self) -> nat {
        self.indexed as nat
    }

    /// Whether the run has been finished.
    pub closed spec fn finished(self) -> bool {
        self.finished
    }

    /// Chunk limit per document.
    pub closed spec fn max_chunks(self) -> nat {
        self.max_chunks as nat
    }

    /// Whether the state is saved after each document.
    pub closed spec fn checkpoint(self) -> bool {
        self.checkpoint
    }

    /// Documents seen.
    pub closed spec fn seen(self) -> nat {
        self.report.documents_seen as nat
    }

    /// Documents skipped as unchanged.
    pub closed spec fn skipped(self) -> nat {
        self.report.documents_skipped as nat
    }

    /// Documents indexed.
    pub closed spec fn indexed(self) -> nat {
        self.report.documents_indexed as nat
    }

    /// Chunks written.
    pub closed spec fn written(self) -> nat {
        self.report.chunks_written as nat
    }

    /// The index state the run started from.
    pub closed spec fn start_state(self) -> Map<Seq<char>, Seq<char>> {
        self.start@
    }

    /// The chunk count admitted for each queued document, in queue order.
    pub closed spec fn admitted_counts(self) -> Seq<nat> {
        self.counts@
    }

    /// The chunks written for each indexed document, in queue order.
    pub closed spec fn written_per_document(self) -> Seq<nat> {
        self.per_doc@
    }

    /// The chunks written so far for the document being indexed.
    pub closed spec fn current_written(self) -> nat {
        self.cur@
    }

    /// Scanning is over: every document was either skipped or queued.
    pub open spec fn scan_complete(self) -> bool {
        self.position() == self.documents().len() && !self.awaiting()
    }

    /// Every document was scanned, every queued one indexed, and the run finished.
    pub open spec fn complete(self) -> bool {
        self.scan_complete() && self.done() == self.queued().len() && self.finished()
    }

    /// The run has ended as a pipeline run ends without error: every document was scanned and
    /// every queued one indexed, and the run was finished unless nothing was queued.
    pub open spec fn ended(self) -> bool {
        self.scan_complete() && self.done() == self.queued().len() && (self.finished() || self.queued().len() == 0)
    }

    /// The run's internal consistency.
    pub closed spec fn wf(self) -> bool {
        let d = self.documents();
        let q = self.queued();
        &&& self.scanned < self.docs@.len() ==> self.indexed == 0 && !self.finished
        &&& (self.indexed == 0 && !self.finished) || self.pending@.len() == 0 ==> self.state@ == self.start@
        &&& forall|j: int| 0 <= j < self.scanned ==> (q.contains(j) <==> !unchanged(self.start@, #[trigger] d[j].0, d[j].1))
        &&& self.awaiting ==> !unchanged(self.start@, d[self.scanned as int].0, d[self.scanned as int].1)
        &&& self.counts@.len() == self.pending@.len()
        &&& self.per_doc@.len() == self.indexed
        &&& self.report.chunks_written == sum_counts(self.per_doc@) + self.cur@
        &&& self.indexed == self.pending@.len() ==> self.cur@ == 0
        &&& self.scanned <= self.docs@.len()
        &&& self.awaiting ==> self.scanned < self.docs@.len()
        &&& increasing_below(q, self.scanned as int)
        &&& self.indexed <= self.pending@.len()
        &&& self.report.documents_seen == self.docs@.len()
        &&& self.report.documents_skipped + self.pending@.len() == self.scanned
        &&& self.report.documents_indexed == self.indexed
        &&& self.finished ==> self.indexed == self.pending@.len() && self.scanned == self.docs@.len()
        &&& distinct_uris(d) ==> forall|j: int| 0 <= j < self.scanned && !q.contains(j) ==> unchanged(self.state@, #[trigger] d[j].0, d[j].1)
        &&& distinct_uris(d) && (self.checkpoint || self.finished) ==> forall|t: int| 0 <= t < self.indexed ==> unchanged(self.state@, d[#[trigger] q[t]].0, d[q[t]].1)
    }

    fn new(state: IndexState, docs: Vec<(String, String)>, max_chunks: usize, checkpoint: bool) -> (run: EtlRun)
        ensures
            run.wf(),
            run.documents() == doc_views(docs@),
            run.index_state() == state@,
            run.position() == 0,
            run.queued().len() == 0,
            run.done() == 0,
            !run.awaiting(),
            !run.finished(),
            run.max_chunks() == max_chunks,
            run.checkpoint() == checkpoint,
            run.seen() == docs@.len(),
            run.skipped() == 0,
            run.indexed() == 0,
            run.written() == 0,
            run.start_state() == state@,
            run.admitted_counts().len() == 0,
            run.written_per_document().len() == 0,
            run.current_written() == 0,
    {
        let n = docs.len();
        let ghost s0 = state@;
        let run = EtlRun {
            state,
            docs,
            scanned: 0,
            awaiting: false,
            pending: Vec::new(),
            indexed: 0,
            finished: false,
            max_chunks,
            checkpoint,
            report: EtlReport { documents_seen: n, documents_skipped: 0, documents_indexed: 0, chunks_written: 0 },
            start: Ghost(s0),
            counts: Ghost(Seq::empty()),
            per_doc: Ghost(Seq::empty()),
            cur: Ghost(0),
        };
        assert(run.queued() =~= Seq::<int>::empty());
        run
    }

    /// The index state, to be saved.
    pub fn state(&self) -> (s: &IndexState)
        ensures
            s@ == self.index_state(),
    {
        &self.state
    }

    /// The run's counters.
    pub fn report(&self) -> (r: EtlReport)
        ensures
            r.documents_seen == self.seen(),
            r.documents_skipped == self.skipped(),
            r.documents_indexed == self.indexed(),
            r.chunks_written == self.written(),
    {
        EtlReport {
            documents_seen: self.report.documents_seen,
            documents_skipped: self.report.documents_skipped,
            documents_indexed: self.report.documents_indexed,
            chunks_written: self.report.chunks_written,
        }
    }

    /// Whether every document has been scanned.
    pub fn scan_done(&self) -> (r: bool)
        requires
            self.wf(),
            !self.awaiting(),
        ensures
            r == self.scan_complete(),
    {
        self.scanned == self.docs.len()
    }

    /// Decides on the next document: skip it when it was indexed before with the same content
    /// hash, otherwise wait for its chunk count.
    pub fn scan(&mut self) -> (step: ScanStep)
        requires
            old(self).wf(),
            !old(self).awaiting(),
            old(self).position() < old(self).documents().len(),
        ensures
            final(self).wf(),
            ({
                let d = old(self).documents()[old(self).position() as int];
                if unchanged(old(self).index_state(), d.0, d.1) {
                    &&& step == ScanStep::Skip
                    &&& final(self).position() == old(self).position() + 1
                    &&& !final(self).awaiting()
                    &&& final(self).skipped() == old(self).skipped() + 1
                } else {
                    &&& step == ScanStep::Process
                    &&& final(self).position() == old(self).position()
                    &&& final(self).awaiting()
                    &&& final(self).skipped() == old(self).skipped()
                }
            }),
            final(self).documents() == old(self).documents(),
            final(self).index_state() == old(self).index_state(),
            final(self).queued() == old(self).queued(),
            final(self).done() == old(self).done(),
            final(self).finished() == old(self).finished(),
            final(self).max_chunks() == old(self).max_chunks(),
            final(self).checkpoint() == old(self).checkpoint(),
            final(self).seen() == old(self).seen(),
            final(self).indexed() == old(self).indexed(),
            final(self).written() == old(self).written(),
            final(self).start_state() == old(self).start_state(),
            final(self).admitted_counts() == old(self).admitted_counts(),
            final(self).written_per_document() == old(self).written_per_document(),
            final(self).current_written() == old(self).current_written(),
    {
        let i = self.scanned;
        let ghost d = self.documents();
        assert(d[i as int] == (self.docs@[i as int].0@, self.docs@[i as int].1@));
        if self.state.is_unchanged(self.docs[i].0.as_str(), self.docs[i].1.as_str()) {
            self.report.documents_skipped = self.report.documents_skipped + 1;
            self.scanned = i + 1;
            proof {
                let q = self.queued();
                assert forall|t: int| 0 <= t < q.len() implies #[trigger] q[t] < i by {}
                assert(!q.contains(i as int));
            }
            ScanStep::Skip
        } else {
            self.awaiting = true;
            ScanStep::Process
        }
    }

    /// Queues the awaited document when it produced at most the allowed number of chunks;
    /// otherwise the run fails with a configuration error that names the document.
    pub fn admit_chunks(&mut self, chunk_count: usize) -> (r: Result<(), Error>)
        requires
            old(self).wf(),
            old(self).awaiting(),
        ensures
            final(self).wf(),
            chunk_count > old(self).max_chunks() ==> {
                &&& r matches Err(Error::Config(m)) && m@ == too_many_chunks_message(
                    old(self).documents()[old(self).position() as int].0,
                    chunk_count as nat,
                    old(self).max_chunks(),
                )
                &&& *final(self) == *old(self)
            },
            chunk_count <= old(self).max_chunks() ==> {
                &&& r is Ok
                &&& final(self).queued() == old(self).queued().push(old(self).position() as int)
                &&& final(self).position() == old(self).position() + 1
                &&& !final(self).awaiting()
                &&& final(self).documents() == old(self).documents()
                &&& final(self).index_state() == old(self).index_state()
                &&& final(self).done() == old(self).done()
                &&& final(self).finished() == old(self).finished()
                &&& final(self).max_chunks() == old(self).max_chunks()
                &&& final(self).checkpoint() == old(self).checkpoint()
                &&& final(self).seen() == old(self).seen()
                &&& final(self).skipped() == old(self).skipped()
                &&& final(self).indexed() == old(self).indexed()
                &&& final(self).written() == old(self).written()
                &&& final(self).start_state() == old(self).start_state()
                &&& final(self).admitted_counts() == old(self).admitted_counts().push(chunk_count as nat)
                &&& final(self).written_per_document() == old(self).written_per_document()
                &&& final(self).current_written() == old(self).current_written()
            },
    {
        let i = self.scanned;
        if chunk_count > self.max_chunks {
            let mut msg = owned("document `");
            msg.append(self.docs[i].0.as_str());
            msg.append("` produced ");
            push_decimal(&mut msg, chunk_count);
            msg.append(" chunks (limit: ");
            push_decimal(&mut msg, self.max_chunks);
            msg.append(")");
            return Err(config_error(msg));
        }
        let ghost old_q = self.queued();
        self.counts = Ghost(self.counts@.push(chunk_count as nat));
        self.pending.push(i);
        self.scanned = i + 1;
        self.awaiting = false;
        proof {
            let q = self.queued();
            assert(q =~= old_q.push(i as int));
            let d = self.documents();
            assert forall|j: int| 0 <= j < self.scanned && !q.contains(j) implies !old_q.contains(j) && j < i by {
                if old_q.contains(j) {
                    let t = choose|t: int| 0 <= t < old_q.len() && old_q[t] == j;
                    assert(q[t] == j);
                }
                if j == i {
                    assert(q[q.len() - 1] == j);
                }
            }
            assert forall|t: int| 0 <= t < self.indexed implies #[trigger] q[t] == old_q[t] by {}
        }
        Ok(())
    }

    /// Index of the next queued document to index.
    pub fn next_document(&self) -> (i: usize)
        requires
            self.wf(),
            self.scan_complete(),
            self.done() < self.queued().len(),
        ensures
            i == self.queued()[self.done() as int],
            i < self.documents().len(),
    {
        self.pending[self.indexed]
    }

    /// Counts `n` more chunks as written.
    pub fn record_upsert(&mut self, n: usize)
        requires
            old(self).wf(),
            old(self).scan_complete(),
            old(self).done() < old(self).queued().len(),
            old(self).written() + n <= usize::MAX,
        ensures
            final(self).start_state() == old(self).start_state(),
            final(self).admitted_counts() == old(self).admitted_counts(),
            final(self).written_per_document() == old(self).written_per_document(),
            final(self).current_written() == old(self).current_written() + n,
            final(self).wf(),
            final(self).written() == old(self).written() + n,
            final(self).documents() == old(self).documents(),
            final(self).index_state() == old(self).index_state(),
            final(self).position() == old(self).position(),
            final(self).awaiting() == old(self).awaiting(),
            final(self).queued() == old(self).queued(),
            final(self).done() == old(self).done(),
            final(self).finished() == old(self).finished(),
            final(self).checkpoint() == old(self).checkpoint(),
            final(self).seen() == old(self).seen(),
            final(self).skipped() == old(self).skipped(),
            final(self).indexed() == old(self).indexed(),
    {
        self.report.chunks_written = self.report.chunks_written + n;
        self.cur = Ghost(self.cur@ + n as nat);
    }

    /// Counts the next queued document as indexed; with checkpointing it is marked in the index
    /// state, and the result says that the state must be saved now.
    pub fn finish_document(&mut self) -> (save_now: bool)
        requires
            old(self).wf(),
            old(self).scan_complete(),
            old(self).done() < old(self).queued().len(),
        ensures
            final(self).wf(),
            save_now == old(self).checkpoint(),
            final(self).done() == old(self).done() + 1,
            final(self).indexed() == old(self).indexed() + 1,
            final(self).index_state() == (if old(self).checkpoint() {
                let d = old(self).documents()[old(self).queued()[old(self).done() as int]];
                old(self).index_state().insert(d.0, d.1)
            } else {
                old(self).index_state()
            }),
            final(self).documents() == old(self).documents(),
            final(self).position() == old(self).position(),
            final(self).awaiting() == old(self).awaiting(),
            final(self).queued() == old(self).queued(),
            final(self).finished() == old(self).finished(),
            final(self).max_chunks() == old(self).max_chunks(),
            final(self).checkpoint() == old(self).checkpoint(),
            final(self).seen() == old(self).seen(),
            final(self).skipped() == old(self).skipped(),
            final(self).written() == old(self).written(),
            final(self).start_state() == old(self).start_state(),
            final(self).admitted_counts() == old(self).admitted_counts(),
            final(self).written_per_document() == old(self).written_per_document().push(old(self).current_written()),
            final(self).current_written() == 0,
    {
        let p = self.pending[self.indexed];
        let ghost d = self.documents();
        let ghost q = self.queued();
        let ghost k = self.indexed as int;
        let ghost before = self.state@;
        assert(q[k] == p as int);
        assert(q[k] < self.scanned);
        if self.checkpoint {
            let uri = owned(self.docs[p].0.as_str());
            let hash = owned(self.docs[p].1.as_str());
            assert(d[p as int] == (self.docs@[p as int].0@, self.docs@[p as int].1@));
            self.state.mark_indexed(uri, hash);
            proof {
                if distinct_uris(d) {
                    assert forall|j: int| 0 <= j < self.scanned && !q.contains(j) implies unchanged(self.state@, #[trigger] d[j].0, d[j].1) by {
                        assert(q[k] == p);
                        assert(j != p);
                        assert(d[j].0 != d[p as int].0);
                        assert(unchanged(before, d[j].0, d[j].1));
                    }
                    assert forall|t: int| 0 <= t < k + 1 implies unchanged(self.state@, d[#[trigger] q[t]].0, d[q[t]].1) by {
                        if t < k {
                            assert(q[t] < q[k]);
                            assert(d[q[t]].0 != d[q[k]].0);
                        }
                    }
                }
            }
        }
        proof {
            assert(self.per_doc@.push(self.cur@).drop_last() =~= self.per_doc@);
        }
        self.per_doc = Ghost(self.per_doc@.push(self.cur@));
        self.cur = Ghost(0);
        self.indexed = self.indexed + 1;
        self.report.documents_indexed = self.report.documents_indexed + 1;
        self.checkpoint
    }

    /// Finishes the run. Without checkpointing every queued document is now marked in the
    /// index state; the result says whether the state must be saved (some documents were
    /// indexed and no checkpoint saved them).
    pub fn finish_run(&mut self) -> (save_now: bool)
        requires
            old(self).wf(),
            old(self).scan_complete(),
            old(self).done() == old(self).queued().len(),
        ensures
            final(self).wf(),
            final(self).complete(),
            save_now == (!old(self).checkpoint() && old(self).queued().len() > 0),
            final(self).index_state() == (if old(self).checkpoint() {
                old(self).index_state()
            } else {
                mark_all(old(self).index_state(), old(self).documents(), old(self).queued())
            }),
            final(self).documents() == old(self).documents(),
            final(self).queued() == old(self).queued(),
            final(self).checkpoint() == old(self).checkpoint(),
            final(self).seen() == old(self).seen(),
            final(self).skipped() == old(self).skipped(),
            final(self).indexed() == old(self).indexed(),
            final(self).written() == old(self).written(),
            final(self).start_state() == old(self).start_state(),
            final(self).admitted_counts() == old(self).admitted_counts(),
            final(self).written_per_document() == old(self).written_per_document(),
            final(self).current_written() == old(self).current_written(),
    {
        let ghost d = self.documents();
        let ghost q = self.queued();
        let ghost before = self.state@;
        if !self.checkpoint {
            let mut st = IndexState::new();
            std::mem::swap(&mut st, &mut self.state);
            let mut t: usize = 0;
            while t < self.pending.len()
                invariant
                    t <= self.pending.len(),
                    d == doc_views(self.docs@),
                    q == self.pending@.map_values(|i: usize| i as int),
                    increasing_below(q, self.docs@.len() as int),
                    st@ == mark_all(before, d, q.take(t as int)),
                decreases self.pending.len() - t,
            {
                let p = self.pending[t];
                assert(q[t as int] == p);
                let uri = owned(self.docs[p].0.as_str());
                let hash = owned(self.docs[p].1.as_str());
                assert(d[p as int] == (self.docs@[p as int].0@, self.docs@[p as int].1@));
                st.mark_indexed(uri, hash);
                assert(q.take(t + 1).drop_last() =~= q.take(t as int));
                t += 1;
            }
            assert(q.take(q.len() as int) =~= q);
            std::mem::swap(&mut st, &mut self.state);
            proof {
                if distinct_uris(d) {
                    assert forall|s: int, u: int| 0 <= s < u < q.len() implies #[trigger] q[s] != #[trigger] q[u] by {}
                    lemma_mark_all(before, d, q);
                    assert forall|j: int| 0 <= j < self.scanned && !q.contains(j) implies unchanged(self.state@, #[trigger] d[j].0, d[j].1) by {
                        assert(same_entry(self.state@, before, d[j].0));
                    }
                }
            }
        }
        self.finished = true;
        !self.checkpoint && self.pending.len() > 0
    }
}

/// Law: after a run has ended over documents whose source URIs are distinct, every document is
/// unchanged in the index state.
pub proof fn law_complete_run_marks_every_document(run: EtlRun)
    requires
        run.wf(),
        run.ended(),
        distinct_uris(run.documents()),
    ensures
        forall|j: int| 0 <= j < run.documents().len() ==> unchanged(run.index_state(), #[trigger] run.documents()[j].0, run.documents()[j].1),
{
    let d = run.documents();
    let q = run.queued();
    assert forall|j: int| 0 <= j < d.len() implies unchanged(run.index_state(), #[trigger] d[j].0, d[j].1) by {
        if q.contains(j) {
            let t = choose|t: int| 0 <= t < q.len() && q[t] == j;
            assert(unchanged(run.index_state(), d[q[t]].0, d[q[t]].1));
        }
    }
}

/// Law: a second run over the same documents, started from the index state that a first run
/// ended with, skips every document: once it has scanned them all, nothing is queued (so there
/// is nothing to embed, delete, upsert or save), every document counts as skipped, nothing is
/// indexed or written, and the index state is the one the first run left.
pub proof fn law_rerun_skips_every_document(first: EtlRun, second: EtlRun)
    requires
        first.wf(),
        first.ended(),
        distinct_uris(first.documents()),
        second.wf(),
        second.scan_complete(),
        second.documents() == first.documents(),
        second.start_state() == first.index_state(),
    ensures
        second.queued().len() == 0,
        second.skipped() == second.seen(),
        second.indexed() == 0,
        second.written() == 0,
        second.index_state() == first.index_state(),
{
    law_complete_run_marks_every_document(first);
    let d = second.documents();
    let q = second.queued();
    if q.len() > 0 {
        assert(q.contains(q[0]));
        assert(!unchanged(second.start_state(), d[q[0]].0, d[q[0]].1));
    }
    assert(second.written_per_document() =~= Seq::<nat>::empty());
}

/// Law: a dry run predicts the run that follows it. Both run over the same documents from the
/// same index state; every document that is processed gives the same chunk count to both
/// (`count` of its index), none of them over the dry run's chunk limit; and the run writes
/// exactly its admitted chunks for each document. Then the dry run's counters of documents
/// seen, skipped and to index, and of chunks, are those of the run.
pub proof fn law_dry_run_predicts_run(dry: DryRun, run: EtlRun, count: spec_fn(int) -> nat)
    requires
        dry.wf(),
        dry.position() == dry.documents().len(),
        !dry.awaiting(),
        run.wf(),
        run.scan_complete(),
        run.done() == run.queued().len(),
        dry.documents() == run.documents(),
        dry.index_state() == run.start_state(),
        forall|t: int| 0 <= t < dry.processed().len() ==> #[trigger] dry.processed_counts()[t] == count(dry.processed()[t]),
        forall|t: int| 0 <= t < dry.processed().len() ==> #[trigger] dry.processed_counts()[t] <= dry.max_chunks(),
        forall|t: int| 0 <= t < run.queued().len() ==> #[trigger] run.admitted_counts()[t] == count(run.queued()[t]),
        forall|t: int| 0 <= t < run.queued().len() ==> #[trigger] run.written_per_document()[t] == run.admitted_counts()[t],
    ensures
        dry.tally().0 == run.seen(),
        dry.tally().1 == run.skipped(),
        dry.tally().2 == run.indexed(),
        dry.tally().3 == run.written(),
{
    let d = run.documents();
    let n = d.len() as int;
    let p = dry.processed();
    let q = run.queued();
    assert forall|j: int| 0 <= j < n implies (p.contains(j) <==> q.contains(j)) by {
        assert(p.contains(j) <==> !unchanged(dry.index_state(), d[j].0, d[j].1));
        assert(q.contains(j) <==> !unchanged(run.start_state(), d[j].0, d[j].1));
    }
    lemma_same_increasing(p, q, n);
    let pc = dry.processed_counts();
    assert(pc =~= run.admitted_counts()) by {
        assert forall|t: int| 0 <= t < pc.len() implies pc[t] == run.admitted_counts()[t] by {
            assert(pc[t] == count(p[t]));
            assert(run.admitted_counts()[t] == count(q[t]));
        }
    }
    assert(run.written_per_document() =~= run.admitted_counts());
    lemma_within_all(pc, dry.max_chunks());
}

/// Law: every document of a run is counted once, as skipped or as indexed, when the run is
/// complete.
pub proof fn law_complete_run_counts_every_document(run: EtlRun)
    requires
        run.wf(),
        run.complete(),
    ensures
        run.skipped() + run.indexed() == run.seen(),
        run.seen() == run.documents().len(),
{
}

/// Total UTF-8 length of the contents of `v`.
pub open spec fn chunk_bytes(v: Seq<Chunk>) -> nat
    decreases v.len(),
{
    if v.len() == 0 {
        0
    } else {
        chunk_bytes(v.drop_last()) + utf8_len(v.last().content@)
    }
}

/// Counters and warnings of a dry run.
pub struct DryRunReport {
    pub documents_seen: usize,
    pub documents_skipped: usize,
    pub documents_to_index: usize,
    pub chunks_total: usize,
    pub total_chars: usize,
    pub warnings: Vec<String>,
}

/// State of a dry run: it scans documents like a run, tallies the chunks that would be
/// written, and warns about documents over the chunk limit.
pub struct DryRun {
    state: IndexState,
    docs: Vec<(String, String)>,
    scanned: usize,
    awaiting: bool,
    max_chunks: usize,
    report: DryRunReport,
    proc: Ghost<Seq<int>>,
    proc_counts: Ghost<Seq<nat>>,
}

impl DryRun {
    /// Source URI and content hash of every document, in source order.
    pub closed spec fn documents(self) -> Seq<(Seq<char>, Seq<char>)> {
        doc_views(self.docs@)
    }

    /// The index state that decides which documents are unchanged.
    pub closed spec fn index_state(self) -> Map<Seq<char>, Seq<char>> {
        self.state@
    }

    /// How many documents have been scanned.
    pub closed spec fn position(self) -> nat {
        self.scanned as nat
    }

    /// Whether the document at `position()` waits for its chunks.
    pub closed spec fn awaiting(self) -> bool {
        self.awaiting
    }

    /// Chunk limit per document.
    pub closed spec fn max_chunks(self) -> nat {
        self.max_chunks as nat
    }

    /// Documents seen, skipped and to index; chunks in total; UTF-8 bytes of those chunks.
    pub closed spec fn tally(self) -> (nat, nat, nat, nat, nat) {
        (
            self.report.documents_seen as nat,
            self.report.documents_skipped as nat,
            self.report.documents_to_index as nat,
            self.report.chunks_total as nat,
            self.report.total_chars as nat,
        )
    }

    /// Warnings so far.
    pub closed spec fn warnings(self) -> Seq<Seq<char>> {
        self.report.warnings@.map_values(|w: String| w@)
    }

    /// Indices of the documents whose chunks were tallied, in order.
    pub closed spec fn processed(self) -> Seq<int> {
        self.proc@
    }

    /// The chunk count of each processed document, in order.
    pub closed spec fn processed_counts(self) -> Seq<nat> {
        self.proc_counts@
    }

    /// The dry run's internal consistency.
    pub closed spec fn wf(self) -> bool {
        let d = self.documents();
        &&& self.scanned <= self.docs@.len()
        &&& self.awaiting ==> self.scanned < self.docs@.len()
        &&& self.report.documents_seen == self.docs@.len()
        &&& increasing_below(self.proc@, self.scanned as int)
        &&& forall|j: int| 0 <= j < self.scanned ==> (self.proc@.contains(j) <==> !unchanged(self.state@, #[trigger] d[j].0, d[j].1))
        &&& self.awaiting ==> !unchanged(self.state@, d[self.scanned as int].0, d[self.scanned as int].1)
        &&& self.proc_counts@.len() == self.proc@.len()
        &&& self.report.documents_skipped + self.proc@.len() == self.scanned
        &&& (self.report.documents_to_index as nat, self.report.chunks_total as nat) == within_limit(self.proc_counts@, self.max_chunks as nat)
    }

    fn new(state: IndexState, docs: Vec<(String, String)>, max_chunks: usize, semantic: bool) -> (run: DryRun)
        ensures
            run.wf(),
            run.documents() == doc_views(docs@),
            run.index_state() == state@,
            run.position() == 0,
            !run.awaiting(),
            run.max_chunks() == max_chunks,
            run.tally().0 == docs@.len(),
            run.tally().1 == 0 && run.tally().2 == 0 && run.tally().3 == 0 && run.tally().4 == 0,
            run.warnings() == (if semantic { seq![semantic_dry_run_warning()] } else { Seq::<Seq<char>>::empty() }),
            run.processed().len() == 0,
            run.processed_counts().len() == 0,
    {
        let n = docs.len();
        let mut warnings: Vec<String> = Vec::new();
        if semantic {
            warnings.push(owned("semantic chunking calls the embed API during dry-run to compute breakpoints"));
        }
        let run = DryRun {
            state,
            docs,
            scanned: 0,
            awaiting: false,
            max_chunks,
            report: DryRunReport {
                documents_seen: n,
                documents_skipped: 0,
                documents_to_index: 0,
                chunks_total: 0,
                total_chars: 0,
                warnings,
            },
            proc: Ghost(Seq::empty()),
            proc_counts: Ghost(Seq::empty()),
        };
        assert(run.warnings() =~= (if semantic { seq![semantic_dry_run_warning()] } else { Seq::<Seq<char>>::empty() }));
        run
    }

    /// Whether every document has been scanned.
    pub fn scan_done(&self) -> (r: bool)
        requires
            self.wf(),
            !self.awaiting(),
        ensures
            r == (self.position() == self.documents().len()),
    {
        self.scanned == self.docs.len()
    }

    /// Decides on the next document: skip it when unchanged, otherwise wait for its chunks.
    pub fn scan(&mut self) -> (step: ScanStep)
        requires
            old(self).wf(),
            !old(self).awaiting(),
            old(self).position() < old(self).documents().len(),
        ensures
            final(self).wf(),
            ({
                let d = old(self).documents()[old(self).position() as int];
                let t = old(self).tally();
                if unchanged(old(self).index_state(), d.0, d.1) {
                    &&& step == ScanStep::Skip
                    &&& final(self).position() == old(self).position() + 1
                    &&& !final(self).awaiting()
                    &&& final(self).tally() == (t.0, t.1 + 1, t.2, t.3, t.4)
                } else {
                    &&& step == ScanStep::Process
                    &&& final(self).position() == old(self).position()
                    &&& final(self).awaiting()
                    &&& final(self).tally() == t
                }
            }),
            final(self).documents() == old(self).documents(),
            final(self).index_state() == old(self).index_state(),
            final(self).max_chunks() == old(self).max_chunks(),
            final(self).warnings() == old(self).warnings(),
            final(self).processed() == old(self).processed(),
            final(self).processed_counts() == old(self).processed_counts(),
    {
        let i = self.scanned;
        assert(self.documents()[i as int] == (self.docs@[i as int].0@, self.docs@[i as int].1@));
        if self.state.is_unchanged(self.docs[i].0.as_str(), self.docs[i].1.as_str()) {
            self.report.documents_skipped = self.report.documents_skipped + 1;
            self.scanned = i + 1;
            ScanStep::Skip
        } else {
            self.awaiting = true;
            ScanStep::Process
        }
    }

    /// Tallies the chunks of the awaited document, or warns when there are more than allowed.
    pub fn tally_chunks(&mut self, chunks: &Vec<Chunk>)
        requires
            old(self).wf(),
            old(self).awaiting(),
            chunks@.len() <= old(self).max_chunks() ==> old(self).tally().3 + chunks@.len() <= usize::MAX,
            chunks@.len() <= old(self).max_chunks() ==> old(self).tally().4 + chunk_bytes(chunks@) <= usize::MAX,
        ensures
            final(self).wf(),
            final(self).position() == old(self).position() + 1,
            !final(self).awaiting(),
            ({
                let t = old(self).tally();
                let uri = old(self).documents()[old(self).position() as int].0;
                if chunks@.len() > old(self).max_chunks() {
                    &&& final(self).tally() == t
                    &&& final(self).warnings() == old(self).warnings().push(
                        over_limit_warning(uri, chunks@.len(), old(self).max_chunks()),
                    )
                } else {
                    &&& final(self).tally() == (t.0, t.1, t.2 + 1, t.3 + chunks@.len(), t.4 + chunk_bytes(chunks@))
                    &&& final(self).warnings() == old(self).warnings()
                }
            }),
            final(self).documents() == old(self).documents(),
            final(self).index_state() == old(self).index_state(),
            final(self).max_chunks() == old(self).max_chunks(),
            final(self).processed() == old(self).processed().push(old(self).position() as int),
            final(self).processed_counts() == old(self).processed_counts().push(chunks@.len()),
    {
        let i = self.scanned;
        let n = chunks.len();
        let ghost old_p = self.proc@;
        let ghost old_c = self.proc_counts@;
        proof {
            assert(old_c.push(n as nat).drop_last() =~= old_c);
            lemma_within_bound(old_c, self.max_chunks as nat);
        }
        if n > self.max_chunks {
            let mut w = owned(self.docs[i].0.as_str());
            w.append(" exceeds max_chunks_per_document (");
            push_decimal(&mut w, n);
            w.append(" > ");
            push_decimal(&mut w, self.max_chunks);
            w.append(")");
            let ghost before = self.warnings();
            self.report.warnings.push(w);
            assert(self.warnings() =~= before.push(over_limit_warning(self.documents()[i as int].0, n as nat, self.max_chunks as nat)));
        } else {
            let mut total: usize = 0;
            let mut k: usize = 0;
            while k < n
                invariant
                    n == chunks@.len(),
                    k <= n,
                    total == chunk_bytes(chunks@.take(k as int)),
                    self.report.total_chars + chunk_bytes(chunks@) <= usize::MAX,
                    chunk_bytes(chunks@.take(k as int)) <= chunk_bytes(chunks@),
                decreases n - k,
            {
                proof {
                    assert(chunks@.take(k + 1).drop_last() =~= chunks@.take(k as int));
                    lemma_chunk_bytes_prefix(chunks@, k + 1);
                }
                let b = byte_len(chunks[k].content.as_str());
                total = total + b;
                k += 1;
            }
            assert(chunks@.take(n as int) =~= chunks@);
            self.report.documents_to_index = self.report.documents_to_index + 1;
            self.report.chunks_total = self.report.chunks_total + n;
            self.report.total_chars = self.report.total_chars + total;
        }
        self.proc = Ghost(old_p.push(i as int));
        self.proc_counts = Ghost(old_c.push(n as nat));
        self.scanned = i + 1;
        self.awaiting = false;
        proof {
            let p = self.proc@;
            let d = self.documents();
            assert forall|j: int| 0 <= j < self.scanned implies (p.contains(j) <==> !unchanged(self.state@, #[trigger] d[j].0, d[j].1)) by {
                if j < i {
                    if old_p.contains(j) {
                        let t = choose|t: int| 0 <= t < old_p.len() && old_p[t] == j;
                        assert(p[t] == j);
                    }
                    if p.contains(j) {
                        let t = choose|t: int| 0 <= t < p.len() && p[t] == j;
                        assert(t != p.len() - 1);
                        assert(old_p[t] == j);
                    }
                } else {
                    assert(p[p.len() - 1] == i);
                }
            }
        }
    }

    /// The dry run's counters and warnings.
    pub fn report(&self) -> (r: DryRunReport)
        ensures
            r.documents_seen == self.tally().0,
            r.documents_skipped == self.tally().1,
            r.documents_to_index == self.tally().2,
            r.chunks_total == self.tally().3,
            r.total_chars == self.tally().4,
            r.warnings@.map_values(|w: String| w@) == self.warnings(),
    {
        let mut warnings: Vec<String> = Vec::new();
        let mut k: usize = 0;
        let ghost w = self.warnings();
        while k < self.report.warnings.len()
            invariant
                k <= self.report.warnings.len(),
                w == self.report.warnings@.map_values(|x: String| x@),
                warnings@.len() == k,
                forall|j: int| 0 <= j < k ==> (#[trigger] warnings@[j])@ == w[j],
            decreases self.report.warnings.len() - k,
        {
            assert(w[k as int] == self.report.warnings@[k as int]@);
            warnings.push(owned(self.report.warnings[k].as_str()));
            k += 1;
        }
        assert(warnings@.map_values(|x: String| x@) =~= w);
        DryRunReport {
            documents_seen: self.report.documents_seen,
            documents_skipped: self.report.documents_skipped,
            documents_to_index: self.report.documents_to_index,
            chunks_total: self.report.chunks_total,
            total_chars: self.report.total_chars,
            warnings,
        }
    }
}

/// `r` splits `0..total` into consecutive ranges of `size` elements, the last possibly shorter.
pub open spec fn batch_plan(total: nat, size: nat, r: Seq<(usize, usize)>) -> bool {
    &&& forall|k: int| 0 <= k < r.len() ==> (#[trigger] r[k]).0 == k * size && r[k].1 == (if k * size + size <= total { k * size + size } else { total as int }) && r[k].0 < r[k].1
    &&& total == 0 ==> r.len() == 0
    &&& total > 0 ==> r.len() > 0 && r.last().1 == total
}

/// Consecutive ranges of at most `size` elements that cover `0..total`, in order
/// (as `slice::chunks(size)` cuts a slice of `total` elements).
pub fn batch_ranges(total: usize, size: usize) -> (r: Vec<(usize, usize)>)
    requires
        size > 0,
    ensures
        batch_plan(total as nat, size as nat, r@),
{
    let mut out: Vec<(usize, usize)> = Vec::new();
    let mut start: usize = 0;
    assert(0 * size == 0) by (nonlinear_arith);
    while start < total
        invariant
            size > 0,
            start < total ==> start == out@.len() * size,
            start <= total,
            out@.len() > 0 ==> out@.last().1 == start,
            out@.len() == 0 ==> start == 0,
            forall|k: int| 0 <= k < out@.len() ==> (#[trigger] out@[k]).0 == k * size && out@[k].1 == (if k * size + size <= total { k * size + size } else { total as int }) && out@[k].0 < out@[k].1,
        decreases total - start,
    {
        let end = if total - start > size { start + size } else { total };
        let ghost k = out@.len() as int;
        out.push((start, end));
        proof {
            assert((k + 1) * size == k * size + size) by (nonlinear_arith);
        }
        start = end;
    }
    out
}

/// The batches in which the texts of a document are embedded: `batch_size` texts at a time,
/// one at a time when the batch size is zero.
pub fn embed_batches(text_count: usize, batch_size: usize) -> (r: Vec<(usize, usize)>)
    ensures
        batch_plan(text_count as nat, if batch_size == 0 { 1 } else { batch_size as nat }, r@),
{
    let size = if batch_size == 0 { 1 } else { batch_size };
    batch_ranges(text_count, size)
}

/// The records to write for the chunks of `document` and their embedding vectors, paired in
/// order; when the counts differ, the extra chunks or vectors are left out.
pub fn build_chunk_records(document: &Document, chunks: &Vec<Chunk>, vectors: Vec<Vec<u32>>) -> (r: Vec<ChunkRecord>)
    ensures
        r@.len() == if chunks@.len() <= vectors@.len() { chunks@.len() } else { vectors@.len() },
        forall|i: int| 0 <= i < r@.len() ==> {
            &&& (#[trigger] r@[i]).point_id as nat == point_id_of(document.raw.uri@, chunks@[i].chunk_index as nat)
            &&& r@[i].vector_bits@ == vectors@[i]@
            &&& r@[i].source_id@ == document.raw.id@
            &&& r@[i].source_uri@ == document.raw.uri@
            &&& r@[i].title@ == document.raw.title@
            &&& r@[i].chunk_index == chunks@[i].chunk_index
            &&& r@[i].content@ == chunks@[i].content@
            &&& r@[i].content_hash@ == document.raw.content_hash@
        },
{
    let n = if chunks.len() <= vectors.len() { chunks.len() } else { vectors.len() };
    let ghost vs = vectors@;
    let mut rest = vectors;
    let mut rev: Vec<Vec<u32>> = Vec::new();
    while rest.len() > 0
        invariant
            rev@.len() + rest@.len() == vs.len(),
            forall|i: int| 0 <= i < rest@.len() ==> #[trigger] rest@[i] == vs[i],
            forall|i: int| 0 <= i < rev@.len() ==> #[trigger] rev@[i] == vs[vs.len() - 1 - i],
        decreases rest.len(),
    {
        let v = rest.pop().unwrap();
        rev.push(v);
    }
    let mut out: Vec<ChunkRecord> = Vec::new();
    while out.len() < n
        invariant
            n <= chunks@.len(),
            n <= vs.len(),
            out@.len() + rev@.len() == vs.len(),
            out@.len() <= n,
            forall|i: int| 0 <= i < rev@.len() ==> #[trigger] rev@[i] == vs[vs.len() - 1 - i],
            forall|i: int| 0 <= i < out@.len() ==> {
                &&& (#[trigger] out@[i]).point_id as nat == point_id_of(document.raw.uri@, chunks@[i].chunk_index as nat)
                &&& out@[i].vector_bits@ == vs[i]@
                &&& out@[i].source_id@ == document.raw.id@
                &&& out@[i].source_uri@ == document.raw.uri@
                &&& out@[i].title@ == document.raw.title@
                &&& out@[i].chunk_index == chunks@[i].chunk_index
                &&& out@[i].content@ == chunks@[i].content@
                &&& out@[i].content_hash@ == document.raw.content_hash@
            },
        decreases n - out.len(),
    {
        let i = out.len();
        let vector_bits = rev.pop().unwrap();
        let chunk = &chunks[i];
        let record = ChunkRecord {
            point_id: chunk_point_id(document.raw.uri.as_str(), chunk.chunk_index),
            vector_bits,
            source_id: owned(document.raw.id.as_str()),
            source_uri: owned(document.raw.uri.as_str()),
            title: owned(document.raw.title.as_str()),
            chunk_index: chunk.chunk_index,
            content: owned(chunk.content.as_str()),
            content_hash: owned(document.raw.content_hash.as_str()),
        };
        out.push(record);
    }
    out
}

proof fn lemma_chunk_bytes_prefix(v: Seq<Chunk>, k: int)
    requires
        0 <= k <= v.len(),
    ensures
        chunk_bytes(v.take(k)) <= chunk_bytes(v),
    decreases v.len() - k,
{
    if k < v.len() {
        lemma_chunk_bytes_prefix(v, k + 1);
        assert(v.take(k + 1).drop_last() =~= v.take(k));
    } else {
        assert(v.take(k) =~= v);
    }
}

} // verus!
