use vstd::prelude::*;
use vstd::string::StringExecFns;
use crate::error::{is_adapter_error, Error};
use crate::text::{chars_of, matches_at, owned, starts_with, str_eq, string_of_range, trim, trim_ws};

verus! {

/// `p` is the position of the first line break of `s`.
pub open spec fn first_newline_at(s: Seq<char>, p: int) -> bool {
    0 <= p < s.len() && s[p] == '\n' && forall|j: int| 0 <= j < p ==> s[j] != '\n'
}

/// `s` with every leading repetition of `p` removed (std `str::trim_start_matches`).
pub open spec fn strip_prefixes(s: Seq<char>, p: Seq<char>) -> Seq<char>
    decreases s.len(),
{
    if p.len() > 0 && starts_with(s, p) {
        strip_prefixes(s.skip(p.len() as int), p)
    } else {
        s
    }
}

/// `s` without trailing `/` characters.
pub open spec fn strip_trailing_slashes(s: Seq<char>) -> Seq<char>
    decreases s.len(),
{
    if s.len() > 0 && s.last() == '/' {
        strip_trailing_slashes(s.drop_last())
    } else {
        s
    }
}

/// One line of a server-sent-events stream of chat deltas.
pub enum SseLine {
    /// Not a `data: ` line.
    Ignore,
    /// The `[DONE]` marker that ends the stream.
    Done,
    /// The payload of a `data: ` line, trimmed.
    Data(String),
}

/// How a trimmed stream line is read: lines that do not start with `data: ` are ignored; the
/// payload is the line without its `data: ` prefixes, trimmed; `[DONE]` ends the stream.
pub open spec fn sse_line_of(line: Seq<char>) -> Option<Option<Seq<char>>> {
    if !starts_with(line, "data: "@) {
        None
    } else {
        let d = trim_ws(strip_prefixes(line, "data: "@));
        if d == "[DONE]"@ {
            Some(None)
        } else {
            Some(Some(d))
        }
    }
}

/// Whether `r` is what `sse_line_of` says of a line.
pub open spec fn sse_matches(r: SseLine, v: Option<Option<Seq<char>>>) -> bool {
    match v {
        None => r is Ignore,
        Some(None) => r is Done,
        Some(Some(d)) => r matches SseLine::Data(s) && s@ == d,
    }
}

/// Reads a trimmed line of a server-sent-events stream.
pub fn classify_sse_line(line: &str) -> (r: SseLine)
    ensures
        sse_matches(r, sse_line_of(line@)),
{
    let v = chars_of(line);
    let p = chars_of("data: ");
    proof {
        reveal_strlit("data: ");
    }
    assert(v@.skip(0) =~= v@);
    if !matches_at(&v, 0, &p) {
        return SseLine::Ignore;
    }
    let mut i: usize = 0;
    while i <= v.len() && matches_at(&v, i, &p)
        invariant
            v@ == line@,
            p@ == "data: "@,
            p@.len() == 6,
            i <= v.len(),
            strip_prefixes(line@, "data: "@) == strip_prefixes(v@.skip(i as int), "data: "@),
        decreases v.len() - i,
    {
        proof {
            assert(v@.skip(i as int).skip(6) =~= v@.skip(i + 6));
        }
        i = i + 6;
    }
    let rest = string_of_range(&v, i, v.len());
    assert(v@.subrange(i as int, v@.len() as int) =~= v@.skip(i as int));
    let d = trim(rest.as_str());
    if str_eq(d.as_str(), "[DONE]") {
        SseLine::Done
    } else {
        SseLine::Data(d)
    }
}

/// Text received from a stream and not yet split into lines.
pub struct LineBuffer {
    buf: Vec<char>,
}

impl View for LineBuffer {
    type V = Seq<char>;

    closed spec fn view(&self) -> Seq<char> {
        self.buf@
    }
}

impl LineBuffer {
    /// An empty buffer.
    pub fn new() -> (b: LineBuffer)
        ensures
            b@ == Seq::<char>::empty(),
    {
        LineBuffer { buf: Vec::new() }
    }

    /// Appends received text.
    pub fn push_text(&mut self, text: &str)
        ensures
            final(self)@ == old(self)@ + text@,
    {
        let t = chars_of(text);
        let mut i: usize = 0;
        let ghost start = self.buf@;
        while i < t.len()
            invariant
                i <= t.len(),
                t@ == text@,
                self.buf@ == start + text@.take(i as int),
            decreases t.len() - i,
        {
            self.buf.push(t[i]);
            assert(text@.take(i + 1) =~= text@.take(i as int).push(text@[i as int]));
            i += 1;
        }
        assert(text@.take(t.len() as int) =~= text@);
    }

    /// Removes the first complete line from the buffer and returns it trimmed; `None` while no
    /// line break has arrived.
    pub fn next_line(&mut self) -> (r: Option<String>)
        ensures
            r is Some <==> old(self)@.contains('\n'),
            forall|p: int| #[trigger] first_newline_at(old(self)@, p) ==> (r matches Some(l) && l@ == trim_ws(old(self)@.take(p)) && final(self)@ == old(self)@.skip(p + 1)),
            r is None ==> final(self)@ == old(self)@,
    {
        let mut p: usize = 0;
        while p < self.buf.len() && self.buf[p] != '\n'
            invariant
                p <= self.buf.len(),
                forall|j: int| 0 <= j < p ==> self.buf@[j] != '\n',
            decreases self.buf.len() - p,
        {
            p += 1;
        }
        if p == self.buf.len() {
            assert(!self.buf@.contains('\n')) by {
                if self.buf@.contains('\n') {
                    let j = choose|j: int| 0 <= j < self.buf@.len() && self.buf@[j] == '\n';
                    assert(self.buf@[j] != '\n');
                }
            }
            return None;
        }
        let ghost old_buf = self.buf@;
        assert(first_newline_at(old_buf, p as int));
        assert forall|q: int| #[trigger] first_newline_at(old_buf, q) implies q == p by {
            if q < p {
                assert(old_buf[q] != '\n');
            } else if q > p {
                assert(old_buf[p as int] != '\n');
            }
        }
        let raw = string_of_range(&self.buf, 0, p);
        assert(old_buf.subrange(0, p as int) =~= old_buf.take(p as int));
        let line = trim(raw.as_str());
        let mut rest: Vec<char> = Vec::new();
        let mut k: usize = p + 1;
        while k < self.buf.len()
            invariant
                p + 1 <= k <= self.buf.len(),
                self.buf@ == old_buf,
                rest@ == old_buf.subrange(p + 1, k as int),
            decreases self.buf.len() - k,
        {
            rest.push(self.buf[k]);
            assert(rest@ =~= old_buf.subrange(p + 1, k + 1));
            k += 1;
        }
        assert(rest@ =~= old_buf.skip(p + 1));
        assert(old_buf.contains('\n')) by {
            assert(old_buf[p as int] == '\n');
        }
        self.buf = rest;
        Some(line)
    }
}

/// `base_url` without trailing slashes (std `str::trim_end_matches('/')`).
pub fn normalize_base_url(base_url: &str) -> (s: String)
    ensures
        s@ == strip_trailing_slashes(base_url@),
{
    let v = chars_of(base_url);
    let mut n: usize = v.len();
    assert(v@.take(n as int) =~= v@);
    while n > 0 && v[n - 1] == '/'
        invariant
            n <= v.len(),
            v@ == base_url@,
            strip_trailing_slashes(base_url@) == strip_trailing_slashes(v@.take(n as int)),
        decreases n,
    {
        assert(v@.take(n as int).drop_last() =~= v@.take(n - 1));
        assert(v@.take(n as int).last() == v@[n - 1]);
        n -= 1;
    }
    assert(v@.subrange(0, n as int) =~= v@.take(n as int));
    assert(n > 0 ==> v@.take(n as int).last() == v@[n - 1]);
    let out = string_of_range(&v, 0, n);
    out
}

/// What to do after one line of an Ollama chat stream.
pub struct StreamStep {
    /// Text to forward to the reader, if any.
    pub emit: Option<String>,
    /// Whether the stream has ended.
    pub stop: bool,
}

/// The step for one non-empty line of an Ollama chat stream, given the line as parsed (its
/// message content and its `done` flag) or the text of the parse error: forward non-empty
/// content, stop at `done`; a line that does not parse ends the stream with an adapter error.
pub fn ollama_stream_step(parsed: Result<(String, bool), String>) -> (r: Result<StreamStep, Error>)
    ensures
        match parsed {
            Ok((content, done)) => r matches Ok(step) && step.stop == done && match step.emit {
                Some(t) => content@.len() > 0 && t@ == content@,
                None => content@.len() == 0,
            },
            Err(e) => is_adapter_error(r, "ollama"@, "stream parse error: "@ + e@),
        },
{
    match parsed {
        Ok((content, done)) => {
            let emit = if content.as_str().is_empty() { None } else { Some(content) };
            Ok(StreamStep { emit, stop: done })
        },
        Err(e) => {
            let mut message = owned("stream parse error: ");
            message.append(e.as_str());
            Err(Error::Adapter { adapter: owned("ollama"), message })
        },
    }
}

} // verus!
