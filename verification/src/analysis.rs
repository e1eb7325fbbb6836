//! What a page analysis decides: which captured exchanges are M3U
//! playlists, what a captured response body reads as, which requests are
//! still waiting for a response, and which analyzers are still active.
use vstd::prelude::*;

use base64::Engine;

use crate::keyed::{key_views, StringMap};
use crate::text::{chars_of, occurs_at_exec, str_equal};
use crate::urls::{parse_url, url_parse};

verus! {

// ---------------------------------------------------------------------------
// Response bodies
// ---------------------------------------------------------------------------

/// The bytes that base64 (standard alphabet, with padding) decodes `input`
/// to, as `base64::engine::general_purpose::STANDARD.decode` gives them; `None`
/// where it refuses the input.
pub uninterp spec fn base64_standard_decode(input: Seq<char>) -> Option<Seq<u8>>;

/// Calls `base64::engine::general_purpose::STANDARD.decode` on the bytes of
/// `input`. Claimed: the result is `base64_standard_decode(input)`.
#[verifier::external_body]
fn decode_base64(input: &str) -> (r: Option<Vec<u8>>)
    ensures
        match r {
            Some(b) => base64_standard_decode(input@) == Some(b@),
            None => base64_standard_decode(input@) is None,
        },
{
    base64::engine::general_purpose::STANDARD.decode(input).ok()
}

/// Calls `String::from_utf8`. Claimed, as its documentation says: it
/// succeeds exactly on valid UTF-8, with the characters those bytes encode.
#[verifier::external_body]
pub(crate) fn string_from_utf8(bytes: Vec<u8>) -> (r: Option<String>)
    ensures
        r is Some <==> vstd::utf8::valid_utf8(bytes@),
        r matches Some(s) ==> s@ == vstd::utf8::decode_utf8(bytes@),
{
    String::from_utf8(bytes).ok()
}

/// The text of a captured body: a base64-encoded body is decoded where it
/// decodes to valid UTF-8, and kept as it is otherwise.
pub open spec fn body_text(body: Seq<char>, base64_encoded: bool) -> Seq<char> {
    if base64_encoded {
        match base64_standard_decode(body) {
            Some(bytes) => if vstd::utf8::valid_utf8(bytes) {
                vstd::utf8::decode_utf8(bytes)
            } else {
                body
            },
            None => body,
        }
    } else {
        body
    }
}

/// The text of a captured response body.
pub fn decode_body(body: String, base64_encoded: bool) -> (r: String)
    ensures
        r@ == body_text(body@, base64_encoded),
{
    if base64_encoded {
        match decode_base64(body.as_str()) {
            Some(bytes) => match string_from_utf8(bytes) {
                Some(text) => text,
                None => body,
            },
            None => body,
        }
    } else {
        body
    }
}

// ---------------------------------------------------------------------------
// M3U exchanges
// ---------------------------------------------------------------------------

/// `s` ends with `p`.
pub open spec fn ends_with(s: Seq<char>, p: Seq<char>) -> bool {
    p.len() <= s.len() && s.subrange(s.len() - p.len(), s.len() as int) == p
}

/// The MIME types an M3U playlist is served as.
pub open spec fn is_m3u_mime(m: Seq<char>) -> bool {
    ||| m == "application/vnd.apple.mpegurl"@
    ||| m == "application/x-mpegurl"@
    ||| m == "audio/mpegurl"@
    ||| m == "audio/x-mpegurl"@
}

/// An exchange that fetched an M3U playlist: a `GET` of a URL ending in
/// `.m3u` or `.m3u8`, or a response served with an M3U MIME type.
pub open spec fn is_m3u_exchange(method: Seq<char>, url: Seq<char>, mime: Option<Seq<char>>) -> bool {
    ||| (method == "GET"@ && (ends_with(url, ".m3u"@) || ends_with(url, ".m3u8"@)))
    ||| (mime matches Some(m) && is_m3u_mime(m))
}

fn ends_with_exec(s: &str, p: &str) -> (b: bool)
    ensures
        b == ends_with(s@, p@),
{
    let sc = chars_of(s);
    let pc = chars_of(p);
    if pc.len() > sc.len() {
        return false;
    }
    let r = occurs_at_exec(&sc, &pc, sc.len() - pc.len());
    r
}

/// Whether a captured exchange fetched an M3U playlist.
pub fn m3u_exchange(method: &str, url: &str, mime: Option<&str>) -> (b: bool)
    ensures
        b == is_m3u_exchange(method@, url@, match mime { Some(m) => Some(m@), None => None }),
{
    if str_equal(method, "GET") && (ends_with_exec(url, ".m3u") || ends_with_exec(url, ".m3u8")) {
        return true;
    }
    match mime {
        Some(m) => str_equal(m, "application/vnd.apple.mpegurl") || str_equal(
            m,
            "application/x-mpegurl",
        ) || str_equal(m, "audio/mpegurl") || str_equal(m, "audio/x-mpegurl"),
        None => false,
    }
}

/// A captured M3U playlist: where it was fetched from, and its text.
#[derive(Debug, Clone)]
pub struct M3URequest {
    pub url: String,
    pub contents: String,
}

/// Collects the M3U playlists a page fetches.
#[derive(Debug, Clone)]
pub struct M3UAnalyzer {
    pub requests: Vec<M3URequest>,
}

impl M3UAnalyzer {
    /// An analyzer that has captured nothing.
    pub fn new() -> (a: Self)
        ensures
            a.requests@.len() == 0,
    {
        M3UAnalyzer { requests: Vec::new() }
    }

    /// Records a captured playlist after those captured before.
    pub fn record(&mut self, url: String, contents: String)
        ensures
            final(self).requests@ == old(self).requests@.push(M3URequest { url, contents }),
    {
        self.requests.push(M3URequest { url, contents });
    }

    /// Looks at a captured exchange. One that did not fetch an M3U playlist
    /// is ignored. A playlist is filed under its URL as `url::Url::parse`
    /// reads it; where the URL does not parse, nothing is recorded. A
    /// playlist that came without a body (or with an empty one) has to be
    /// fetched again from that parsed URL, and is recorded by `record` once
    /// it is; any other playlist is recorded with its body.
    pub fn inspect(&mut self, method: &str, url: &str, mime: Option<&str>, body: Option<String>) -> (step:
        M3UStep)
        ensures
            ({
                let hit = is_m3u_exchange(method@, url@, match mime { Some(m) => Some(m@), None => None });
                let parsed = url_parse(url@);
                let before = old(self).requests@;
                let after = final(self).requests@;
                let empty = body is None || body->0@.len() == 0;
                &&& !hit ==> step is Ignore && after == before
                &&& hit && parsed is None ==> step is InvalidUrl && after == before
                &&& hit && parsed is Some && empty ==> step is FetchBody && parsed == Some(step->url@) && after
                    == before
                &&& hit && parsed is Some && !empty ==> step is Recorded && after.len() == before.len() + 1
                    && after.drop_last() == before && parsed == Some(after.last().url@) && after.last().contents
                    == body->0
            }),
    {
        if !m3u_exchange(method, url, mime) {
            return M3UStep::Ignore;
        }
        let parsed = match parse_url(url) {
            Some(u) => u,
            None => return M3UStep::InvalidUrl,
        };
        match body {
            None => M3UStep::FetchBody { url: parsed },
            Some(b) => {
                if b.as_str().unicode_len() == 0 {
                    M3UStep::FetchBody { url: parsed }
                } else {
                    let ghost before = self.requests@;
                    self.record(parsed, b);
                    assert(self.requests@.drop_last() =~= before);
                    M3UStep::Recorded
                }
            },
        }
    }
}

/// What became of an exchange shown to an M3U analyzer.
#[derive(Debug, Clone)]
pub enum M3UStep {
    /// It did not fetch a playlist.
    Ignore,
    /// It fetched a playlist whose URL does not parse; nothing was recorded.
    InvalidUrl,
    /// It fetched a playlist whose body has to be fetched again from `url`.
    FetchBody { url: String },
    /// Its playlist was recorded.
    Recorded,
}

// ---------------------------------------------------------------------------
// Capture bookkeeping
// ---------------------------------------------------------------------------

/// The analyzers still active: those of `active` whose analysis is not done.
pub open spec fn still_active(active: Seq<usize>, done: Seq<bool>) -> Seq<usize>
    decreases active.len(),
{
    if active.len() == 0 || done.len() != active.len() {
        active
    } else if done.last() {
        still_active(active.drop_last(), done.drop_last())
    } else {
        still_active(active.drop_last(), done.drop_last()).push(active.last())
    }
}

/// The analyzers still active are active ones that are not done, and
/// every active one that is not done is still active.
pub proof fn lemma_still_active(active: Seq<usize>, done: Seq<bool>)
    requires
        done.len() == active.len(),
    ensures
        forall|x: usize| #[trigger] still_active(active, done).contains(x) ==> exists|i: int|
            0 <= i < active.len() && active[i] == x && !done[i],
        forall|i: int| 0 <= i < active.len() && !done[i] ==> #[trigger] still_active(active, done).contains(
            active[i],
        ),
    decreases active.len(),
{
    if active.len() > 0 {
        let a = active.drop_last();
        let d = done.drop_last();
        lemma_still_active(a, d);
        let r = still_active(a, d);
        assert forall|x: usize| #[trigger] still_active(active, done).contains(x) implies exists|i: int|
            0 <= i < active.len() && active[i] == x && !done[i] by {
            if r.contains(x) {
                let i = choose|i: int| 0 <= i < a.len() && a[i] == x && !d[i];
                assert(active[i] == x && !done[i]);
            } else {
                assert(!done.last() && x == active.last());
                assert(active[active.len() - 1] == x);
            }
        }
        assert forall|i: int| 0 <= i < active.len() && !done[i] implies #[trigger] still_active(
            active,
            done,
        ).contains(active[i]) by {
            if i < active.len() - 1 {
                assert(a[i] == active[i] && d[i] == done[i]);
                assert(r.contains(a[i]));
                if !done.last() {
                    let j = choose|j: int| 0 <= j < r.len() && r[j] == a[i];
                    assert(r.push(active.last())[j] == a[i]);
                }
            } else {
                assert(still_active(active, done) == r.push(active.last()));
                assert(r.push(active.last())[r.len() as int] == active[i]);
            }
        }
    }
}

/// An analyzer that is not active does not become active.
pub proof fn lemma_still_active_within(active: Seq<usize>, done: Seq<bool>, x: usize)
    requires
        !active.contains(x),
    ensures
        !still_active(active, done).contains(x),
{
    if done.len() == active.len() {
        lemma_still_active(active, done);
        if still_active(active, done).contains(x) {
            let i = choose|i: int| 0 <= i < active.len() && active[i] == x && !done[i];
            assert(active.contains(x));
        }
    }
}

/// Distinct analyzer indices.
pub open spec fn distinct_indices(s: Seq<usize>) -> bool {
    forall|j: int, k: int| 0 <= j < k < s.len() ==> s[j] != s[k]
}

/// Dropping the analyzers that are done keeps the indices distinct.
pub proof fn lemma_still_active_distinct(active: Seq<usize>, done: Seq<bool>)
    requires
        distinct_indices(active),
    ensures
        distinct_indices(still_active(active, done)),
    decreases active.len(),
{
    if active.len() > 0 && done.len() == active.len() {
        let a = active.drop_last();
        let d = done.drop_last();
        assert(distinct_indices(a));
        lemma_still_active_distinct(a, d);
        if !done.last() {
            let r = still_active(a, d);
            assert(!a.contains(active.last())) by {
                if a.contains(active.last()) {
                    let j = choose|j: int| 0 <= j < a.len() && a[j] == active.last();
                    assert(active[j] == active[active.len() - 1]);
                }
            }
            lemma_still_active_within(a, d, active.last());
            assert forall|j: int, k: int| 0 <= j < k < r.push(active.last()).len() implies r.push(
                active.last(),
            )[j] != r.push(active.last())[k] by {
                if k == r.len() {
                    assert(r.contains(r[j]));
                }
            }
        }
    }
}

/// The requests waiting for a response after `request` is sent under `id`.
pub open spec fn waiting_after_request<R>(pending: Map<Seq<char>, R>, id: Seq<char>, request: R) -> Map<
    Seq<char>,
    R,
> {
    pending.insert(id, request)
}

/// The requests waiting for a response after a response for `id` arrived.
pub open spec fn waiting_after_response<R>(pending: Map<Seq<char>, R>, id: Seq<char>) -> Map<Seq<char>, R> {
    pending.remove(id)
}

/// The request a response for `id` answers, if one is waiting.
pub open spec fn answered_request<R>(pending: Map<Seq<char>, R>, id: Seq<char>) -> Option<R> {
    if pending.contains_key(id) {
        Some(pending[id])
    } else {
        None
    }
}

/// The state of a page capture: the requests that have not had a response
/// yet (by request id), and the analyzers that still want exchanges.
pub struct CaptureSession<R> {
    pub pending: StringMap<R>,
    pub active: Vec<usize>,
}

impl<R> CaptureSession<R> {
    /// A capture for `analyzers` analyzers, all active, with nothing pending.
    pub fn new(analyzers: usize) -> (s: Self)
        ensures
            s.pending@ == Map::<Seq<char>, R>::empty(),
            s.active@.len() == analyzers,
            forall|i: int| 0 <= i < analyzers ==> #[trigger] s.active@[i] == i,
            distinct_indices(s.active@),
    {
        let mut active: Vec<usize> = Vec::new();
        let mut i: usize = 0;
        while i < analyzers
            invariant
                i <= analyzers,
                active@.len() == i,
                forall|k: int| 0 <= k < i ==> #[trigger] active@[k] == k,
            decreases analyzers - i,
        {
            active.push(i);
            i = i + 1;
        }
        CaptureSession { pending: StringMap::new(), active }
    }

    /// A request was sent: it waits for its response (a request sent again
    /// under the same id replaces the earlier one).
    pub fn on_request(&mut self, id: String, request: R)
        ensures
            final(self).pending@ == waiting_after_request(old(self).pending@, id@, request),
            final(self).active@ == old(self).active@,
    {
        self.pending.insert(id, request);
    }

    /// A response arrived: the request it answers, if one was waiting, is
    /// handed back for analysis and waits no more.
    pub fn on_response(&mut self, id: &str) -> (r: Option<R>)
        ensures
            final(self).pending@ == waiting_after_response(old(self).pending@, id@),
            final(self).active@ == old(self).active@,
            r == answered_request(old(self).pending@, id@),
    {
        self.pending.remove(id)
    }

    /// Drops the analyzers whose analysis is done (`done[k]` for the `k`-th
    /// active analyzer); whether none is left.
    pub fn retire(&mut self, done: &Vec<bool>) -> (finished: bool)
        requires
            done@.len() == old(self).active@.len(),
        ensures
            final(self).active@ == still_active(old(self).active@, done@),
            distinct_indices(old(self).active@) ==> distinct_indices(final(self).active@),
            final(self).pending@ == old(self).pending@,
            finished == (final(self).active@.len() == 0),
    {
        let mut kept: Vec<usize> = Vec::new();
        let n = self.active.len();
        let mut i: usize = 0;
        assert(self.active@.take(0) =~= Seq::<usize>::empty());
        while i < n
            invariant
                n == self.active@.len(),
                n == done@.len(),
                i <= n,
                kept@ == still_active(self.active@.take(i as int), done@.take(i as int)),
            decreases n - i,
        {
            assert(self.active@.take(i + 1).drop_last() =~= self.active@.take(i as int));
            assert(done@.take(i + 1).drop_last() =~= done@.take(i as int));
            if !done[i] {
                kept.push(self.active[i]);
            }
            i = i + 1;
        }
        assert(self.active@.take(n as int) =~= self.active@);
        assert(done@.take(n as int) =~= done@);
        proof {
            if distinct_indices(self.active@) {
                lemma_still_active_distinct(self.active@, done@);
            }
        }
        self.active = kept;
        self.active.len() == 0
    }

    /// The requests that never had a response, in the order in which they
    /// were first sent; nothing waits afterwards.
    pub fn unanswered(&mut self) -> (r: Vec<(String, R)>)
        ensures
            key_views(r@) == old(self).pending.pairs(),
            final(self).pending@ == Map::<Seq<char>, R>::empty(),
            final(self).active@ == old(self).active@,
    {
        self.pending.drain()
    }
}

} // verus!
