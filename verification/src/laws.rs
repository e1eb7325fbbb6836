//! Properties that hold across the library's operations.
use vstd::prelude::*;

use crate::config::{indexer_path, resolved_value, unicode_lowercase};
use crate::download::{
    next_progress, next_skip, progress_ok, start_progress, SegmentAction, SegmentProgress,
};
use crate::analysis::{
    answered_request, distinct_indices, lemma_still_active, lemma_still_active_distinct, lemma_still_active_within,
    still_active, waiting_after_request, waiting_after_response,
};
use crate::headers::{header_lookup, header_value_ok, header_value_visible, headers_with};
use crate::request::{curl_args, curl_header_args, sent_headers, with_cookies, FlareSolverrCookie};
use crate::analysis::is_m3u_exchange;
use crate::headers::header_name_lowercase_ok;
use crate::tmdb::{dec, tmdb_url};
use crate::m3u::{attribute_resolution, find_resolution_attribute, playlist_model, tag_resolution};
use crate::text::{
    all_digits, ascii_lowercase, contains, decimal, digit_char, digit_value, digits_value, is_digit, is_whitespace,
    lemma_split_nonempty, parse_u32, occurs_at, replace_all, split, starts_with,
    trim, trim_end, trim_start,
};

verus! {

// ---------------------------------------------------------------------------
// Playlists
// ---------------------------------------------------------------------------

proof fn lemma_trim_start_shape(s: Seq<char>)
    ensures
        trim_start(s).len() == 0 || !is_whitespace(trim_start(s)[0]),
    decreases s.len(),
{
    if s.len() > 0 && is_whitespace(s[0]) {
        lemma_trim_start_shape(s.drop_first());
    }
}

proof fn lemma_trim_end_shape(s: Seq<char>)
    ensures
        trim_end(s).len() == 0 || !is_whitespace(trim_end(s).last()),
        trim_end(s).len() <= s.len(),
        trim_end(s) == s.subrange(0, trim_end(s).len() as int),
    decreases s.len(),
{
    if s.len() > 0 && is_whitespace(s.last()) {
        lemma_trim_end_shape(s.drop_last());
        assert(s.drop_last().subrange(0, trim_end(s).len() as int) =~= s.subrange(
            0,
            trim_end(s).len() as int,
        ));
    } else {
        assert(s.subrange(0, s.len() as int) =~= s);
    }
}

/// Trimming twice is trimming once.
pub proof fn lemma_trim_idempotent(x: Seq<char>)
    ensures
        trim(trim(x)) == trim(x),
{
    let y = trim_start(x);
    lemma_trim_start_shape(x);
    let z = trim_end(y);
    lemma_trim_end_shape(y);
    if z.len() > 0 {
        assert(z[0] == y[0]);
    }
    assert(trim_start(z) == z);
    assert(trim_end(z) == z);
}

/// Whitespace around a playlist's text does not change what it parses to.
pub proof fn law_playlist_ignores_surrounding_whitespace(contents: Seq<char>)
    ensures
        playlist_model(trim(contents)) == playlist_model(contents),
{
    lemma_trim_idempotent(contents);
}

// ---------------------------------------------------------------------------
// Header values
// ---------------------------------------------------------------------------

/// Replacing a pattern that does not occur changes nothing.
pub proof fn lemma_replace_absent(s: Seq<char>, pat: Seq<char>, rep: Seq<char>)
    requires
        !contains(s, pat),
    ensures
        replace_all(s, pat, rep) == s,
    decreases s.len(),
{
    if s.len() > 0 && pat.len() > 0 {
        assert(!starts_with(s, pat)) by {
            if starts_with(s, pat) {
                assert(occurs_at(s, pat, 0));
            }
        }
        let t = s.drop_first();
        assert(!contains(t, pat)) by {
            if contains(t, pat) {
                let i = choose|i: int| occurs_at(t, pat, i);
                assert(s.subrange(i + 1, i + 1 + pat.len()) =~= t.subrange(i, i + pat.len()));
                assert(occurs_at(s, pat, i + 1));
            }
        }
        lemma_replace_absent(t, pat, rep);
        assert(seq![s[0]] + t =~= s);
    }
}

/// Resolving placeholders leaves a header value without placeholders as it is.
pub proof fn law_resolution_only_touches_placeholders(
    value: Seq<char>,
    base_url: Seq<char>,
    stream_url: Seq<char>,
)
    requires
        !contains(value, "{base_url}"@),
        !contains(value, "{stream_url}"@),
    ensures
        resolved_value(value, base_url, stream_url) == value,
{
    lemma_replace_absent(value, "{base_url}"@, base_url);
    lemma_replace_absent(value, "{stream_url}"@, stream_url);
    if header_value_visible(value) {
        assert(header_value_ok(value));
    }
}

// ---------------------------------------------------------------------------
// Segment tries
// ---------------------------------------------------------------------------

/// Where a download stands after tries with the outcomes `outcomes`,
/// starting at `p` with the action `a` (tries stop once the action is not a
/// download).
pub open spec fn run_progress(p: SegmentProgress, a: SegmentAction, outcomes: Seq<bool>) -> (
    SegmentProgress,
    SegmentAction,
)
    decreases outcomes.len(),
{
    if outcomes.len() == 0 || !(a is Download) {
        (p, a)
    } else {
        let (q, b) = next_progress(p, outcomes[0]);
        run_progress(q, b, outcomes.drop_first())
    }
}

/// Every segment and try that a download is asked to fetch is a real one:
/// a segment below the total, and a try between 1 and the number allowed.
pub proof fn law_tries_stay_in_range(p: SegmentProgress, succeeded: bool, total: usize, attempts: u32)
    requires
        progress_ok(p),
    ensures
        start_progress(total, attempts).1 is Download ==> progress_ok(start_progress(total, attempts).0),
        next_progress(p, succeeded).1 is Download ==> progress_ok(next_progress(p, succeeded).0),
        next_progress(p, succeeded).1 matches SegmentAction::Download { segment, attempt } ==> segment
            == next_progress(p, succeeded).0.segment && attempt == next_progress(p, succeeded).0.attempt,
{
}

proof fn lemma_successes_finish(p: SegmentProgress, n: nat)
    requires
        progress_ok(p),
        p.attempt == 1,
        n == p.total - p.segment,
    ensures
        run_progress(
            p,
            SegmentAction::Download { segment: p.segment, attempt: 1 },
            Seq::new(n, |i: int| true),
        ).1 == SegmentAction::Finished,
    decreases n,
{
    let outcomes = Seq::new(n, |i: int| true);
    let (q, b) = next_progress(p, true);
    if p.segment + 1 == p.total {
        assert(run_progress(q, b, outcomes.drop_first()) == (q, b));
    } else {
        assert(outcomes.drop_first() =~= Seq::new((n - 1) as nat, |i: int| true));
        lemma_successes_finish(q, (n - 1) as nat);
    }
}

/// A download whose every try succeeds finishes after one try per segment.
pub proof fn law_successful_tries_finish(total: usize, attempts: u32)
    requires
        total > 0,
        attempts > 0,
    ensures
        run_progress(
            start_progress(total, attempts).0,
            start_progress(total, attempts).1,
            Seq::new(total as nat, |i: int| true),
        ).1 == SegmentAction::Finished,
{
    lemma_successes_finish(start_progress(total, attempts).0, total as nat);
}

proof fn lemma_failures_give_up(p: SegmentProgress, n: nat)
    requires
        progress_ok(p),
        n == p.attempts - p.attempt + 1,
    ensures
        run_progress(
            p,
            SegmentAction::Download { segment: p.segment, attempt: p.attempt },
            Seq::new(n, |i: int| false),
        ) == (SegmentProgress { attempt: p.attempts, ..p }, SegmentAction::GiveUp),
    decreases n,
{
    let outcomes = Seq::new(n, |i: int| false);
    let (q, b) = next_progress(p, false);
    if p.attempt == p.attempts {
        assert(run_progress(q, b, outcomes.drop_first()) == (q, b));
    } else {
        assert(outcomes.drop_first() =~= Seq::new((n - 1) as nat, |i: int| false));
        lemma_failures_give_up(q, (n - 1) as nat);
    }
}

/// A segment whose every try fails is tried exactly as many times as
/// allowed, and then the download gives up at that segment.
pub proof fn law_failing_segment_gives_up(total: usize, attempts: u32)
    requires
        total > 0,
        attempts > 0,
    ensures
        run_progress(
            start_progress(total, attempts).0,
            start_progress(total, attempts).1,
            Seq::new(attempts as nat, |i: int| false),
        ) == (SegmentProgress { segment: 0, attempt: attempts, total, attempts }, SegmentAction::GiveUp),
{
    lemma_failures_give_up(start_progress(total, attempts).0, attempts as nat);
}

/// The tries a download makes from `p` with the action `a` when its tries
/// have the outcomes `outcomes`, in order: for each, the segment fetched,
/// the number of the try, and whether it succeeded. Before each try the
/// status `SegmentProgress::status` shows is that segment of the total.
pub open spec fn run_tries(p: SegmentProgress, a: SegmentAction, outcomes: Seq<bool>) -> Seq<(usize, u32, bool)>
    decreases outcomes.len(),
{
    if outcomes.len() == 0 || !(a is Download) {
        Seq::empty()
    } else {
        let (q, b) = next_progress(p, outcomes[0]);
        seq![(p.segment, p.attempt, outcomes[0])] + run_tries(q, b, outcomes.drop_first())
    }
}

/// The segments whose bytes a download appends to its output, in order:
/// those of the tries that succeeded.
pub open spec fn run_appended(p: SegmentProgress, a: SegmentAction, outcomes: Seq<bool>) -> Seq<usize>
    decreases outcomes.len(),
{
    if outcomes.len() == 0 || !(a is Download) {
        Seq::empty()
    } else {
        let (q, b) = next_progress(p, outcomes[0]);
        let rest = run_appended(q, b, outcomes.drop_first());
        if outcomes[0] {
            seq![p.segment] + rest
        } else {
            rest
        }
    }
}

/// The segments from `from` up to (not including) `to`, in order.
pub open spec fn segment_range(from: usize, to: usize) -> Seq<usize> {
    Seq::new((to - from) as nat, |i: int| (from + i) as usize)
}

/// A progress and action that a download can be at.
pub open spec fn step_ok(p: SegmentProgress, a: SegmentAction) -> bool {
    match a {
        SegmentAction::Download { segment, attempt } => progress_ok(p) && segment == p.segment && attempt
            == p.attempt,
        SegmentAction::Skip { segment } => segment == p.segment && p.segment < p.total && p.attempts == 0,
        SegmentAction::Finished => p.segment == p.total,
        SegmentAction::GiveUp => progress_ok(p) && p.attempt == p.attempts,
    }
}

proof fn lemma_run(p: SegmentProgress, a: SegmentAction, o: Seq<bool>)
    requires
        step_ok(p, a),
    ensures
        ({
            let t = run_tries(p, a, o);
            let (f, b) = run_progress(p, a, o);
            &&& step_ok(f, b)
            &&& f.total == p.total && f.attempts == p.attempts && p.segment <= f.segment
            &&& t.len() <= o.len()
            &&& forall|j: int| 0 <= j < t.len() ==> #[trigger] t[j].2 == o[j]
            &&& t.len() > 0 ==> a is Download && t[0].0 == p.segment && t[0].1 == p.attempt
            &&& forall|j: int|
                0 <= j < t.len() ==> p.segment <= #[trigger] t[j].0 < p.total && 1 <= t[j].1 <= p.attempts
            &&& forall|j: int|
                0 <= j < t.len() - 1 ==> (#[trigger] t[j].2 ==> t[j + 1].0 == t[j].0 + 1 && t[j + 1].1 == 1)
                    && (!t[j].2 ==> t[j + 1].0 == t[j].0 && t[j + 1].1 == t[j].1 + 1)
            &&& b is Download ==> t.len() == o.len()
            &&& (a is Download && b is GiveUp) ==> t.len() > 0 && t.last() == (f.segment, p.attempts, false)
            &&& (a is Download && b is Finished) ==> t.len() > 0 && t.last().2 && t.last().0 + 1 == p.total
            &&& run_appended(p, a, o) == segment_range(p.segment, f.segment)
        }),
    decreases o.len(),
{
    if o.len() == 0 || !(a is Download) {
        assert(segment_range(p.segment, p.segment) =~= Seq::<usize>::empty());
    } else {
        let (q, c) = next_progress(p, o[0]);
        let rest = o.drop_first();
        lemma_run(q, c, rest);
        let t1 = run_tries(q, c, rest);
        let t = run_tries(p, a, o);
        let head = (p.segment, p.attempt, o[0]);
        assert(t == seq![head] + t1);
        assert forall|j: int| 0 <= j < t.len() implies #[trigger] t[j].2 == o[j] by {
            if j > 0 {
                assert(t[j] == t1[j - 1]);
                assert(rest[j - 1] == o[j]);
            }
        }
        assert forall|j: int| 0 <= j < t.len() implies p.segment <= #[trigger] t[j].0 < p.total && 1 <= t[j].1
            <= p.attempts by {
            if j > 0 {
                assert(t[j] == t1[j - 1]);
            }
        }
        assert forall|j: int| 0 <= j < t.len() - 1 implies (#[trigger] t[j].2 ==> t[j + 1].0 == t[j].0 + 1
            && t[j + 1].1 == 1) && (!t[j].2 ==> t[j + 1].0 == t[j].0 && t[j + 1].1 == t[j].1 + 1) by {
            assert(t[j + 1] == t1[j]);
            if j > 0 {
                assert(t[j] == t1[j - 1]);
            }
        }
        if t1.len() > 0 {
            assert(t.last() == t1.last());
        }
        let (f, b) = run_progress(q, c, rest);
        if o[0] {
            assert(run_appended(p, a, o) == seq![p.segment] + run_appended(q, c, rest));
            assert(seq![p.segment] + segment_range(q.segment, f.segment) =~= segment_range(p.segment, f.segment));
        } else {
            assert(run_appended(p, a, o) == run_appended(q, c, rest));
        }
    }
}

/// A whole segmented download, for any outcomes of its tries. Its tries
/// start at the first try of the first segment; each names a segment below
/// the total and a try between 1 and the number allowed; a try that
/// succeeds is followed by the first try of the next segment, one that
/// fails by the next try of the same segment. So the status before each try
/// counts segments up from 0, one at a time, below the total, and none is
/// shown where there are no segments. The bytes appended are those of the
/// segments 0, 1, 2, ... in order, each once: all of them where the
/// download finishes, and where it gives up, the segment it gives up at has
/// failed its last allowed try. (Where no tries are allowed, the download
/// passes over its segments instead: see `law_no_tries_pass_over_segments`.)
pub proof fn law_download_run(total: usize, attempts: u32, outcomes: Seq<bool>)
    ensures
        ({
            let (p, a) = start_progress(total, attempts);
            let t = run_tries(p, a, outcomes);
            let (f, b) = run_progress(p, a, outcomes);
            &&& forall|j: int| 0 <= j < t.len() ==> #[trigger] t[j].2 == outcomes[j]
            &&& t.len() > 0 ==> t[0].0 == 0 && t[0].1 == 1
            &&& total == 0 ==> t.len() == 0
            &&& forall|j: int| 0 <= j < t.len() ==> #[trigger] t[j].0 < total && 1 <= t[j].1 <= attempts
            &&& forall|j: int|
                0 <= j < t.len() - 1 ==> (#[trigger] t[j].2 ==> t[j + 1].0 == t[j].0 + 1 && t[j + 1].1 == 1)
                    && (!t[j].2 ==> t[j + 1].0 == t[j].0 && t[j + 1].1 == t[j].1 + 1)
            &&& b is Download ==> t.len() == outcomes.len()
            &&& run_appended(p, a, outcomes) == segment_range(0, f.segment)
            &&& b is Finished ==> f.segment == total && run_appended(p, a, outcomes) == segment_range(0, total)
            &&& attempts > 0 ==> !(b is Skip)
            &&& b is GiveUp ==> t.len() > 0 && t.last() == (f.segment, attempts, false) && f.segment < total
        }),
{
    let (p, a) = start_progress(total, attempts);
    lemma_run(p, a, outcomes);
}

/// The segments a download passes over from `p` with the action `a`, in
/// order, and where it ends up.
pub open spec fn run_skips(p: SegmentProgress, a: SegmentAction) -> (Seq<usize>, SegmentProgress, SegmentAction)
    decreases p.total - p.segment,
{
    if a is Skip && p.segment < p.total {
        let (q, b) = next_skip(p);
        let (rest, f, c) = run_skips(q, b);
        (seq![p.segment] + rest, f, c)
    } else {
        (Seq::empty(), p, a)
    }
}

proof fn lemma_skips_from(p: SegmentProgress)
    requires
        p.segment < p.total,
        p.attempts == 0,
    ensures
        run_skips(p, SegmentAction::Skip { segment: p.segment }).0 == segment_range(p.segment, p.total),
        run_skips(p, SegmentAction::Skip { segment: p.segment }).1.segment == p.total,
        run_skips(p, SegmentAction::Skip { segment: p.segment }).2 == SegmentAction::Finished,
    decreases p.total - p.segment,
{
    let (q, b) = next_skip(p);
    if q.segment < q.total {
        lemma_skips_from(q);
        assert(seq![p.segment] + segment_range(q.segment, q.total) =~= segment_range(p.segment, p.total));
    } else {
        assert(run_skips(q, b) == (Seq::<usize>::empty(), q, b));
        assert(seq![p.segment] + Seq::<usize>::empty() =~= segment_range(p.segment, p.total));
    }
}

/// A download allowed no tries shows each of its segments in turn, 0, 1,
/// 2, ... up to the last, as the current one, makes no try, and finishes.
pub proof fn law_no_tries_pass_over_segments(total: usize, outcomes: Seq<bool>)
    requires
        total > 0,
    ensures
        start_progress(total, 0).1 == (SegmentAction::Skip { segment: 0 }),
        run_skips(start_progress(total, 0).0, start_progress(total, 0).1).0 == segment_range(0, total),
        run_skips(start_progress(total, 0).0, start_progress(total, 0).1).2 == SegmentAction::Finished,
        run_tries(start_progress(total, 0).0, start_progress(total, 0).1, outcomes).len() == 0,
{
    lemma_skips_from(start_progress(total, 0).0);
}

// ---------------------------------------------------------------------------
// Names
// ---------------------------------------------------------------------------

/// Indexer names that differ only in case are stored in the same file.
pub proof fn law_indexer_path_ignores_case(a: Seq<char>, b: Seq<char>)
    requires
        unicode_lowercase(a) == unicode_lowercase(b),
    ensures
        indexer_path(a) == indexer_path(b),
{
}

/// A header filed under a name is found under that name in any ASCII case
/// (`HeaderMap::insert`, then `HeaderMap::get`), and filing it leaves what
/// is found under every other name as it was.
pub proof fn law_header_names_ignore_ascii_case(
    m: Map<Seq<char>, Seq<char>>,
    name: Seq<char>,
    lookup: Seq<char>,
    value: Seq<char>,
)
    ensures
        ascii_lowercase(name) == ascii_lowercase(lookup) ==> header_lookup(headers_with(m, name, value), lookup)
            == Some(value),
        ascii_lowercase(name) != ascii_lowercase(lookup) ==> header_lookup(headers_with(m, name, value), lookup)
            == header_lookup(m, lookup),
{
}

// ---------------------------------------------------------------------------
// Requests
// ---------------------------------------------------------------------------

/// A request that is sent and then answered is handed back by
/// `CaptureSession::on_response` once: a second response under its id
/// finds nothing. The requests waiting under other ids are untouched.
pub proof fn law_answered_request_leaves<R>(
    pending: Map<Seq<char>, R>,
    id: Seq<char>,
    request: R,
    other: Seq<char>,
)
    ensures
        answered_request(waiting_after_request(pending, id, request), id) == Some(request),
        answered_request(waiting_after_response(waiting_after_request(pending, id, request), id), id)
            is None,
        other != id ==> answered_request(waiting_after_response(waiting_after_request(pending, id, request), id), other)
            == answered_request(pending, other),
{
}

/// The headers a request is sent with (`request_headers`): without headers
/// of its own, those of the requester; with headers of its own, a name
/// that it has takes its value, any other name the requester's value.
pub proof fn law_request_headers_override(
    own: Map<Seq<char>, Seq<char>>,
    extra: Map<Seq<char>, Seq<char>>,
    name: Seq<char>,
)
    ensures
        header_lookup(sent_headers(own, None), name) == header_lookup(own, name),
        header_lookup(extra, name) is Some ==> header_lookup(sent_headers(own, Some(extra)), name)
            == header_lookup(extra, name),
        header_lookup(extra, name) is None ==> header_lookup(sent_headers(own, Some(extra)), name)
            == header_lookup(own, name),
{
}

// ---------------------------------------------------------------------------
// Page capture
// ---------------------------------------------------------------------------

/// The analyzers still active after each round of `CaptureSession::retire`
/// in turn, with the done flags `rounds`.
pub open spec fn active_after_rounds(active: Seq<usize>, rounds: Seq<Seq<bool>>) -> Seq<usize>
    decreases rounds.len(),
{
    if rounds.len() == 0 {
        active
    } else {
        active_after_rounds(still_active(active, rounds[0]), rounds.drop_first())
    }
}

proof fn lemma_rounds_within(active: Seq<usize>, rounds: Seq<Seq<bool>>, x: usize)
    requires
        !active.contains(x),
    ensures
        !active_after_rounds(active, rounds).contains(x),
    decreases rounds.len(),
{
    if rounds.len() > 0 {
        lemma_still_active_within(active, rounds[0], x);
        lemma_rounds_within(still_active(active, rounds[0]), rounds.drop_first(), x);
    }
}

proof fn lemma_rounds_concat(active: Seq<usize>, r1: Seq<Seq<bool>>, r2: Seq<Seq<bool>>)
    ensures
        active_after_rounds(active, r1 + r2) == active_after_rounds(active_after_rounds(active, r1), r2),
    decreases r1.len(),
{
    if r1.len() > 0 {
        assert((r1 + r2)[0] == r1[0]);
        assert((r1 + r2).drop_first() =~= r1.drop_first() + r2);
        lemma_rounds_concat(still_active(active, r1[0]), r1.drop_first(), r2);
    } else {
        assert(r1 + r2 =~= r2);
    }
}

proof fn lemma_rounds_distinct(active: Seq<usize>, rounds: Seq<Seq<bool>>)
    requires
        distinct_indices(active),
    ensures
        distinct_indices(active_after_rounds(active, rounds)),
    decreases rounds.len(),
{
    if rounds.len() > 0 {
        lemma_still_active_distinct(active, rounds[0]);
        lemma_rounds_distinct(still_active(active, rounds[0]), rounds.drop_first());
    }
}

/// Over a whole capture of `analyzers` analyzers (`CaptureSession::new`,
/// then `retire` once per round with the done flags `rounds`): the active
/// analyzers never repeat; an analyzer that reports itself done in round
/// `k` is not active after that round nor after any later one, so it is
/// never shown another exchange; one that does not report done stays
/// active after that round.
pub proof fn law_retired_analyzer_stays_retired(
    analyzers: usize,
    rounds: Seq<Seq<bool>>,
    k: int,
    i: int,
    later: int,
)
    requires
        0 <= k < later <= rounds.len(),
        rounds[k].len() == active_after_rounds(Seq::new(analyzers as nat, |x: int| x as usize), rounds.take(k)).len(),
        0 <= i < rounds[k].len(),
    ensures
        ({
            let start = Seq::new(analyzers as nat, |x: int| x as usize);
            let before = active_after_rounds(start, rounds.take(k));
            &&& distinct_indices(before)
            &&& rounds[k][i] ==> !active_after_rounds(start, rounds.take(later)).contains(before[i])
            &&& !rounds[k][i] ==> active_after_rounds(start, rounds.take(k + 1)).contains(before[i])
        }),
{
    let start = Seq::new(analyzers as nat, |x: int| x as usize);
    assert forall|j: int, m: int| 0 <= j < m < start.len() implies start[j] != start[m] by {
        assert(start[j] == j && start[m] == m);
    }
    lemma_rounds_distinct(start, rounds.take(k));
    let before = active_after_rounds(start, rounds.take(k));
    let done = rounds[k];
    let after = still_active(before, done);
    let rest = rounds.subrange(k + 1, later);
    assert(rounds.take(k + 1) =~= rounds.take(k) + seq![done]);
    assert(rounds.take(later) =~= rounds.take(k) + (seq![done] + rest));
    lemma_rounds_concat(start, rounds.take(k), seq![done]);
    lemma_rounds_concat(start, rounds.take(k), seq![done] + rest);
    assert(active_after_rounds(before, seq![done]) == active_after_rounds(after, Seq::<Seq<bool>>::empty())) by {
        assert(seq![done].drop_first() =~= Seq::<Seq<bool>>::empty());
    }
    assert(active_after_rounds(before, seq![done] + rest) == active_after_rounds(after, rest)) by {
        assert((seq![done] + rest)[0] == done);
        assert((seq![done] + rest).drop_first() =~= rest);
    }
    lemma_still_active(before, done);
    if done[i] {
        if after.contains(before[i]) {
            let j = choose|j: int| 0 <= j < before.len() && before[j] == before[i] && !done[j];
            assert(j != i);
        }
        lemma_rounds_within(after, rest, before[i]);
    }
}

// ---------------------------------------------------------------------------
// Stream-info attributes
// ---------------------------------------------------------------------------

/// `n` spaces.
pub open spec fn spaces(n: nat) -> Seq<char> {
    Seq::new(n, |i: int| ' ')
}

proof fn lemma_split_no_sep(p: Seq<char>, sep: char)
    requires
        !p.contains(sep),
    ensures
        split(p, sep) == seq![p],
    decreases p.len(),
{
    if p.len() == 0 {
        assert(p =~= Seq::<char>::empty());
        assert(split(p, sep) =~= seq![p]);
    } else {
        let q = p.drop_last();
        assert(!q.contains(sep)) by {
            if q.contains(sep) {
                let i = choose|i: int| 0 <= i < q.len() && q[i] == sep;
                assert(p[i] == sep);
            }
        }
        lemma_split_no_sep(q, sep);
        assert(p.last() != sep) by {
            assert(p[p.len() - 1] == p.last());
        }
        assert(q.push(p.last()) =~= p);
        assert(split(q, sep).len() == 1 && split(q, sep).last() == q);
        assert(split(p, sep) == split(q, sep).update(0, q.push(p.last())));
        assert(split(p, sep) =~= seq![p]);
    }
}

proof fn lemma_split_concat(a: Seq<char>, b: Seq<char>, sep: char)
    ensures
        split(a + seq![sep] + b, sep) == split(a, sep) + split(b, sep),
    decreases b.len(),
{
    let s = a + seq![sep] + b;
    if b.len() == 0 {
        assert(s.drop_last() =~= a);
        assert(s.last() == sep);
        assert(split(s, sep) =~= split(a, sep) + split(b, sep));
    } else {
        let b1 = b.drop_last();
        assert(s.drop_last() =~= a + seq![sep] + b1);
        assert(s.last() == b.last());
        lemma_split_concat(a, b1, sep);
        lemma_split_nonempty(b1, sep);
        lemma_split_nonempty(a, sep);
        assert(split(s, sep) =~= split(a, sep) + split(b, sep));
    }
}

proof fn lemma_split_prefix(p: Seq<char>, t: Seq<char>, sep: char)
    requires
        !p.contains(sep),
    ensures
        split(p + t, sep) == split(t, sep).update(0, p + split(t, sep)[0]),
    decreases t.len(),
{
    if t.len() == 0 {
        assert(p + t =~= p);
        lemma_split_no_sep(p, sep);
        assert(split(t, sep).update(0, p + split(t, sep)[0]) =~= seq![p]);
    } else {
        let t1 = t.drop_last();
        let c = t.last();
        assert((p + t).drop_last() =~= p + t1);
        assert((p + t).last() == c);
        lemma_split_prefix(p, t1, sep);
        lemma_split_nonempty(t1, sep);
        let q = split(t1, sep);
        if c == sep {
            assert(split(p + t, sep) =~= split(t, sep).update(0, p + split(t, sep)[0]));
        } else {
            if q.len() == 1 {
                assert((p + q[0]).push(c) =~= p + q[0].push(c));
                assert(split(p + t, sep) =~= split(t, sep).update(0, p + split(t, sep)[0]));
            } else {
                assert(split(p + t, sep) =~= split(t, sep).update(0, p + split(t, sep)[0]));
            }
        }
    }
}

proof fn lemma_spaces_free_of(n: nat, c: char)
    requires
        c != ' ',
    ensures
        !spaces(n).contains(c),
{
    if spaces(n).contains(c) {
        let i = choose|i: int| 0 <= i < spaces(n).len() && spaces(n)[i] == c;
        assert(spaces(n)[i] == ' ');
    }
}

proof fn lemma_trim_start_spaces(n: nat, x: Seq<char>)
    ensures
        trim_start(spaces(n) + x) == trim_start(x),
    decreases n,
{
    if n == 0 {
        assert(spaces(n) + x =~= x);
    } else {
        let y = spaces(n) + x;
        assert(y[0] == ' ');
        assert(is_whitespace(' '));
        assert(y.drop_first() =~= spaces((n - 1) as nat) + x);
        lemma_trim_start_spaces((n - 1) as nat, x);
    }
}

proof fn lemma_attribute_resolution_spaces(n: nat, a: Seq<char>)
    ensures
        attribute_resolution(spaces(n) + a) == attribute_resolution(a),
{
    lemma_spaces_free_of(n, '=');
    lemma_split_prefix(spaces(n), a, '=');
    lemma_split_nonempty(a, '=');
}

proof fn lemma_find_with_spaces(attrs: Seq<Seq<char>>, m: int, n: nat, k: int)
    requires
        0 <= m < attrs.len(),
    ensures
        ({
            let spaced = attrs.update(m, spaces(n) + attrs[m]);
            &&& (find_resolution_attribute(spaced, k) is None) == (find_resolution_attribute(attrs, k) is None)
            &&& find_resolution_attribute(attrs, k) is Some ==> attribute_resolution(
                find_resolution_attribute(spaced, k)->0,
            ) == attribute_resolution(find_resolution_attribute(attrs, k)->0)
        }),
    decreases attrs.len() - k,
{
    let spaced = attrs.update(m, spaces(n) + attrs[m]);
    if 0 <= k < attrs.len() {
        if k == m {
            lemma_trim_start_spaces(n, attrs[m]);
            lemma_attribute_resolution_spaces(n, attrs[m]);
        }
        lemma_find_with_spaces(attrs, m, n, k + 1);
    }
}

/// Spaces after a comma in a stream-info tag's attribute list change
/// nothing: the tag is filed under the same resolution (its
/// `RESOLUTION=<width>x<height>` attribute is found and read the same way,
/// and a tag without one still gets the default).
pub proof fn law_resolution_ignores_spaces_after_commas(before: Seq<char>, n: nat, after: Seq<char>)
    ensures
        tag_resolution(before + seq![','] + spaces(n) + after) == tag_resolution(before + seq![','] + after),
{
    let plain = before + seq![','] + after;
    let spaced = before + seq![','] + spaces(n) + after;
    assert(spaced =~= before + seq![','] + (spaces(n) + after));
    lemma_split_concat(before, after, ',');
    lemma_split_concat(before, spaces(n) + after, ',');
    lemma_spaces_free_of(n, ',');
    lemma_split_prefix(spaces(n), after, ',');
    lemma_split_nonempty(after, ',');
    lemma_split_nonempty(before, ',');
    let pa = split(before, ',');
    let pb = split(after, ',');
    let m = pa.len() as int;
    assert(split(spaced, ',') =~= (pa + pb).update(m, spaces(n) + (pa + pb)[m]));
    lemma_find_with_spaces(pa + pb, m, n, 0);
}

// ---------------------------------------------------------------------------
// M3U exchanges
// ---------------------------------------------------------------------------

/// A response served with any of the M3U MIME types is an M3U exchange,
/// whatever its method and address.
pub proof fn law_m3u_mime_types_are_recognised(method: Seq<char>, url: Seq<char>)
    ensures
        is_m3u_exchange(method, url, Some("application/vnd.apple.mpegurl"@)),
        is_m3u_exchange(method, url, Some("application/x-mpegurl"@)),
        is_m3u_exchange(method, url, Some("audio/mpegurl"@)),
        is_m3u_exchange(method, url, Some("audio/x-mpegurl"@)),
{
}

// ---------------------------------------------------------------------------
// curl arguments
// ---------------------------------------------------------------------------

proof fn lemma_curl_header_args(h: Seq<(Seq<char>, Seq<char>)>)
    ensures
        curl_header_args(h).len() == 2 * h.len(),
        forall|k: int| 0 <= k < h.len() ==> #[trigger] curl_header_args(h)[2 * k] == "-H"@,
        forall|k: int|
            0 <= k < h.len() && header_value_visible(h[k].1) ==> #[trigger] curl_header_args(h)[2 * k + 1]
                == h[k].0 + ": "@ + h[k].1,
        forall|k: int|
            0 <= k < h.len() && !header_value_visible(h[k].1) ==> #[trigger] curl_header_args(h)[2 * k + 1]
                == h[k].0 + ": "@,
    decreases h.len(),
{
    if h.len() > 0 {
        let h1 = h.drop_last();
        lemma_curl_header_args(h1);
        assert forall|k: int| 0 <= k < h.len() implies #[trigger] curl_header_args(h)[2 * k] == "-H"@ by {
            if k < h1.len() {
                assert(h1[k] == h[k]);
            }
        }
        assert forall|k: int|
            0 <= k < h.len() && header_value_visible(h[k].1) implies #[trigger] curl_header_args(h)[2 * k
                + 1] == h[k].0 + ": "@ + h[k].1 by {
            if k < h1.len() {
                assert(h1[k] == h[k]);
                assert(curl_header_args(h)[2 * k + 1] == curl_header_args(h1)[2 * k + 1]);
            }
        }
        assert forall|k: int|
            0 <= k < h.len() && !header_value_visible(h[k].1) implies #[trigger] curl_header_args(h)[2 * k
                + 1] == h[k].0 + ": "@ by {
            if k < h1.len() {
                assert(h1[k] == h[k]);
                assert(curl_header_args(h)[2 * k + 1] == curl_header_args(h1)[2 * k + 1]);
            } else {
                assert(h[k].0 + ": "@ + Seq::<char>::empty() =~= h[k].0 + ": "@);
            }
        }
    }
}

/// The curl command sends every header as its own `-H` argument, in the
/// headers' order: the name, `": "`, and the value exactly as stored where
/// it reads as text (nothing where it does not). The timeouts, the user
/// agent and the address come around them as given.
pub proof fn law_curl_sends_headers_as_stored(
    connect_timeout: u64,
    max_timeout: u64,
    user_agent: Seq<char>,
    h: Seq<(Seq<char>, Seq<char>)>,
    url: Seq<char>,
    k: int,
)
    requires
        0 <= k < h.len(),
    ensures
        ({
            let a = curl_args(connect_timeout, max_timeout, user_agent, h, url);
            &&& a.len() == 2 * h.len() + 11
            &&& a[3] == decimal(connect_timeout as nat) && a[5] == decimal(max_timeout as nat)
            &&& a[6 + 2 * k] == "-H"@
            &&& header_value_visible(h[k].1) ==> a[7 + 2 * k] == h[k].0 + ": "@ + h[k].1
            &&& !header_value_visible(h[k].1) ==> a[7 + 2 * k] == h[k].0 + ": "@
            &&& a[(7 + 2 * h.len()) as int] == "User-Agent: "@ + user_agent
            &&& a[a.len() - 1] == url
        }),
{
    lemma_curl_header_args(h);
    let hd = curl_header_args(h);
    assert(hd[2 * k] == "-H"@);
    if header_value_visible(h[k].1) {
        assert(hd[2 * k + 1] == h[k].0 + ": "@ + h[k].1);
    } else {
        assert(hd[2 * k + 1] == h[k].0 + ": "@);
    }
}

// ---------------------------------------------------------------------------
// FlareSolverr cookies
// ---------------------------------------------------------------------------

/// A cookie taken over from a FlareSolverr solution is filed under its
/// lower-cased name with its value exactly as given, where the name makes a
/// valid header name and the value a valid header value; any other cookie
/// is left out and changes nothing.
pub proof fn law_cookies_keep_their_values(
    m: Map<Seq<char>, Seq<char>>,
    earlier: Seq<FlareSolverrCookie>,
    cookie: FlareSolverrCookie,
)
    ensures
        ({
            let name = unicode_lowercase(cookie.name@);
            let all = earlier.push(cookie);
            &&& header_name_lowercase_ok(name) && header_value_ok(cookie.value@) ==> header_lookup(
                with_cookies(m, all),
                name,
            ) == Some(cookie.value@)
            &&& !(header_name_lowercase_ok(name) && header_value_ok(cookie.value@)) ==> with_cookies(m, all)
                == with_cookies(m, earlier)
        }),
{
    let all = earlier.push(cookie);
    assert(all.drop_last() =~= earlier);
    assert(all.last() == cookie);
}

// ---------------------------------------------------------------------------
// TMDB addresses
// ---------------------------------------------------------------------------

proof fn lemma_digit_char(d: nat)
    requires
        d < 10,
    ensures
        is_digit(digit_char(d)),
        digit_value(digit_char(d)) == d,
{
}

proof fn lemma_decimal(x: nat)
    ensures
        decimal(x).len() > 0,
        all_digits(decimal(x)),
        digits_value(decimal(x)) == x,
    decreases x,
{
    if x < 10 {
        lemma_digit_char(x);
        assert(decimal(x).drop_last() =~= Seq::<char>::empty());
        assert(digits_value(decimal(x).drop_last()) == 0);
        assert(decimal(x).last() == digit_char(x));
    } else {
        lemma_decimal(x / 10);
        lemma_digit_char(x % 10);
        let d = decimal(x);
        assert(d.drop_last() =~= decimal(x / 10));
        assert(digits_value(d) == (x / 10) * 10 + x % 10);
    }
}

proof fn lemma_dec_reads_back(id: u32)
    ensures
        parse_u32(dec(id)) == Some(id),
{
    lemma_decimal(id as nat);
    let d = dec(id);
    assert(d[0] != '+') by {
        assert(is_digit(d[0]));
    }
}

proof fn lemma_prefixed(p: Seq<char>, d: Seq<char>)
    ensures
        p.len() <= (p + d).len(),
        (p + d).subrange(0, p.len() as int) == p,
        (p + d).subrange(p.len() as int, (p + d).len() as int) == d,
{
    assert((p + d).subrange(0, p.len() as int) =~= p);
    assert((p + d).subrange(p.len() as int, (p + d).len() as int) =~= d);
}

/// The number in a TMDB address is the whole id: its decimal text reads
/// back (as `str::parse::<u32>` reads it) as the id itself, and a movie's
/// or a series' address is the fixed prefix followed by that text.
pub proof fn law_tmdb_ids_are_written_whole(id: u32)
    ensures
        parse_u32(dec(id)) == Some(id),
        ({
            let a = tmdb_url("/movie/"@ + dec(id));
            let p = tmdb_url("/movie/"@);
            p.len() <= a.len() && a.subrange(0, p.len() as int) == p && parse_u32(
                a.subrange(p.len() as int, a.len() as int),
            ) == Some(id)
        }),
        ({
            let a = tmdb_url("/tv/"@ + dec(id));
            let p = tmdb_url("/tv/"@);
            p.len() <= a.len() && a.subrange(0, p.len() as int) == p && parse_u32(
                a.subrange(p.len() as int, a.len() as int),
            ) == Some(id)
        }),
{
    lemma_dec_reads_back(id);
    let d = dec(id);
    let p = tmdb_url("/movie/"@);
    assert(tmdb_url("/movie/"@ + d) =~= p + d);
    lemma_prefixed(p, d);
    let q = tmdb_url("/tv/"@);
    assert(tmdb_url("/tv/"@ + d) =~= q + d);
    lemma_prefixed(q, d);
}

} // verus!
