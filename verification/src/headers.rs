//! HTTP header maps and the header checks taken from the `http` crate (via `reqwest`).
use vstd::prelude::*;

use crate::keyed::{
    distinct_keys, key_views, lemma_pairs_map_push, lemma_pairs_map_update, pairs_map, StringMap,
};
use crate::text::{ascii_lower, ascii_lowercase, ascii_lowercase_exec};

verus! {

// ---------------------------------------------------------------------------
// Header checks
// ---------------------------------------------------------------------------

/// A character that `HeaderValue::from_str` accepts: every byte of its UTF-8
/// encoding is a tab or at least 32 and not 127.
pub open spec fn value_char_ok(c: char) -> bool {
    (c as u32) == 9 || ((c as u32) >= 32 && (c as u32) != 127)
}

/// A character that `HeaderValue::to_str` accepts: a tab or visible ASCII.
pub open spec fn visible_char(c: char) -> bool {
    (c as u32) == 9 || (32 <= (c as u32) && (c as u32) < 127)
}

/// Text that `HeaderValue::from_str` accepts.
pub open spec fn header_value_ok(s: Seq<char>) -> bool {
    forall|i: int| 0 <= i < s.len() ==> value_char_ok(#[trigger] s[i])
}

/// Text that `HeaderValue::to_str` hands back.
pub open spec fn header_value_visible(s: Seq<char>) -> bool {
    forall|i: int| 0 <= i < s.len() ==> visible_char(#[trigger] s[i])
}

/// A character that `HeaderName::from_lowercase` accepts in a name: a
/// lower-case letter, a digit, or one of ``!"#$%&'*+-.^_`|~``.
pub open spec fn lower_token_char(c: char) -> bool {
    let n = c as u32;
    ||| n == 33 || n == 34 || n == 35 || n == 36 || n == 37 || n == 38 || n == 39
    ||| n == 42 || n == 43 || n == 45 || n == 46
    ||| 48 <= n <= 57
    ||| n == 94 || n == 95 || n == 96
    ||| 97 <= n <= 122
    ||| n == 124 || n == 126
}

/// Whether `HeaderName::from_lowercase` accepts the UTF-8 bytes of `name`:
/// between 1 and 65535 bytes, each an accepted character (these are all
/// ASCII, so each is one byte).
pub open spec fn header_name_lowercase_ok(name: Seq<char>) -> bool {
    &&& 1 <= name.len() <= 65535
    &&& forall|i: int| 0 <= i < name.len() ==> lower_token_char(#[trigger] name[i])
}

/// Calls `reqwest::header::HeaderValue::from_str`. Claimed, as the source of
/// `http` shows: it succeeds exactly when every byte is a tab, or at least 32
/// and not 127.
#[verifier::external_body]
pub(crate) fn header_value_accepts(s: &str) -> (r: bool)
    ensures
        r == header_value_ok(s@),
{
    reqwest::header::HeaderValue::from_str(s).is_ok()
}

/// Calls `reqwest::header::HeaderValue::to_str` on the header value made of
/// `s`. Claimed, as the source of `http` shows: it succeeds exactly when
/// every byte is a tab or visible ASCII.
#[verifier::external_body]
pub(crate) fn header_value_readable(s: &str) -> (r: bool)
    requires
        header_value_ok(s@),
    ensures
        r == header_value_visible(s@),
{
    reqwest::header::HeaderValue::from_str(s).map(|v| v.to_str().is_ok()).unwrap_or(false)
}

/// Calls `reqwest::header::HeaderName::from_lowercase` on the bytes of
/// `name`. Claimed, as the source of `http` shows: it succeeds exactly when
/// the name has 1 to 65535 bytes, each a lower-case letter, a digit or one
/// of ``!"#$%&'*+-.^_`|~`` (other bytes, those of non-ASCII characters
/// included, map to 0 in its `HEADER_CHARS_H2` table and are refused).
#[verifier::external_body]
pub(crate) fn header_name_accepts_lowercase(name: &str) -> (r: bool)
    ensures
        r == header_name_lowercase_ok(name@),
{
    reqwest::header::HeaderName::from_lowercase(name.as_bytes()).is_ok()
}

// ---------------------------------------------------------------------------
// Header map
// ---------------------------------------------------------------------------

impl Clone for HeaderMap {
    /// A copy with the same headers in the same order.
    fn clone(&self) -> (r: Self)
        ensures
            r.headers() == self.headers(),
    {
        self.duplicate()
    }
}

/// The entries with their values taken as character sequences.
pub open spec fn value_views(p: Seq<(Seq<char>, String)>) -> Seq<(Seq<char>, Seq<char>)> {
    p.map_values(|e: (Seq<char>, String)| (e.0, e.1@))
}

/// The value a header map files under `name`, matched ignoring ASCII case.
pub open spec fn header_lookup(m: Map<Seq<char>, Seq<char>>, name: Seq<char>) -> Option<Seq<char>> {
    if m.contains_key(ascii_lowercase(name)) {
        Some(m[ascii_lowercase(name)])
    } else {
        None
    }
}

/// A header map after `value` is filed under `name`.
pub open spec fn headers_with(m: Map<Seq<char>, Seq<char>>, name: Seq<char>, value: Seq<char>) -> Map<
    Seq<char>,
    Seq<char>,
> {
    m.insert(ascii_lowercase(name), value)
}

/// The headers, in order, after `v` is filed under the (lower-case) name
/// `k`: the value of `k` is replaced where it is there, else `k` comes last.
pub open spec fn put_header(h: Seq<(Seq<char>, Seq<char>)>, k: Seq<char>, v: Seq<char>) -> Seq<
    (Seq<char>, Seq<char>),
> {
    if exists|j: int| 0 <= j < h.len() && h[j].0 == k {
        h.update(choose|j: int| 0 <= j < h.len() && h[j].0 == k, (k, v))
    } else {
        h.push((k, v))
    }
}

/// The headers, in order, after each entry of `o` is filed in turn.
pub open spec fn put_headers(h: Seq<(Seq<char>, Seq<char>)>, o: Seq<(Seq<char>, Seq<char>)>) -> Seq<
    (Seq<char>, Seq<char>),
>
    decreases o.len(),
{
    if o.len() == 0 {
        h
    } else {
        put_header(put_headers(h, o.drop_last()), o.last().0, o.last().1)
    }
}

proof fn lemma_put_header(h: Seq<(Seq<char>, Seq<char>)>, k: Seq<char>, v: Seq<char>, r: Seq<(Seq<char>, Seq<char>)>)
    requires
        distinct_keys(h),
        (exists|j: int| 0 <= j < h.len() && h[j].0 == k && r == h.update(j, (k, v))) || ((forall|i: int|
            0 <= i < h.len() ==> #[trigger] h[i].0 != k) && r == h.push((k, v))),
    ensures
        r == put_header(h, k, v),
{
    if exists|j: int| 0 <= j < h.len() && h[j].0 == k {
        let j2 = choose|j: int| 0 <= j < h.len() && h[j].0 == k;
        if exists|j: int| 0 <= j < h.len() && h[j].0 == k && r == h.update(j, (k, v)) {
            let j = choose|j: int| 0 <= j < h.len() && h[j].0 == k && r == h.update(j, (k, v));
            if j != j2 {
                assert(h[j].0 != h[j2].0);
            }
        } else {
            assert(h[j2].0 != k);
        }
    }
}

/// A valid lower-case header name has no ASCII upper-case letter.
pub proof fn lemma_valid_name_is_lower(n: Seq<char>)
    requires
        header_name_lowercase_ok(n),
    ensures
        ascii_lowercase(n) == n,
{
    assert forall|i: int| 0 <= i < n.len() implies ascii_lowercase(n)[i] == n[i] by {
        assert(lower_token_char(n[i]));
    }
    assert(ascii_lowercase(n) =~= n);
}

/// A name as header maps file it: ASCII letters in lower case.
pub open spec fn is_lower_name(k: Seq<char>) -> bool {
    ascii_lowercase(k) == k
}

/// Header names and values, in the order in which their names were first
/// inserted. Names are filed in ASCII lower case, so they match ignoring
/// ASCII case; each name has one value, and every value is one that
/// `HeaderValue::from_str` accepts.
#[derive(Debug)]
pub struct HeaderMap {
    map: StringMap<String>,
}

impl View for HeaderMap {
    type V = Map<Seq<char>, Seq<char>>;

    open spec fn view(&self) -> Map<Seq<char>, Seq<char>> {
        pairs_map(self.headers())
    }
}

proof fn lemma_value_views_distinct(p: Seq<(Seq<char>, String)>)
    requires
        distinct_keys(p),
    ensures
        distinct_keys(value_views(p)),
{
    let q = value_views(p);
    assert forall|i: int, j: int| 0 <= i < q.len() && 0 <= j < q.len() && i != j implies #[trigger] q[i].0
        != #[trigger] q[j].0 by {
        assert(q[i].0 == p[i].0 && q[j].0 == p[j].0);
    }
}

proof fn lemma_ascii_lowercase_idempotent(k: Seq<char>)
    ensures
        is_lower_name(ascii_lowercase(k)),
{
    assert(ascii_lowercase(ascii_lowercase(k)) =~= ascii_lowercase(k));
}

impl HeaderMap {
    /// The headers, in order.
    pub closed spec fn headers(&self) -> Seq<(Seq<char>, Seq<char>)> {
        value_views(self.map.pairs())
    }

    /// Names are in lower case and values are valid header values.
    #[verifier::type_invariant]
    closed spec fn wf(self) -> bool {
        forall|i: int|
            0 <= i < self.map.pairs().len() ==> is_lower_name(#[trigger] self.map.pairs()[i].0)
                && header_name_lowercase_ok(self.map.pairs()[i].0) && header_value_ok(self.map.pairs()[i].1@)
    }

    /// An empty map.
    pub fn new() -> (m: Self)
        ensures
            m.headers() == Seq::<(Seq<char>, Seq<char>)>::empty(),
            m@ == Map::<Seq<char>, Seq<char>>::empty(),
    {
        let m = HeaderMap { map: StringMap::new() };
        assert(m.headers() =~= Seq::<(Seq<char>, Seq<char>)>::empty());
        m
    }

    /// The number of names.
    pub fn len(&self) -> (n: usize)
        ensures
            n == self.headers().len(),
    {
        self.map.len()
    }

    /// The names and values, in order.
    pub fn entries(&self) -> (r: &Vec<(String, String)>)
        ensures
            value_views(key_views(r@)) == self.headers(),
            distinct_keys(self.headers()),
            forall|i: int| 0 <= i < self.headers().len() ==> is_lower_name(#[trigger] self.headers()[i].0),
            forall|i: int|
                0 <= i < self.headers().len() ==> header_name_lowercase_ok(#[trigger] self.headers()[i].0),
            forall|i: int| 0 <= i < self.headers().len() ==> header_value_ok(#[trigger] self.headers()[i].1),
    {
        proof {
            use_type_invariant(self);
        }
        let r = self.map.entries();
        proof {
            lemma_value_views_distinct(self.map.pairs());
            assert forall|i: int| 0 <= i < self.headers().len() implies is_lower_name(
                #[trigger] self.headers()[i].0,
            ) && header_name_lowercase_ok(self.headers()[i].0) by {
                assert(self.headers()[i].0 == self.map.pairs()[i].0);
            }
            assert forall|i: int| 0 <= i < self.headers().len() implies header_value_ok(
                #[trigger] self.headers()[i].1,
            ) by {
                assert(self.headers()[i].1 == self.map.pairs()[i].1@);
            }
        }
        r
    }

    /// Files `value` under `name` (in ASCII lower case), replacing the value
    /// there or adding the name last.
    pub fn insert(&mut self, name: &str, value: String)
        requires
            header_name_lowercase_ok(ascii_lowercase(name@)),
            header_value_ok(value@),
        ensures
            final(self)@ == headers_with(old(self)@, name@, value@),
            final(self).headers() == put_header(old(self).headers(), ascii_lowercase(name@), value@),
            (exists|j: int|
                0 <= j < old(self).headers().len() && old(self).headers()[j].0 == ascii_lowercase(name@)
                    && final(self).headers() == old(self).headers().update(
                    j,
                    (ascii_lowercase(name@), value@),
                )) || ((forall|i: int|
                0 <= i < old(self).headers().len() ==> #[trigger] old(self).headers()[i].0
                    != ascii_lowercase(name@)) && final(self).headers() == old(self).headers().push(
                (ascii_lowercase(name@), value@),
            )),
    {
        proof {
            use_type_invariant(&*self);
        }
        let key = ascii_lowercase_exec(name);
        let ghost kv = key@;
        let ghost vs = value;
        let ghost vv = value@;
        let ghost old_pairs = self.map.pairs();
        let ghost old_headers = self.headers();
        let mut map = StringMap::new();
        std::mem::swap(&mut map, &mut self.map);
        map.insert(key, value);
        let ghost new_pairs = map.pairs();
        proof {
            lemma_value_views_distinct(old_pairs);
            lemma_ascii_lowercase_idempotent(name@);
            if exists|j: int|
                0 <= j < old_pairs.len() && old_pairs[j].0 == kv && new_pairs == old_pairs.update(
                    j,
                    (kv, vs),
                ) {
                let j = choose|j: int|
                    0 <= j < old_pairs.len() && old_pairs[j].0 == kv && new_pairs == old_pairs.update(
                        j,
                        (kv, vs),
                    );
                assert(value_views(new_pairs) =~= old_headers.update(j, (kv, vv)));
                assert(old_headers[j].0 == kv);
                lemma_pairs_map_update(old_headers, j, (kv, vv));
                lemma_put_header(old_headers, kv, vv, value_views(new_pairs));
                assert forall|i: int| 0 <= i < new_pairs.len() implies is_lower_name(
                    #[trigger] new_pairs[i].0,
                ) && header_name_lowercase_ok(new_pairs[i].0) && header_value_ok(new_pairs[i].1@) by {
                    if i != j {
                        assert(new_pairs[i] == old_pairs[i]);
                    }
                }
            } else {
                assert(value_views(new_pairs) =~= old_headers.push((kv, vv)));
                assert forall|i: int| 0 <= i < old_headers.len() implies #[trigger] old_headers[i].0
                    != kv by {
                    assert(old_headers[i].0 == old_pairs[i].0);
                }
                lemma_pairs_map_push(old_headers, (kv, vv));
                lemma_put_header(old_headers, kv, vv, value_views(new_pairs));
                assert forall|i: int| 0 <= i < new_pairs.len() implies is_lower_name(
                    #[trigger] new_pairs[i].0,
                ) && header_name_lowercase_ok(new_pairs[i].0) && header_value_ok(new_pairs[i].1@) by {
                    if i < old_pairs.len() {
                        assert(new_pairs[i] == old_pairs[i]);
                    }
                }
            }
        }
        self.map = map;
    }

    /// Files `value` under `name` where the name (in ASCII lower case) is a
    /// valid header name and the value a valid header value, and says
    /// whether it did; otherwise the map stays as it was.
    pub fn try_insert(&mut self, name: &str, value: String) -> (r: bool)
        ensures
            r == (header_name_lowercase_ok(ascii_lowercase(name@)) && header_value_ok(value@)),
            r ==> final(self)@ == headers_with(old(self)@, name@, value@),
            !r ==> final(self).headers() == old(self).headers(),
    {
        let lower = ascii_lowercase_exec(name);
        if header_name_accepts_lowercase(lower.as_str()) && header_value_accepts(value.as_str()) {
            self.insert(name, value);
            true
        } else {
            false
        }
    }

    /// A copy of this map.
    pub fn duplicate(&self) -> (r: Self)
        ensures
            r.headers() == self.headers(),
            r@ == self@,
    {
        proof {
            use_type_invariant(self);
        }
        HeaderMap { map: self.map.duplicate() }
    }

    /// Replaces the value at position `i`, keeping its name.
    pub fn set_value_at(&mut self, i: usize, value: String)
        requires
            i < old(self).headers().len(),
            header_value_ok(value@),
        ensures
            final(self).headers() == old(self).headers().update(
                i as int,
                (old(self).headers()[i as int].0, value@),
            ),
    {
        proof {
            use_type_invariant(&*self);
        }
        let ghost old_pairs = self.map.pairs();
        let ghost vv = value@;
        let mut map = StringMap::new();
        std::mem::swap(&mut map, &mut self.map);
        map.update_value(i, value);
        assert(value_views(map.pairs()) =~= value_views(old_pairs).update(
            i as int,
            (old_pairs[i as int].0, vv),
        ));
        assert forall|k: int| 0 <= k < map.pairs().len() implies is_lower_name(#[trigger] map.pairs()[k].0)
            && header_name_lowercase_ok(map.pairs()[k].0) && header_value_ok(map.pairs()[k].1@) by {
            assert(map.pairs()[k].0 == old_pairs[k].0);
            if k != i {
                assert(map.pairs()[k] == old_pairs[k]);
            }
        }
        self.map = map;
    }

    /// This map with each entry of `overrides` put over it in turn: a name
    /// of `overrides` takes its value from there.
    pub fn overridden_by(&self, overrides: &HeaderMap) -> (r: HeaderMap)
        ensures
            r@ == self@.union_prefer_right(overrides@),
            r.headers() == put_headers(self.headers(), overrides.headers()),
    {
        let mut r = self.duplicate();
        let entries = overrides.entries();
        let ghost oh = overrides.headers();
        let n = entries.len();
        let mut i: usize = 0;
        assert(pairs_map(oh.take(0)) =~= Map::<Seq<char>, Seq<char>>::empty());
        assert(self@.union_prefer_right(Map::<Seq<char>, Seq<char>>::empty()) =~= self@);
        while i < n
            invariant
                oh == overrides.headers(),
                value_views(key_views(entries@)) == oh,
                n == entries@.len(),
                i <= n,
                forall|k: int| 0 <= k < oh.len() ==> is_lower_name(#[trigger] oh[k].0),
                forall|k: int| 0 <= k < oh.len() ==> header_name_lowercase_ok(#[trigger] oh[k].0),
                forall|k: int| 0 <= k < oh.len() ==> header_value_ok(#[trigger] oh[k].1),
                r@ == self@.union_prefer_right(pairs_map(oh.take(i as int))),
                r.headers() == put_headers(self.headers(), oh.take(i as int)),
            decreases n - i,
        {
            let name = &entries[i].0;
            let value = entries[i].1.clone();
            assert(oh[i as int] == (name@, value@));
            assert(is_lower_name(oh[i as int].0));
            assert(header_name_lowercase_ok(oh[i as int].0));
            assert(header_value_ok(oh[i as int].1));
            r.insert(name.as_str(), value);
            assert(oh.take(i + 1).last() == oh[i as int]);
            assert(oh.take(i + 1).drop_last() =~= oh.take(i as int));
            assert(r@ =~= self@.union_prefer_right(pairs_map(oh.take(i + 1))));
            i = i + 1;
        }
        assert(oh.take(n as int) =~= oh);
        r
    }

    /// The value filed under `name` (matched ignoring ASCII case), if any.
    pub fn get(&self, name: &str) -> (r: Option<String>)
        ensures
            match r {
                Some(v) => header_lookup(self@, name@) == Some(v@),
                None => header_lookup(self@, name@) is None,
            },
    {
        let key = ascii_lowercase_exec(name);
        let entries = self.entries();
        let ghost h = self.headers();
        let n = entries.len();
        let mut i: usize = 0;
        while i < n
            invariant
                h == self.headers(),
                key@ == ascii_lowercase(name@),
                value_views(key_views(entries@)) == h,
                distinct_keys(h),
                n == entries@.len(),
                i <= n,
                forall|k: int| 0 <= k < i ==> #[trigger] h[k].0 != key@,
            decreases n - i,
        {
            assert(h[i as int] == (entries@[i as int].0@, entries@[i as int].1@));
            if crate::text::str_equal(entries[i].0.as_str(), key.as_str()) {
                proof {
                    crate::keyed::lemma_pairs_map_lookup(h, i as int);
                }
                let v = entries[i].1.clone();
                assert(v@ == h[i as int].1);
                assert(h[i as int].0 == key@);
                assert(self@ == pairs_map(h));
                return Some(v);
            }
            i = i + 1;
        }
        proof {
            crate::keyed::lemma_pairs_map_dom(h, key@);
        }
        None
    }
}

} // verus!
