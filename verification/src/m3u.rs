//! M3U / HLS playlist parsing: master playlists (one stream per resolution)
//! and index playlists (a list of media segments).
use vstd::prelude::*;

use crate::text::{
    char_views, chars_of, contains, contains_exec, parse_u32, parse_u32_exec, split, split_chars,
    starts_with, starts_with_exec, string_of, string_views, trim, trim_chars, trimmed_lines,
    trimmed_lines_exec,
};
use crate::urls::{parse_url, url_parse};

verus! {

// ---------------------------------------------------------------------------
// Errors
// ---------------------------------------------------------------------------

/// Why a playlist could not be parsed.
#[derive(Debug, Clone, Copy, PartialEq, Eq, Structural)]
pub enum ParseError {
    InvalidHeader,
    UnknownFormat,
    InvalidResolutionAttribute,
    FailedToParseResolution,
    MissingStreamUrl,
}

/// The text that describes each parse error.
pub open spec fn parse_error_text(e: ParseError) -> Seq<char> {
    match e {
        ParseError::InvalidHeader => "Missing or invalid #EXTM3U header"@,
        ParseError::UnknownFormat => "The M3U file is empty or type could not be determined"@,
        ParseError::InvalidResolutionAttribute => "Invalid RESOLUTION attribute."@,
        ParseError::FailedToParseResolution => "Failed to parse RESOLUTION to u32."@,
        ParseError::MissingStreamUrl => "Stream URL missing after stream info tag"@,
    }
}

impl ParseError {
    /// The human-readable description of this error.
    pub fn message(&self) -> (s: String)
        ensures
            s@ == parse_error_text(*self),
    {
        match self {
            ParseError::InvalidHeader => "Missing or invalid #EXTM3U header".to_string(),
            ParseError::UnknownFormat => "The M3U file is empty or type could not be determined".to_string(),
            ParseError::InvalidResolutionAttribute => "Invalid RESOLUTION attribute.".to_string(),
            ParseError::FailedToParseResolution => "Failed to parse RESOLUTION to u32.".to_string(),
            ParseError::MissingStreamUrl => "Stream URL missing after stream info tag".to_string(),
        }
    }
}

// ---------------------------------------------------------------------------
// Master playlist map
// ---------------------------------------------------------------------------

/// The width a stream is filed under when its tag gives no resolution.
pub const DEFAULT_WIDTH: u32 = 1080;

/// The height a stream is filed under when its tag gives no resolution.
pub const DEFAULT_HEIGHT: u32 = 720;

/// One stream of a master playlist: its resolution and its URL.
#[derive(Debug)]
pub struct VariantStream {
    pub resolution: (u32, u32),
    pub url: String,
}

/// The map of a master playlist from resolution to stream URL.
#[derive(Debug)]
pub struct MasterPlaylist {
    streams: Vec<VariantStream>,
}

/// The map that a list of streams with distinct resolutions stands for.
pub open spec fn streams_map(s: Seq<VariantStream>) -> Map<(u32, u32), Seq<char>>
    decreases s.len(),
{
    if s.len() == 0 {
        Map::empty()
    } else {
        streams_map(s.drop_last()).insert(s.last().resolution, s.last().url@)
    }
}

/// No two streams share a resolution.
pub open spec fn distinct_resolutions(s: Seq<VariantStream>) -> bool {
    forall|i: int, j: int|
        0 <= i < s.len() && 0 <= j < s.len() && i != j ==> #[trigger] s[i].resolution
            != #[trigger] s[j].resolution
}

/// The resolutions that `streams_map` maps are exactly those in the list.
proof fn lemma_streams_map_dom(s: Seq<VariantStream>, k: (u32, u32))
    ensures
        streams_map(s).contains_key(k) <==> exists|i: int|
            0 <= i < s.len() && #[trigger] s[i].resolution == k,
    decreases s.len(),
{
    if s.len() > 0 {
        let t = s.drop_last();
        lemma_streams_map_dom(t, k);
        if streams_map(s).contains_key(k) && k != s.last().resolution {
            let i = choose|i: int| 0 <= i < t.len() && #[trigger] t[i].resolution == k;
            assert(s[i].resolution == k);
        }
        if exists|i: int| 0 <= i < s.len() && #[trigger] s[i].resolution == k {
            let i = choose|i: int| 0 <= i < s.len() && #[trigger] s[i].resolution == k;
            if i < t.len() {
                assert(t[i].resolution == k);
            }
        }
    }
}

/// Replacing the stream filed under a resolution updates that key of the map.
proof fn lemma_streams_map_update(s: Seq<VariantStream>, j: int, e: VariantStream)
    requires
        0 <= j < s.len(),
        distinct_resolutions(s),
        s[j].resolution == e.resolution,
    ensures
        streams_map(s.update(j, e)) == streams_map(s).insert(e.resolution, e.url@),
    decreases s.len(),
{
    let u = s.update(j, e);
    if j == s.len() - 1 {
        assert(u.drop_last() =~= s.drop_last());
        assert(streams_map(u) =~= streams_map(s).insert(e.resolution, e.url@));
    } else {
        let t = s.drop_last();
        assert(distinct_resolutions(t)) by {
            assert forall|a: int, b: int|
                0 <= a < t.len() && 0 <= b < t.len() && a != b implies #[trigger] t[a].resolution
                != #[trigger] t[b].resolution by {
                assert(t[a] == s[a] && t[b] == s[b]);
            }
        }
        lemma_streams_map_update(t, j, e);
        assert(u.drop_last() =~= t.update(j, e));
        assert(s.last().resolution != e.resolution) by {
            assert(s[s.len() - 1].resolution != s[j].resolution);
        }
        assert(streams_map(u) =~= streams_map(s).insert(e.resolution, e.url@));
    }
}

impl View for MasterPlaylist {
    type V = Map<(u32, u32), Seq<char>>;

    closed spec fn view(&self) -> Map<(u32, u32), Seq<char>> {
        streams_map(self.streams@)
    }
}

impl MasterPlaylist {
    /// The streams are filed under distinct resolutions.
    #[verifier::type_invariant]
    closed spec fn wf(self) -> bool {
        distinct_resolutions(self.streams@)
    }

    /// An empty map.
    pub fn new() -> (m: Self)
        ensures
            m@ == Map::<(u32, u32), Seq<char>>::empty(),
    {
        MasterPlaylist { streams: Vec::new() }
    }

    /// Files `url` under `resolution`, replacing what was filed there.
    pub fn insert(&mut self, resolution: (u32, u32), url: String)
        ensures
            final(self)@ == old(self)@.insert(resolution, url@),
    {
        proof {
            use_type_invariant(&*self);
        }
        let ghost url_view = url@;
        let mut streams = Vec::new();
        std::mem::swap(&mut streams, &mut self.streams);
        let n = streams.len();
        let mut i: usize = 0;
        while i < n
            invariant
                n == streams@.len(),
                i <= n,
                forall|k: int| 0 <= k < i ==> #[trigger] streams@[k].resolution != resolution,
                distinct_resolutions(streams@),
            ensures
                i <= n,
                i < n ==> streams@[i as int].resolution == resolution,
                forall|k: int| 0 <= k < i ==> #[trigger] streams@[k].resolution != resolution,
            decreases n - i,
        {
            if streams[i].resolution.0 == resolution.0 && streams[i].resolution.1 == resolution.1 {
                break;
            }
            i = i + 1;
        }
        let ghost old_streams = streams@;
        let entry = VariantStream { resolution, url };
        if i < n {
            proof {
                lemma_streams_map_update(old_streams, i as int, entry);
            }
            streams.set(i, entry);
            assert(distinct_resolutions(streams@)) by {
                assert forall|a: int, b: int|
                    0 <= a < streams@.len() && 0 <= b < streams@.len() && a != b implies #[trigger] streams@[a].resolution
                    != #[trigger] streams@[b].resolution by {
                    assert(old_streams[a].resolution == streams@[a].resolution);
                    assert(old_streams[b].resolution == streams@[b].resolution);
                }
            }
        } else {
            streams.push(entry);
            assert(streams@.drop_last() =~= old_streams);
            assert(distinct_resolutions(streams@)) by {
                assert forall|a: int, b: int|
                    0 <= a < streams@.len() && 0 <= b < streams@.len() && a != b implies #[trigger] streams@[a].resolution
                    != #[trigger] streams@[b].resolution by {
                    if a < n && b < n {
                        assert(old_streams[a] == streams@[a] && old_streams[b] == streams@[b]);
                    } else if a < n {
                        assert(old_streams[a] == streams@[a]);
                    } else {
                        assert(old_streams[b] == streams@[b]);
                    }
                }
            }
        }
        self.streams = streams;
    }

    /// The number of resolutions in the map.
    pub fn len(&self) -> (n: usize)
        ensures
            n == self@.len(),
    {
        proof {
            use_type_invariant(self);
            self.lemma_len();
        }
        self.streams.len()
    }

    proof fn lemma_len(&self)
        requires
            distinct_resolutions(self.streams@),
        ensures
            self@.len() == self.streams@.len(),
            self@.dom().finite(),
    {
        lemma_streams_map_len(self.streams@);
    }

    /// The URL filed under `resolution`, if any.
    pub fn get(&self, resolution: (u32, u32)) -> (r: Option<String>)
        ensures
            match r {
                Some(u) => self@.contains_key(resolution) && self@[resolution] == u@,
                None => !self@.contains_key(resolution),
            },
    {
        proof {
            use_type_invariant(self);
        }
        let n = self.streams.len();
        let mut i: usize = 0;
        while i < n
            invariant
                n == self.streams@.len(),
                distinct_resolutions(self.streams@),
                i <= n,
                forall|k: int| 0 <= k < i ==> #[trigger] self.streams@[k].resolution != resolution,
            decreases n - i,
        {
            let e = &self.streams[i];
            if e.resolution.0 == resolution.0 && e.resolution.1 == resolution.1 {
                proof {
                    lemma_streams_map_lookup(self.streams@, i as int);
                }
                return Some(e.url.clone());
            }
            i = i + 1;
        }
        proof {
            lemma_streams_map_dom(self.streams@, resolution);
        }
        None
    }
}

/// The map has one key per stream when resolutions are distinct.
proof fn lemma_streams_map_len(s: Seq<VariantStream>)
    requires
        distinct_resolutions(s),
    ensures
        streams_map(s).len() == s.len(),
        streams_map(s).dom().finite(),
    decreases s.len(),
{
    if s.len() > 0 {
        let t = s.drop_last();
        assert(distinct_resolutions(t)) by {
            assert forall|a: int, b: int|
                0 <= a < t.len() && 0 <= b < t.len() && a != b implies #[trigger] t[a].resolution
                != #[trigger] t[b].resolution by {
                assert(t[a] == s[a] && t[b] == s[b]);
            }
        }
        lemma_streams_map_len(t);
        lemma_streams_map_dom(t, s.last().resolution);
        assert(!streams_map(t).contains_key(s.last().resolution)) by {
            if streams_map(t).contains_key(s.last().resolution) {
                let i = choose|i: int| 0 <= i < t.len() && #[trigger] t[i].resolution == s.last().resolution;
                assert(s[i].resolution == s[s.len() - 1].resolution);
            }
        }
    }
}

/// A stream of a list with distinct resolutions is what the map holds for it.
proof fn lemma_streams_map_lookup(s: Seq<VariantStream>, i: int)
    requires
        distinct_resolutions(s),
        0 <= i < s.len(),
    ensures
        streams_map(s).contains_key(s[i].resolution),
        streams_map(s)[s[i].resolution] == s[i].url@,
    decreases s.len(),
{
    let t = s.drop_last();
    if i < s.len() - 1 {
        assert(distinct_resolutions(t)) by {
            assert forall|a: int, b: int|
                0 <= a < t.len() && 0 <= b < t.len() && a != b implies #[trigger] t[a].resolution
                != #[trigger] t[b].resolution by {
                assert(t[a] == s[a] && t[b] == s[b]);
            }
        }
        lemma_streams_map_lookup(t, i);
        assert(t[i] == s[i]);
        assert(s[s.len() - 1].resolution != s[i].resolution);
    }
}

// ---------------------------------------------------------------------------
// What a playlist holds
// ---------------------------------------------------------------------------

/// The contents of a parsed playlist, as mathematical values.
pub enum PlaylistModel {
    /// A master playlist: resolution to stream URL.
    Master(Map<(u32, u32), Seq<char>>),
    /// An index playlist: its segment lines, in order.
    Index(Seq<Seq<char>>),
}

/// A parsed playlist.
#[derive(Debug)]
pub enum M3UResult {
    Master(MasterPlaylist),
    Index(Vec<String>),
}

impl View for M3UResult {
    type V = PlaylistModel;

    open spec fn view(&self) -> PlaylistModel {
        match self {
            M3UResult::Master(m) => PlaylistModel::Master(m@),
            M3UResult::Index(v) => PlaylistModel::Index(string_views(v@)),
        }
    }
}

/// A line starting with `'#'` (a tag or a comment).
pub open spec fn is_tag_line(l: Seq<char>) -> bool {
    l.len() > 0 && l[0] == '#'
}

/// The lines of `ls` that are not tag lines, in order.
pub open spec fn segment_lines(ls: Seq<Seq<char>>) -> Seq<Seq<char>>
    decreases ls.len(),
{
    if ls.len() == 0 {
        ls
    } else if is_tag_line(ls.last()) {
        segment_lines(ls.drop_last())
    } else {
        segment_lines(ls.drop_last()).push(ls.last())
    }
}

/// The lines of `ls` that are not empty, in order.
pub open spec fn nonempty_lines(ls: Seq<Seq<char>>) -> Seq<Seq<char>>
    decreases ls.len(),
{
    if ls.len() == 0 {
        ls
    } else if ls.last().len() == 0 {
        nonempty_lines(ls.drop_last())
    } else {
        nonempty_lines(ls.drop_last()).push(ls.last())
    }
}

/// The first attribute from position `k` on whose trimmed text starts with
/// `RESOLUTION=`.
pub open spec fn find_resolution_attribute(attrs: Seq<Seq<char>>, k: int) -> Option<Seq<char>>
    decreases attrs.len() - k,
{
    if k < 0 || k >= attrs.len() {
        None
    } else if starts_with(trim(attrs[k]), "RESOLUTION="@) {
        Some(attrs[k])
    } else {
        find_resolution_attribute(attrs, k + 1)
    }
}

/// The resolution written in a `RESOLUTION=<width>x<height>` attribute:
/// the text after its first `'='` up to the next `'='`, split at `'x'`, the
/// first two pieces read as `u32`.
pub open spec fn attribute_resolution(a: Seq<char>) -> Result<(u32, u32), ParseError> {
    let kv = split(a, '=');
    if kv.len() < 2 {
        Err(ParseError::InvalidResolutionAttribute)
    } else {
        let parts = split(kv[1], 'x');
        if parts.len() < 1 {
            Err(ParseError::FailedToParseResolution)
        } else {
            match parse_u32(parts[0]) {
                None => Err(ParseError::FailedToParseResolution),
                Some(w) => if parts.len() < 2 {
                    Err(ParseError::FailedToParseResolution)
                } else {
                    match parse_u32(parts[1]) {
                        None => Err(ParseError::FailedToParseResolution),
                        Some(h) => Ok((w, h)),
                    }
                },
            }
        }
    }
}

/// The resolution of a stream-info tag line: from its first
/// `RESOLUTION=` attribute (attributes are separated by `','`), or the
/// default resolution where it has none.
pub open spec fn tag_resolution(line: Seq<char>) -> Result<(u32, u32), ParseError> {
    match find_resolution_attribute(split(line, ','), 0) {
        None => Ok((DEFAULT_WIDTH, DEFAULT_HEIGHT)),
        Some(a) => attribute_resolution(a),
    }
}

/// Reads a master playlist's non-empty lines from position `i` on into `acc`:
/// each stream-info tag takes the next line as its URL; a URL that does not
/// parse is skipped; a later stream of the same resolution replaces an earlier one.
pub open spec fn master_scan(nl: Seq<Seq<char>>, i: int, acc: Map<(u32, u32), Seq<char>>) -> Result<
    Map<(u32, u32), Seq<char>>,
    ParseError,
>
    decreases nl.len() - i,
{
    if i < 0 || i >= nl.len() {
        Ok(acc)
    } else if starts_with(nl[i], "#EXT-X-STREAM-INF:"@) {
        match tag_resolution(nl[i]) {
            Err(e) => Err(e),
            Ok(res) => if i + 1 >= nl.len() {
                Err(ParseError::MissingStreamUrl)
            } else {
                match url_parse(nl[i + 1]) {
                    None => master_scan(nl, i + 2, acc),
                    Some(u) => master_scan(nl, i + 2, acc.insert(res, u)),
                }
            },
        }
    } else {
        master_scan(nl, i + 1, acc)
    }
}

/// What a master playlist parses to.
pub open spec fn master_model(s: Seq<char>) -> Result<PlaylistModel, ParseError> {
    match master_scan(nonempty_lines(trimmed_lines(s)), 0, Map::empty()) {
        Ok(m) => Ok(PlaylistModel::Master(m)),
        Err(e) => Err(e),
    }
}

/// What an index playlist parses to: its trimmed lines that are not tag
/// lines (empty lines included).
pub open spec fn index_model(s: Seq<char>) -> PlaylistModel {
    PlaylistModel::Index(segment_lines(trimmed_lines(s)))
}

/// What a playlist text parses to.
pub open spec fn playlist_model(contents: Seq<char>) -> Result<PlaylistModel, ParseError> {
    let t = trim(contents);
    if !starts_with(t, "#EXTM3U"@) {
        Err(ParseError::InvalidHeader)
    } else if contains(t, "#EXT-X-STREAM-INF"@) {
        master_model(t)
    } else if contains(t, "#EXTINF"@) {
        Ok(index_model(t))
    } else {
        Err(ParseError::UnknownFormat)
    }
}

// ---------------------------------------------------------------------------
// Parser
// ---------------------------------------------------------------------------

/// Parses the text of an M3U playlist.
pub fn parse_m3u_contents(contents: &str) -> (r: Result<M3UResult, ParseError>)
    ensures
        match r {
            Ok(m) => playlist_model(contents@) == Ok::<PlaylistModel, ParseError>(m@),
            Err(e) => playlist_model(contents@) == Err::<PlaylistModel, ParseError>(e),
        },
{
    let all = chars_of(contents);
    let trimmed = trim_chars(&all);
    let header = chars_of("#EXTM3U");
    if !starts_with_exec(&trimmed, &header) {
        return Err(ParseError::InvalidHeader);
    }
    let stream_tag = chars_of("#EXT-X-STREAM-INF");
    let segment_tag = chars_of("#EXTINF");
    if contains_exec(&trimmed, &stream_tag) {
        parse_master_playlist(&trimmed)
    } else if contains_exec(&trimmed, &segment_tag) {
        parse_index_playlist(&trimmed)
    } else {
        Err(ParseError::UnknownFormat)
    }
}

/// The first attribute whose trimmed text starts with `RESOLUTION=`.
fn find_resolution_attribute_exec(attrs: &Vec<Vec<char>>) -> (r: Option<usize>)
    ensures
        match r {
            Some(k) => k < attrs@.len() && find_resolution_attribute(char_views(attrs@), 0) == Some(
                attrs@[k as int]@,
            ),
            None => find_resolution_attribute(char_views(attrs@), 0) is None,
        },
{
    let key = chars_of("RESOLUTION=");
    let ghost av = char_views(attrs@);
    let mut k: usize = 0;
    while k < attrs.len()
        invariant
            av == char_views(attrs@),
            key@ == "RESOLUTION="@,
            k <= attrs@.len(),
            find_resolution_attribute(av, 0) == find_resolution_attribute(av, k as int),
        decreases attrs.len() - k,
    {
        let t = trim_chars(&attrs[k]);
        assert(av[k as int] == attrs@[k as int]@);
        if starts_with_exec(&t, &key) {
            return Some(k);
        }
        k = k + 1;
    }
    None
}

/// The resolution written in a `RESOLUTION=` attribute.
fn attribute_resolution_exec(a: &Vec<char>) -> (r: Result<(u32, u32), ParseError>)
    ensures
        r == attribute_resolution(a@),
{
    let kv = split_chars(a, '=');
    if kv.len() < 2 {
        return Err(ParseError::InvalidResolutionAttribute);
    }
    assert(char_views(kv@)[1] == kv@[1]@);
    let parts = split_chars(&kv[1], 'x');
    if parts.len() < 1 {
        return Err(ParseError::FailedToParseResolution);
    }
    assert(char_views(parts@)[0] == parts@[0]@);
    let width = match parse_u32_exec(&parts[0]) {
        Some(w) => w,
        None => return Err(ParseError::FailedToParseResolution),
    };
    if parts.len() < 2 {
        return Err(ParseError::FailedToParseResolution);
    }
    assert(char_views(parts@)[1] == parts@[1]@);
    let height = match parse_u32_exec(&parts[1]) {
        Some(h) => h,
        None => return Err(ParseError::FailedToParseResolution),
    };
    Ok((width, height))
}

/// The resolution of a stream-info tag line.
fn tag_resolution_exec(line: &Vec<char>) -> (r: Result<(u32, u32), ParseError>)
    ensures
        r == tag_resolution(line@),
{
    let attrs = split_chars(line, ',');
    match find_resolution_attribute_exec(&attrs) {
        None => Ok((DEFAULT_WIDTH, DEFAULT_HEIGHT)),
        Some(k) => attribute_resolution_exec(&attrs[k]),
    }
}

/// The non-empty trimmed lines of `s`.
fn nonempty_trimmed_lines(s: &Vec<char>) -> (r: Vec<Vec<char>>)
    ensures
        char_views(r@) == nonempty_lines(trimmed_lines(s@)),
{
    let ls = trimmed_lines_exec(s);
    let ghost lv = char_views(ls@);
    let mut out: Vec<Vec<char>> = Vec::new();
    let mut k: usize = 0;
    assert(lv.take(0) =~= Seq::<Seq<char>>::empty());
    while k < ls.len()
        invariant
            lv == char_views(ls@),
            lv == trimmed_lines(s@),
            k <= ls@.len(),
            char_views(out@) == nonempty_lines(lv.take(k as int)),
        decreases ls.len() - k,
    {
        let ghost pre = lv.take(k as int);
        let ghost next = lv.take(k + 1);
        assert(next.drop_last() =~= pre);
        assert(next.last() == ls@[k as int]@);
        if ls[k].len() > 0 {
            let ghost old_out = out@;
            out.push(ls[k].clone());
            assert(char_views(out@) =~= char_views(old_out).push(ls@[k as int]@));
        }
        k = k + 1;
    }
    assert(lv.take(ls@.len() as int) =~= lv);
    out
}

/// Parses a master playlist whose text is `contents`.
fn parse_master_playlist(contents: &Vec<char>) -> (r: Result<M3UResult, ParseError>)
    ensures
        match r {
            Ok(m) => master_model(contents@) == Ok::<PlaylistModel, ParseError>(m@),
            Err(e) => master_model(contents@) == Err::<PlaylistModel, ParseError>(e),
        },
{
    let nl = nonempty_trimmed_lines(contents);
    let ghost nv = char_views(nl@);
    let tag = chars_of("#EXT-X-STREAM-INF:");
    let mut master = MasterPlaylist::new();
    let mut i: usize = 0;
    while i < nl.len()
        invariant
            nv == char_views(nl@),
            nv == nonempty_lines(trimmed_lines(contents@)),
            tag@ == "#EXT-X-STREAM-INF:"@,
            i <= nl@.len() + 1,
            master_scan(nv, 0, Map::empty()) == master_scan(nv, i as int, master@),
        decreases nl.len() + 2 - i,
    {
        assert(nv[i as int] == nl@[i as int]@);
        if starts_with_exec(&nl[i], &tag) {
            let resolution = match tag_resolution_exec(&nl[i]) {
                Ok(res) => res,
                Err(e) => return Err(e),
            };
            if i + 1 >= nl.len() {
                return Err(ParseError::MissingStreamUrl);
            }
            assert(nv[i + 1] == nl@[i + 1]@);
            let url_text = string_of(&nl[i + 1]);
            match parse_url(url_text.as_str()) {
                Some(url) => {
                    master.insert(resolution, url);
                },
                None => {},
            }
            i = i + 2;
        } else {
            i = i + 1;
        }
    }
    Ok(M3UResult::Master(master))
}

/// Parses an index playlist whose text is `contents`.
fn parse_index_playlist(contents: &Vec<char>) -> (r: Result<M3UResult, ParseError>)
    ensures
        r matches Ok(m) && index_model(contents@) == m@,
{
    let ls = trimmed_lines_exec(contents);
    let ghost lv = char_views(ls@);
    let mut segments: Vec<String> = Vec::new();
    let mut k: usize = 0;
    assert(lv.take(0) =~= Seq::<Seq<char>>::empty());
    while k < ls.len()
        invariant
            lv == char_views(ls@),
            lv == trimmed_lines(contents@),
            k <= ls@.len(),
            string_views(segments@) == segment_lines(lv.take(k as int)),
        decreases ls.len() - k,
    {
        let ghost pre = lv.take(k as int);
        let ghost next = lv.take(k + 1);
        assert(next.drop_last() =~= pre);
        assert(next.last() == ls@[k as int]@);
        let line = &ls[k];
        if !(line.len() > 0 && line[0] == '#') {
            let ghost old_segments = segments@;
            segments.push(string_of(line));
            assert(string_views(segments@) =~= string_views(old_segments).push(ls@[k as int]@));
        }
        k = k + 1;
    }
    assert(lv.take(ls@.len() as int) =~= lv);
    Ok(M3UResult::Index(segments))
}

} // verus!
