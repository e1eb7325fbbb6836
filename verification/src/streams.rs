//! Streams: as a search finds them, and as they are downloaded.
use vstd::prelude::*;

use crate::m3u::{parse_error_text, parse_m3u_contents, playlist_model, M3UResult, PlaylistModel};
use crate::request::{concat, request_error_text, RequestError};
use crate::text::string_views;
use crate::urls::{host_of_url, join_url, parse_url, url_host, url_join, url_parse};

verus! {

// ---------------------------------------------------------------------------
// Search results
// ---------------------------------------------------------------------------

/// An audio track of a stream, with its segment URLs.
#[derive(Debug, Clone)]
pub struct AudioChannel {
    pub lang: String,
    pub segments: Vec<String>,
}

/// A stream a search found: its quality and its segment URLs.
#[derive(Debug, Clone)]
pub struct Stream {
    pub quality: String,
    pub video_segments: Vec<String>,
    pub audio_channels: Vec<AudioChannel>,
}

/// A subtitle a search found.
#[derive(Debug, Clone)]
pub struct Subtitle {
    pub lang: String,
    pub url: String,
}

/// What a search found.
#[derive(Debug, Clone)]
pub struct Streams {
    pub streams: Vec<Stream>,
    pub subtitles: Vec<Subtitle>,
}

impl Stream {
    /// What downloads of this stream are throttled by: its first video
    /// segment's URL, or a stand-in where it has none.
    pub fn rate_limit_host(&self) -> (r: String)
        ensures
            r@ == (if self.video_segments@.len() > 0 {
                self.video_segments@[0]@
            } else {
                "https://invalidurl.com"@
            }),
    {
        if self.video_segments.len() > 0 {
            self.video_segments[0].clone()
        } else {
            "https://invalidurl.com".to_owned()
        }
    }
}

/// Every address parses as a URL.
pub open spec fn urls_ok(v: Seq<String>) -> bool {
    forall|i: int| 0 <= i < v.len() ==> #[trigger] url_parse(v[i]@) is Some
}

/// `u` holds the addresses of `v` in the form `url::Url::parse` gives them.
pub open spec fn urls_normalized(v: Seq<String>, u: Seq<String>) -> bool {
    &&& u.len() == v.len()
    &&& forall|i: int| 0 <= i < v.len() ==> url_parse(#[trigger] v[i]@) == Some(u[i]@)
}

/// Every address of a stream parses as a URL.
pub open spec fn stream_ok(s: Stream) -> bool {
    &&& urls_ok(s.video_segments@)
    &&& forall|c: int| #![trigger s.audio_channels@[c]] 0 <= c < s.audio_channels@.len() ==> urls_ok(s.audio_channels@[c].segments@)
}

/// `t` is the stream `s` with its addresses in parsed form.
pub open spec fn stream_normalized(s: Stream, t: Stream) -> bool {
    &&& t.quality@ == s.quality@
    &&& urls_normalized(s.video_segments@, t.video_segments@)
    &&& t.audio_channels@.len() == s.audio_channels@.len()
    &&& forall|c: int|
        #![trigger s.audio_channels@[c]]
        0 <= c < s.audio_channels@.len() ==> t.audio_channels@[c].lang@ == s.audio_channels@[c].lang@
            && urls_normalized(s.audio_channels@[c].segments@, t.audio_channels@[c].segments@)
}

/// The addresses of `v` in the form `url::Url::parse` gives them; `None`
/// where one does not parse.
pub fn normalize_urls(v: &Vec<String>) -> (r: Option<Vec<String>>)
    ensures
        r is Some <==> urls_ok(v@),
        r matches Some(u) ==> urls_normalized(v@, u@),
{
    let mut u: Vec<String> = Vec::new();
    let mut i: usize = 0;
    while i < v.len()
        invariant
            i <= v@.len(),
            u@.len() == i,
            forall|k: int| 0 <= k < i ==> url_parse(#[trigger] v@[k]@) == Some(u@[k]@),
        decreases v@.len() - i,
    {
        match parse_url(v[i].as_str()) {
            Some(p) => u.push(p),
            None => {
                assert(url_parse(v@[i as int]@) is None);
                return None;
            },
        }
        i = i + 1;
    }
    Some(u)
}

/// A stream found by search with its addresses in the form
/// `url::Url::parse` gives them; `None` where one of them does not parse.
pub fn normalize_stream(s: &Stream) -> (r: Option<Stream>)
    ensures
        r is Some <==> stream_ok(*s),
        r matches Some(t) ==> stream_normalized(*s, t),
{
    let video = match normalize_urls(&s.video_segments) {
        Some(v) => v,
        None => return None,
    };
    let mut channels: Vec<AudioChannel> = Vec::new();
    let mut c: usize = 0;
    while c < s.audio_channels.len()
        invariant
            c <= s.audio_channels@.len(),
            channels@.len() == c,
            forall|k: int| #![trigger s.audio_channels@[k]] 0 <= k < c ==> urls_ok(s.audio_channels@[k].segments@),
            forall|k: int|
                #![trigger s.audio_channels@[k]]
                0 <= k < c ==> channels@[k].lang@ == s.audio_channels@[k].lang@ && urls_normalized(
                    s.audio_channels@[k].segments@,
                    channels@[k].segments@,
                ),
        decreases s.audio_channels@.len() - c,
    {
        match normalize_urls(&s.audio_channels[c].segments) {
            Some(segments) => {
                channels.push(AudioChannel { lang: s.audio_channels[c].lang.clone(), segments });
            },
            None => return None,
        }
        c = c + 1;
    }
    let ghost ch = channels@;
    let t = Stream { quality: s.quality.clone(), video_segments: video, audio_channels: channels };
    assert(t.audio_channels@ == ch);
    Some(t)
}

/// Search results with their addresses in the form `url::Url::parse`
/// gives them; `None` where one of them does not parse.
pub fn normalize_streams(s: &Streams) -> (r: Option<Streams>)
    ensures
        r is Some <==> (forall|k: int| 0 <= k < s.streams@.len() ==> stream_ok(#[trigger] s.streams@[k]))
            && (forall|k: int| 0 <= k < s.subtitles@.len() ==> url_parse(#[trigger] s.subtitles@[k].url@) is Some),
        r matches Some(t) ==> t.streams@.len() == s.streams@.len() && (forall|k: int|
            0 <= k < s.streams@.len() ==> stream_normalized(#[trigger] s.streams@[k], t.streams@[k]))
            && t.subtitles@.len() == s.subtitles@.len() && (forall|k: int|
            0 <= k < s.subtitles@.len() ==> t.subtitles@[k].lang@ == s.subtitles@[k].lang@ && url_parse(
                #[trigger] s.subtitles@[k].url@,
            ) == Some(t.subtitles@[k].url@)),
{
    let mut streams: Vec<Stream> = Vec::new();
    let mut k: usize = 0;
    while k < s.streams.len()
        invariant
            k <= s.streams@.len(),
            streams@.len() == k,
            forall|j: int|
                0 <= j < k ==> stream_ok(#[trigger] s.streams@[j]) && stream_normalized(s.streams@[j], streams@[j]),
        decreases s.streams@.len() - k,
    {
        match normalize_stream(&s.streams[k]) {
            Some(t) => streams.push(t),
            None => return None,
        }
        k = k + 1;
    }
    let mut subtitles: Vec<Subtitle> = Vec::new();
    let mut k: usize = 0;
    while k < s.subtitles.len()
        invariant
            k <= s.subtitles@.len(),
            subtitles@.len() == k,
            forall|j: int|
                0 <= j < k ==> subtitles@[j].lang@ == s.subtitles@[j].lang@ && url_parse(#[trigger] s.subtitles@[j].url@)
                    == Some(subtitles@[j].url@),
        decreases s.subtitles@.len() - k,
    {
        match parse_url(s.subtitles[k].url.as_str()) {
            Some(u) => subtitles.push(Subtitle { lang: s.subtitles[k].lang.clone(), url: u }),
            None => return None,
        }
        k = k + 1;
    }
    Some(Streams { streams, subtitles })
}

// ---------------------------------------------------------------------------
// Downloadable streams
// ---------------------------------------------------------------------------

/// What is downloaded: a list of segments, or one MP4 file.
#[derive(Debug, Clone)]
pub enum DownloadableStreamType {
    Segments(Vec<String>),
    Mp4(String),
}

impl Default for DownloadableStreamType {
    fn default() -> (r: Self)
        ensures
            r matches DownloadableStreamType::Segments(v) && v@.len() == 0,
    {
        DownloadableStreamType::Segments(Vec::new())
    }
}

/// A stream ready for download.
#[derive(Debug, Clone)]
pub struct DownloadableStream {
    pub resolution: String,
    pub stream_type: DownloadableStreamType,
}

/// The host that stands in where a stream's URL has none.
pub open spec fn invalid_host() -> Seq<char> {
    "invalidurl.com"@
}

/// The host downloads of a stream are throttled by: that of its first
/// segment (or of its file), or the stand-in host.
pub open spec fn stream_host(t: DownloadableStreamType) -> Seq<char> {
    match t {
        DownloadableStreamType::Segments(urls) => if urls@.len() == 0 {
            invalid_host()
        } else {
            match url_host(urls@[0]@) {
                Some(h) => h,
                None => invalid_host(),
            }
        },
        DownloadableStreamType::Mp4(url) => match url_host(url@) {
            Some(h) => h,
            None => invalid_host(),
        },
    }
}

impl DownloadableStream {
    /// The host downloads of this stream are throttled by.
    pub fn rate_limit_host(&self) -> (r: String)
        ensures
            r@ == stream_host(self.stream_type),
    {
        let first: Option<String> = match &self.stream_type {
            DownloadableStreamType::Segments(urls) => if urls.len() == 0 {
                None
            } else {
                host_of_url(urls[0].as_str())
            },
            DownloadableStreamType::Mp4(url) => host_of_url(url.as_str()),
        };
        match first {
            Some(h) => h,
            None => "invalidurl.com".to_owned(),
        }
    }
}

// ---------------------------------------------------------------------------
// Conversion
// ---------------------------------------------------------------------------

/// Why a stream could not be made ready for download.
#[derive(Debug, Clone)]
pub enum ConversionError {
    UnableToRetrieveStream(String, RequestError),
    FailedToParseResult(String),
}

/// The text that describes each conversion error.
pub open spec fn conversion_error_text(e: ConversionError) -> Seq<char> {
    match e {
        ConversionError::UnableToRetrieveStream(url, _) => "Unable to download stream file from \""@
            + url@ + "\"."@,
        ConversionError::FailedToParseResult(s) => "Failed to parse downloaded stream result, due to: "@
            + s@,
    }
}

impl ConversionError {
    /// The human-readable description of this error.
    pub fn message(&self) -> (s: String)
        ensures
            s@ == conversion_error_text(*self),
    {
        match self {
            ConversionError::UnableToRetrieveStream(url, _) => {
                let mut s = concat("Unable to download stream file from \"", url.as_str());
                s.append("\".");
                s
            },
            ConversionError::FailedToParseResult(m) => concat(
                "Failed to parse downloaded stream result, due to: ",
                m.as_str(),
            ),
        }
    }
}

/// The text of the error for a playlist that is not an index playlist.
pub open spec fn not_index_text() -> Seq<char> {
    "Expected the M3U result to be an index.m3u(8)."@
}

/// The segment lines of a fetched playlist, which must be an index playlist.
pub fn playlist_segments(contents: &str) -> (r: Result<Vec<String>, ConversionError>)
    ensures
        match playlist_model(contents@) {
            Ok(PlaylistModel::Index(lines)) => r matches Ok(v) && string_views(v@) == lines,
            Ok(PlaylistModel::Master(_)) => r matches Err(ConversionError::FailedToParseResult(m))
                && m@ == not_index_text(),
            Err(e) => r matches Err(ConversionError::FailedToParseResult(m)) && m@
                == parse_error_text(e),
        },
{
    match parse_m3u_contents(contents) {
        Ok(M3UResult::Index(segments)) => Ok(segments),
        Ok(M3UResult::Master(_)) => Err(
            ConversionError::FailedToParseResult(
                "Expected the M3U result to be an index.m3u(8).".to_owned(),
            ),
        ),
        Err(e) => Err(ConversionError::FailedToParseResult(e.message())),
    }
}

/// The URL of a segment line: the line itself where it is an absolute URL,
/// else the line resolved against the directory of the playlist's URL.
pub open spec fn segment_url(segment: Seq<char>, playlist_url: Seq<char>) -> Option<Seq<char>> {
    match url_parse(segment) {
        Some(u) => Some(u),
        None => match url_join(playlist_url, "."@) {
            Some(dir) => url_join(dir, segment),
            None => None,
        },
    }
}

/// Every segment line has a URL.
pub open spec fn segments_resolvable(segments: Seq<Seq<char>>, playlist_url: Seq<char>) -> bool {
    forall|i: int| 0 <= i < segments.len() ==> #[trigger] segment_url(segments[i], playlist_url) is Some
}

/// The URL of one segment line.
fn resolve_segment(segment: &str, playlist_url: &str) -> (r: Option<String>)
    ensures
        match r {
            Some(u) => segment_url(segment@, playlist_url@) == Some(u@),
            None => segment_url(segment@, playlist_url@) is None,
        },
{
    match parse_url(segment) {
        Some(u) => Some(u),
        None => match join_url(playlist_url, ".") {
            Some(dir) => join_url(dir.as_str(), segment),
            None => None,
        },
    }
}

/// A segmented stream of the given resolution from the segment lines of an
/// index playlist fetched from `request_url`.
pub fn create_stream_from_segments(segments: Vec<String>, request_url: &str, resolution: &str) -> (r:
    Result<DownloadableStream, ConversionError>)
    requires
        segments_resolvable(string_views(segments@), request_url@),
    ensures
        r matches Ok(s) && s.resolution@ == resolution@ && (s.stream_type matches DownloadableStreamType::Segments(
            urls,
        ) && urls@.len() == segments@.len() && forall|i: int|
            0 <= i < segments@.len() ==> segment_url(segments@[i]@, request_url@) == Some(
                #[trigger] urls@[i]@,
            )),
{
    let mut url_segments: Vec<String> = Vec::new();
    let n = segments.len();
    let mut i: usize = 0;
    while i < n
        invariant
            n == segments@.len(),
            segments_resolvable(string_views(segments@), request_url@),
            i <= n,
            url_segments@.len() == i,
            forall|k: int|
                0 <= k < i ==> segment_url(segments@[k]@, request_url@) == Some(
                    #[trigger] url_segments@[k]@,
                ),
        decreases n - i,
    {
        assert(string_views(segments@)[i as int] == segments@[i as int]@);
        let u = resolve_segment(segments[i].as_str(), request_url);
        match u {
            Some(url) => {
                url_segments.push(url);
            },
            None => {
                assert(false);
            },
        }
        i = i + 1;
    }
    Ok(
        DownloadableStream {
            resolution: resolution.to_owned(),
            stream_type: DownloadableStreamType::Segments(url_segments),
        },
    )
}

/// As `create_stream_from_segments`, where every segment line has a URL;
/// `None` where one has none.
pub fn try_create_stream_from_segments(segments: Vec<String>, request_url: &str, resolution: &str) -> (r:
    Option<DownloadableStream>)
    ensures
        segments_resolvable(string_views(segments@), request_url@) <==> r is Some,
        r matches Some(s) ==> s.resolution@ == resolution@ && (s.stream_type matches DownloadableStreamType::Segments(
            urls,
        ) && urls@.len() == segments@.len() && forall|i: int|
            0 <= i < segments@.len() ==> segment_url(segments@[i]@, request_url@) == Some(
                #[trigger] urls@[i]@,
            )),
{
    let n = segments.len();
    let mut i: usize = 0;
    while i < n
        invariant
            n == segments@.len(),
            i <= n,
            forall|k: int|
                0 <= k < i ==> #[trigger] segment_url(string_views(segments@)[k], request_url@) is Some,
        decreases n - i,
    {
        assert(string_views(segments@)[i as int] == segments@[i as int]@);
        if resolve_segment(segments[i].as_str(), request_url).is_none() {
            return None;
        }
        i = i + 1;
    }
    match create_stream_from_segments(segments, request_url, resolution) {
        Ok(s) => Some(s),
        Err(_) => None,
    }
}

} // verus!
