//! Indexer configuration: indexers, their specifications, and how their
//! streams are searched and downloaded.
use vstd::prelude::*;

use crate::headers::{
    header_value_accepts, header_value_ok, header_value_readable, header_value_visible, HeaderMap,
};
use crate::keyed::{key_views, StringMap};
use crate::headers::value_views;
use crate::text::{chars_of, replace_all, replace_all_exec, string_of};

verus! {

// ---------------------------------------------------------------------------
// Download specifications
// ---------------------------------------------------------------------------

/// Tuning for downloads that intercept an index playlist.
#[derive(Debug, Clone, Copy)]
pub struct IndexDownloadSpecification {
    pub wait_time: u8,
    pub retries: u8,
}

/// Tuning for downloads that intercept a master playlist.
#[derive(Debug, Clone, Copy)]
pub struct MasterDownloadSpecification {
    pub wait_time: u8,
    pub retries: u8,
}

/// Tuning for downloads that intercept an MP4 file.
#[derive(Debug, Clone, Copy)]
pub struct MP4DownloadSpecification {
    pub wait_time: u32,
    pub retries: u32,
}

/// How a stream is found for download.
#[derive(Debug, Clone, Copy)]
pub enum DownloadMethod {
    IndexInterception(IndexDownloadSpecification),
    MasterInterception(MasterDownloadSpecification),
    MP4Interception(MP4DownloadSpecification),
}

/// How each segment is requested.
#[derive(Debug, Clone)]
pub struct PreDownloadSpecifiation {
    pub segment_timeout: u32,
    pub segment_attempts: u32,
    pub headers: HeaderMap,
}

/// The placeholder for the indexer's base URL in a header value.
pub const BASE_URL_PLACEHOLDER: &'static str = "{base_url}";

/// The placeholder for the stream's URL in a header value.
pub const STREAM_URL_PLACEHOLDER: &'static str = "{stream_url}";

/// A header value with its placeholders filled in: where the value reads as
/// text (visible ASCII), each `{base_url}` becomes `base_url` and then each
/// `{stream_url}` becomes `stream_url`; the result is kept only where it is
/// a valid header value.
pub open spec fn resolved_value(v: Seq<char>, base_url: Seq<char>, stream_url: Seq<char>) -> Seq<char> {
    if header_value_visible(v) {
        let n = replace_all(
            replace_all(v, "{base_url}"@, base_url),
            "{stream_url}"@,
            stream_url,
        );
        if header_value_ok(n) {
            n
        } else {
            v
        }
    } else {
        v
    }
}

/// The headers with each value resolved.
pub open spec fn resolved_headers(
    h: Seq<(Seq<char>, Seq<char>)>,
    base_url: Seq<char>,
    stream_url: Seq<char>,
) -> Seq<(Seq<char>, Seq<char>)> {
    h.map_values(|e: (Seq<char>, Seq<char>)| (e.0, resolved_value(e.1, base_url, stream_url)))
}

impl PreDownloadSpecifiation {
    /// Fills the `{base_url}` and `{stream_url}` placeholders in the header
    /// values; names and order stay as they are.
    pub fn resolve_variables(&mut self, base_url: &str, stream_url: &str)
        ensures
            final(self).segment_timeout == old(self).segment_timeout,
            final(self).segment_attempts == old(self).segment_attempts,
            final(self).headers.headers() == resolved_headers(
                old(self).headers.headers(),
                base_url@,
                stream_url@,
            ),
    {
        let base_pattern = chars_of(BASE_URL_PLACEHOLDER);
        let stream_pattern = chars_of(STREAM_URL_PLACEHOLDER);
        let base_chars = chars_of(base_url);
        let stream_chars = chars_of(stream_url);
        proof {
            reveal_strlit("{base_url}");
            reveal_strlit("{stream_url}");
        }
        let ghost old_headers = self.headers.headers();
        let n = self.headers.len();
        let mut i: usize = 0;
        while i < n
            invariant
                base_pattern@ == "{base_url}"@,
                stream_pattern@ == "{stream_url}"@,
                base_pattern@.len() > 0,
                stream_pattern@.len() > 0,
                base_chars@ == base_url@,
                stream_chars@ == stream_url@,
                n == old_headers.len(),
                i <= n,
                self.segment_timeout == old(self).segment_timeout,
                self.segment_attempts == old(self).segment_attempts,
                old_headers == old(self).headers.headers(),
                self.headers.headers().len() == n,
                forall|k: int|
                    0 <= k < i ==> #[trigger] self.headers.headers()[k] == resolved_headers(
                        old_headers,
                        base_url@,
                        stream_url@,
                    )[k],
                forall|k: int| i <= k < n ==> #[trigger] self.headers.headers()[k] == old_headers[k],
            decreases n - i,
        {
            let entries = self.headers.entries();
            assert(self.headers.headers()[i as int] == (entries@[i as int].0@, entries@[i as int].1@));
            let value = entries[i].1.clone();
            assert(header_value_ok(self.headers.headers()[i as int].1));
            if header_value_readable(value.as_str()) {
                let value_chars = chars_of(value.as_str());
                let step = replace_all_exec(&value_chars, &base_pattern, &base_chars);
                let resolved_chars = replace_all_exec(&step, &stream_pattern, &stream_chars);
                let resolved = string_of(&resolved_chars);
                if header_value_accepts(resolved.as_str()) {
                    let ghost before = self.headers.headers();
                    self.headers.set_value_at(i, resolved);
                    assert forall|k: int| 0 <= k < i + 1 implies #[trigger] self.headers.headers()[k]
                        == resolved_headers(old_headers, base_url@, stream_url@)[k] by {
                        if k < i {
                            assert(self.headers.headers()[k] == before[k]);
                        }
                    }
                    assert forall|k: int| i + 1 <= k < n implies #[trigger] self.headers.headers()[k]
                        == old_headers[k] by {
                        assert(self.headers.headers()[k] == before[k]);
                    }
                }
            }
            i = i + 1;
        }
        assert(self.headers.headers() =~= resolved_headers(old_headers, base_url@, stream_url@));
    }
}

impl Default for PreDownloadSpecifiation {
    fn default() -> (r: Self)
        ensures
            r.segment_timeout == 5,
            r.segment_attempts == 5,
            r.headers@ == Map::<Seq<char>, Seq<char>>::empty(),
            r.headers.headers().len() == 0,
    {
        PreDownloadSpecifiation { segment_timeout: 5, segment_attempts: 5, headers: HeaderMap::new() }
    }
}

/// What is cut from each downloaded segment.
#[derive(Debug, Clone, Copy)]
pub struct PostDownloadSpecification {
    pub remove_front_bytes: u32,
    pub remove_back_bytes: u32,
}

impl Default for PostDownloadSpecification {
    fn default() -> (r: Self)
        ensures
            r.remove_front_bytes == 0,
            r.remove_back_bytes == 0,
    {
        PostDownloadSpecification { remove_front_bytes: 0, remove_back_bytes: 0 }
    }
}

/// How an indexer's streams are downloaded.
#[derive(Debug, Clone)]
pub struct DownloadSpecification {
    pub method: DownloadMethod,
    pub segment_pre_download: PreDownloadSpecifiation,
    pub segment_post_download: PostDownloadSpecification,
}

// ---------------------------------------------------------------------------
// Streams, search and servers
// ---------------------------------------------------------------------------

/// The kind of stream an indexer serves.
#[derive(Debug, Clone, Copy, PartialEq, Eq, Structural)]
pub enum StreamType {
    Index,
    Master,
    Mp4,
    VideoAudo,
}

/// How an indexer's streams are fetched.
#[derive(Debug, Clone)]
pub struct StreamSpecification {
    pub stream_type: StreamType,
    pub headers: StringMap<String>,
}

/// How an indexer's search is emulated.
#[derive(Debug, Clone)]
pub struct SearchSpecification {
    pub emulate_url: String,
    pub headers: StringMap<String>,
}

/// One server of an indexer.
#[derive(Debug, Clone)]
pub struct IndexerServer {
    pub name: String,
    pub description: String,
    pub search_url: String,
    pub stream: Option<StreamSpecification>,
    pub download: Option<DownloadSpecification>,
}

// ---------------------------------------------------------------------------
// Indexers
// ---------------------------------------------------------------------------

/// The directory that holds the configured indexers.
pub const INDEXERS_DIR: &'static str = "/config/indexers/";

/// The directory that holds the indexer specifications.
pub const INDEXER_SPECIFICATIONS_DIR: &'static str = "/config/indexers/specifications/";

/// A site an indexer can be made from.
#[derive(Debug, Clone)]
pub struct IndexerSpecification {
    pub name: String,
    pub servers: Vec<String>,
    pub uses_cloudflare: bool,
    pub download: DownloadSpecification,
}

/// A configured indexer.
#[derive(Debug, Clone)]
pub struct Indexer {
    pub name: String,
    pub server: String,
    pub uses_cloudflare: bool,
    pub download: DownloadSpecification,
    pub based_on: String,
}

/// The lower-case form of `s` that `str::to_lowercase` gives (Unicode case mapping).
pub uninterp spec fn unicode_lowercase(s: Seq<char>) -> Seq<char>;

/// Calls `str::to_lowercase`. Claimed: the result is `unicode_lowercase(s)`.
#[verifier::external_body]
pub(crate) fn to_lowercase(s: &str) -> (r: String)
    ensures
        r@ == unicode_lowercase(s@),
{
    s.to_lowercase()
}

/// The path of the file an indexer is stored in: the indexers directory,
/// the lower-cased name, and `.json`.
pub open spec fn indexer_path(name: Seq<char>) -> Seq<char> {
    "/config/indexers/"@ + unicode_lowercase(name) + ".json"@
}

/// The path of the file the indexer named `name` is stored in.
pub fn indexer_name_to_path(name: &str) -> (p: String)
    ensures
        p@ == indexer_path(name@),
{
    let mut p = INDEXERS_DIR.to_owned();
    let lower = to_lowercase(name);
    p.append(lower.as_str());
    p.append(".json");
    p
}

/// The path of the file the indexer named `name` is stored in, where that
/// file lies directly in the indexers directory: the lower-cased name has
/// no `/`. Other names are refused.
pub fn checked_indexer_path(name: &str) -> (r: Option<String>)
    ensures
        !unicode_lowercase(name@).contains('/') ==> (r matches Some(p) && p@ == indexer_path(name@)),
        unicode_lowercase(name@).contains('/') ==> r is None,
{
    let lower = to_lowercase(name);
    let chars = chars_of(lower.as_str());
    let n = chars.len();
    let mut i: usize = 0;
    while i < n
        invariant
            n == chars@.len(),
            chars@ == unicode_lowercase(name@),
            i <= n,
            forall|k: int| 0 <= k < i ==> chars@[k] != '/',
        decreases n - i,
    {
        if chars[i] == '/' {
            assert(chars@.contains('/')) by {
                assert(chars@[i as int] == '/');
            }
            return None;
        }
        i = i + 1;
    }
    Some(indexer_name_to_path(name))
}

/// What to do with an entry of the specification repository's listing.
#[derive(Debug, Clone)]
pub enum ListingEntry {
    /// Not a JSON file: skip it.
    Skip,
    /// A JSON file without a download URL: skip it with a warning.
    MissingDownloadUrl(String),
    /// A JSON file whose download URL does not parse: skip it with a warning.
    InvalidDownloadUrl(String, String),
    /// A specification to download from `url` and store as `name`.
    Fetch { name: String, url: String },
}

/// `s` ends with `p`.
pub open spec fn has_suffix(s: Seq<char>, p: Seq<char>) -> bool {
    p.len() <= s.len() && s.subrange(s.len() - p.len(), s.len() as int) == p
}

fn has_suffix_exec(s: &str, p: &str) -> (b: bool)
    ensures
        b == has_suffix(s@, p@),
{
    let sc = chars_of(s);
    let pc = chars_of(p);
    if pc.len() > sc.len() {
        return false;
    }
    crate::text::occurs_at_exec(&sc, &pc, sc.len() - pc.len())
}

/// What to do with a listing entry named `name` (if it has a name) with
/// the download URL `download_url` (if it has one): only JSON files with a
/// download URL that parses are fetched.
pub fn classify_listing_entry(name: Option<&str>, download_url: Option<&str>) -> (r: ListingEntry)
    ensures
        match name {
            None => r is Skip,
            Some(n) => if !has_suffix(n@, ".json"@) {
                r is Skip
            } else {
                match download_url {
                    None => r matches ListingEntry::MissingDownloadUrl(m) && m@ == n@,
                    Some(u) => match crate::urls::url_parse(u@) {
                        None => r matches ListingEntry::InvalidDownloadUrl(m, v) && m@ == n@ && v@ == u@,
                        Some(parsed) => r matches ListingEntry::Fetch { name: m, url: v } && m@ == n@ && v@
                            == parsed,
                    },
                }
            },
        },
{
    let n = match name {
        Some(n) => n,
        None => return ListingEntry::Skip,
    };
    if !has_suffix_exec(n, ".json") {
        return ListingEntry::Skip;
    }
    match download_url {
        None => ListingEntry::MissingDownloadUrl(n.to_owned()),
        Some(u) => match crate::urls::parse_url(u) {
            None => ListingEntry::InvalidDownloadUrl(n.to_owned(), u.to_owned()),
            Some(parsed) => ListingEntry::Fetch { name: n.to_owned(), url: parsed },
        },
    }
}

/// Why an indexer could not be written to its file.
#[derive(Debug, Clone)]
pub enum WriteIndexerError {
    FailedToOpenFile(String, String),
    UnableToConvertToJson,
    FailedToWrite(String, String),
}

/// The text that describes each write error.
pub open spec fn write_indexer_error_text(e: WriteIndexerError) -> Seq<char> {
    match e {
        WriteIndexerError::FailedToOpenFile(path, _) => "Failed to open file \""@ + path@ + "\"."@,
        WriteIndexerError::UnableToConvertToJson => "Unable to convert indexer to json."@,
        WriteIndexerError::FailedToWrite(path, error) => "Unable to read \""@ + path@
            + "\" with error: "@ + error@,
    }
}

impl WriteIndexerError {
    /// The human-readable description of this error.
    pub fn message(&self) -> (s: String)
        ensures
            s@ == write_indexer_error_text(*self),
    {
        match self {
            WriteIndexerError::FailedToOpenFile(path, _) => {
                let mut s = crate::request::concat("Failed to open file \"", path.as_str());
                s.append("\".");
                s
            },
            WriteIndexerError::UnableToConvertToJson => "Unable to convert indexer to json.".to_owned(),
            WriteIndexerError::FailedToWrite(path, error) => {
                let mut s = crate::request::concat("Unable to read \"", path.as_str());
                s.append("\" with error: ");
                s.append(error.as_str());
                s
            },
        }
    }
}

// ---------------------------------------------------------------------------
// State
// ---------------------------------------------------------------------------

/// What the state file holds.
#[derive(Debug, Clone, Copy)]
pub struct StateBody {
    pub todo: i8,
}

/// The running configuration: the configured indexers.
#[derive(Debug, Clone)]
pub struct State {
    pub indexers: Vec<Indexer>,
}

impl StateBody {
    /// The state-file body of a state.
    pub fn from(_state: &State) -> (b: Self)
        ensures
            b.todo == 0,
    {
        StateBody { todo: 0 }
    }
}

impl State {
    /// The first configured indexer named `name`, if any.
    pub fn get_indexer_by_name(&self, name: &str) -> (r: Option<&Indexer>)
        ensures
            match r {
                Some(ix) => exists|k: int|
                    0 <= k < self.indexers@.len() && self.indexers@[k] == *ix && ix.name@ == name@
                        && forall|j: int|
                        0 <= j < k ==> #[trigger] self.indexers@[j].name@ != name@,
                None => forall|j: int|
                    0 <= j < self.indexers@.len() ==> #[trigger] self.indexers@[j].name@ != name@,
            },
    {
        let n = self.indexers.len();
        let mut i: usize = 0;
        while i < n
            invariant
                n == self.indexers@.len(),
                i <= n,
                forall|j: int| 0 <= j < i ==> #[trigger] self.indexers@[j].name@ != name@,
            decreases n - i,
        {
            if crate::text::str_equal(self.indexers[i].name.as_str(), name) {
                return Some(&self.indexers[i]);
            }
            i = i + 1;
        }
        None
    }
}

} // verus!
