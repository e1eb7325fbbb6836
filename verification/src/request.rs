//! Requesters: their settings, their errors, the headers a request is sent
//! with, the arguments of a `curl` request, and the FlareSolverr protocol.
use vstd::prelude::*;

use rand::seq::IndexedRandom;

use crate::headers::{
    header_name_accepts_lowercase, header_name_lowercase_ok, header_value_accepts, header_value_ok,
    header_value_readable, header_value_visible, put_headers, value_views, HeaderMap,
};
use crate::keyed::{key_views, StringMap};
use crate::text::{ascii_lowercase, decimal, decimal_string};

verus! {

// ---------------------------------------------------------------------------
// Errors
// ---------------------------------------------------------------------------

/// Why a request failed.
#[derive(Debug, Clone)]
pub enum RequestError {
    FailedToCreate(String),
    RequestFailedToSend(String),
    RequestFailed(String),
    FailedToReadBytes(String),
    FailedToConvertBytesToString,
}

/// The text that describes each request error.
pub open spec fn request_error_text(e: RequestError) -> Seq<char> {
    match e {
        RequestError::FailedToCreate(s) => "Failed to create requester, error: "@ + s@,
        RequestError::RequestFailedToSend(s) => "Failed to send request, error: "@ + s@,
        RequestError::RequestFailed(s) => "Request failed with error: "@ + s@,
        RequestError::FailedToReadBytes(s) => "Failed to read response's bytes with error: "@ + s@,
        RequestError::FailedToConvertBytesToString => "Failed to convert response bytes to a string."@,
    }
}

/// `prefix` followed by `rest`.
pub fn concat(prefix: &str, rest: &str) -> (s: String)
    ensures
        s@ == prefix@ + rest@,
{
    let mut s = prefix.to_owned();
    s.append(rest);
    s
}

impl RequestError {
    /// The human-readable description of this error.
    pub fn message(&self) -> (s: String)
        ensures
            s@ == request_error_text(*self),
    {
        match self {
            RequestError::FailedToCreate(s) => concat("Failed to create requester, error: ", s.as_str()),
            RequestError::RequestFailedToSend(s) => concat("Failed to send request, error: ", s.as_str()),
            RequestError::RequestFailed(s) => concat("Request failed with error: ", s.as_str()),
            RequestError::FailedToReadBytes(s) => concat(
                "Failed to read response's bytes with error: ",
                s.as_str(),
            ),
            RequestError::FailedToConvertBytesToString => "Failed to convert response bytes to a string.".to_owned(),
        }
    }
}

/// The text of a response body, which must be valid UTF-8.
pub fn text_from_bytes(bytes: Vec<u8>) -> (r: Result<String, RequestError>)
    ensures
        vstd::utf8::valid_utf8(bytes@) ==> (r matches Ok(s) && s@ == vstd::utf8::decode_utf8(bytes@)),
        !vstd::utf8::valid_utf8(bytes@) ==> (r matches Err(RequestError::FailedToConvertBytesToString)),
{
    match crate::analysis::string_from_utf8(bytes) {
        Some(s) => Ok(s),
        None => Err(RequestError::FailedToConvertBytesToString),
    }
}

// ---------------------------------------------------------------------------
// Requester settings
// ---------------------------------------------------------------------------

/// What every request of a requester is sent with.
#[derive(Debug, Clone)]
pub struct RequesterSpecification {
    pub user_agent: String,
    pub headers: HeaderMap,
    pub connect_timeout: u64,
    pub max_timeout: u64,
}

/// One of the user agents a requester may present itself as.
pub open spec fn is_known_user_agent(ua: Seq<char>) -> bool {
    ||| ua == "Mozilla/5.0 (Windows NT 10.0; Win64; x64) AppleWebKit/537.36 (KHTML, like Gecko) Chrome/120.0.0.0 Safari/537.36"@
    ||| ua == "Mozilla/5.0 (Macintosh; Intel Mac OS X 10_15_7) AppleWebKit/537.36 (KHTML, like Gecko) Chrome/120.0.0.0 Safari/537.36"@
    ||| ua == "Mozilla/5.0 (Windows NT 10.0; Win64; x64; rv:109.0) Gecko/20100101 Firefox/121.0"@
    ||| ua == "Mozilla/5.0 (Macintosh; Intel Mac OS X 10_15_7) AppleWebKit/605.1.15 (KHTML, like Gecko) Version/17.2.1 Safari/605.1.15"@
    ||| ua == "Mozilla/5.0 (X11; Linux x86_64) AppleWebKit/537.36 (KHTML, like Gecko) Chrome/120.0.0.0 Safari/537.36"@
}

/// Calls `rand::seq::IndexedRandom::choose` with the thread's generator.
/// Claimed: the result is one of `agents`; which one is left to chance.
#[verifier::external_body]
fn choose_user_agent(agents: &[&'static str]) -> (r: &'static str)
    requires
        agents@.len() > 0,
    ensures
        agents@.contains(r),
{
    agents.choose(&mut rand::rng()).copied().unwrap_or(agents[0])
}

/// One of the known user agents, picked at random.
pub fn get_random_user_agent() -> (r: &'static str)
    ensures
        is_known_user_agent(r@),
{
    let agents: Vec<&'static str> = vec![
        "Mozilla/5.0 (Windows NT 10.0; Win64; x64) AppleWebKit/537.36 (KHTML, like Gecko) Chrome/120.0.0.0 Safari/537.36",
        "Mozilla/5.0 (Macintosh; Intel Mac OS X 10_15_7) AppleWebKit/537.36 (KHTML, like Gecko) Chrome/120.0.0.0 Safari/537.36",
        "Mozilla/5.0 (Windows NT 10.0; Win64; x64; rv:109.0) Gecko/20100101 Firefox/121.0",
        "Mozilla/5.0 (Macintosh; Intel Mac OS X 10_15_7) AppleWebKit/605.1.15 (KHTML, like Gecko) Version/17.2.1 Safari/605.1.15",
        "Mozilla/5.0 (X11; Linux x86_64) AppleWebKit/537.36 (KHTML, like Gecko) Chrome/120.0.0.0 Safari/537.36",
    ];
    let r = choose_user_agent(agents.as_slice());
    assert(is_known_user_agent(r@)) by {
        let i = choose|i: int| 0 <= i < agents@.len() && agents@[i] == r;
        assert(0 <= i < 5);
    }
    r
}

impl Default for RequesterSpecification {
    fn default() -> (r: Self)
        ensures
            is_known_user_agent(r.user_agent@),
            r.headers@ == Map::<Seq<char>, Seq<char>>::empty(),
            r.connect_timeout == 10,
            r.max_timeout == 10,
    {
        RequesterSpecification {
            user_agent: get_random_user_agent().to_owned(),
            headers: HeaderMap::new(),
            connect_timeout: 10,
            max_timeout: 10,
        }
    }
}

/// The headers a request is sent with, given the requester's own and the
/// request's (if any): the request's are put over the requester's.
pub open spec fn sent_headers(own: Map<Seq<char>, Seq<char>>, extra: Option<Map<Seq<char>, Seq<char>>>) -> Map<
    Seq<char>,
    Seq<char>,
> {
    match extra {
        Some(h) => own.union_prefer_right(h),
        None => own,
    }
}

/// The headers a request is sent with: the requester's own, with the
/// request's headers (if any) put over them.
pub fn request_headers(specification: &RequesterSpecification, headers: Option<HeaderMap>) -> (r: HeaderMap)
    ensures
        r@ == sent_headers(specification.headers@, match headers { Some(h) => Some(h@), None => None }),
        r.headers() == match headers {
            Some(h) => put_headers(specification.headers.headers(), h.headers()),
            None => specification.headers.headers(),
        },
{
    match headers {
        Some(h) => specification.headers.overridden_by(&h),
        None => {
            let r = specification.headers.overridden_by(&HeaderMap::new());
            assert(specification.headers@.union_prefer_right(Map::<Seq<char>, Seq<char>>::empty())
                =~= specification.headers@);
            r
        },
    }
}

// ---------------------------------------------------------------------------
// curl
// ---------------------------------------------------------------------------

/// The `-H` arguments that carry the headers: `name: value`, where a value
/// that does not read as text is left empty.
pub open spec fn curl_header_args(h: Seq<(Seq<char>, Seq<char>)>) -> Seq<Seq<char>>
    decreases h.len(),
{
    if h.len() == 0 {
        Seq::empty()
    } else {
        let (k, v) = h.last();
        let shown = if header_value_visible(v) { v } else { Seq::<char>::empty() };
        curl_header_args(h.drop_last()).push("-H"@).push(k + ": "@ + shown)
    }
}

/// The arguments of the `curl` command that fetches `url`.
pub open spec fn curl_args(
    connect_timeout: u64,
    max_timeout: u64,
    user_agent: Seq<char>,
    h: Seq<(Seq<char>, Seq<char>)>,
    url: Seq<char>,
) -> Seq<Seq<char>> {
    seq![
        "--silent"@,
        "--fail"@,
        "--connect-timeout"@,
        decimal(connect_timeout as nat),
        "--max-time"@,
        decimal(max_timeout as nat),
    ] + curl_header_args(h) + seq!["-H"@, "User-Agent: "@ + user_agent, "--output"@, "-"@, url]
}

/// The character sequences of a list of strings.
pub open spec fn texts(v: Seq<String>) -> Seq<Seq<char>> {
    v.map_values(|s: String| s@)
}

fn push_text(v: &mut Vec<String>, s: &str)
    ensures
        texts(final(v)@) == texts(old(v)@).push(s@),
{
    v.push(s.to_owned());
    assert(texts(v@) =~= texts(old(v)@).push(s@));
}

/// The arguments of the `curl` command that fetches `url` with `headers`.
pub fn curl_arguments(specification: &RequesterSpecification, headers: &HeaderMap, url: &str) -> (r: Vec<String>)
    ensures
        texts(r@) == curl_args(
            specification.connect_timeout,
            specification.max_timeout,
            specification.user_agent@,
            headers.headers(),
            url@,
        ),
{
    let mut args: Vec<String> = Vec::new();
    push_text(&mut args, "--silent");
    push_text(&mut args, "--fail");
    push_text(&mut args, "--connect-timeout");
    let connect = decimal_string(specification.connect_timeout);
    push_text(&mut args, connect.as_str());
    push_text(&mut args, "--max-time");
    let max = decimal_string(specification.max_timeout);
    push_text(&mut args, max.as_str());
    let ghost prefix = texts(args@);
    let entries = headers.entries();
    let ghost h = headers.headers();
    let n = entries.len();
    let mut i: usize = 0;
    assert(h.take(0) =~= Seq::<(Seq<char>, Seq<char>)>::empty());
    assert(texts(args@) =~= prefix + curl_header_args(h.take(0)));
    while i < n
        invariant
            h == headers.headers(),
            value_views(key_views(entries@)) == h,
            forall|k: int| 0 <= k < h.len() ==> header_value_ok(#[trigger] h[k].1),
            n == entries@.len(),
            i <= n,
            texts(args@) == prefix + curl_header_args(h.take(i as int)),
        decreases n - i,
    {
        let name = &entries[i].0;
        let value = &entries[i].1;
        assert(h[i as int] == (name@, value@));
        assert(header_value_ok(h[i as int].1));
        let mut line = name.clone();
        line.append(": ");
        if header_value_readable(value.as_str()) {
            line.append(value.as_str());
        }
        push_text(&mut args, "-H");
        let ghost before = texts(args@);
        args.push(line);
        assert(h.take(i + 1).drop_last() =~= h.take(i as int));
        assert(texts(args@) =~= before.push(line@));
        assert(line@ =~= name@ + ": "@ + (if header_value_visible(value@) { value@ } else { Seq::<char>::empty() }));
        assert(texts(args@) =~= prefix + curl_header_args(h.take(i + 1)));
        i = i + 1;
    }
    assert(h.take(n as int) =~= h);
    push_text(&mut args, "-H");
    let agent = concat("User-Agent: ", specification.user_agent.as_str());
    push_text(&mut args, agent.as_str());
    push_text(&mut args, "--output");
    push_text(&mut args, "-");
    push_text(&mut args, url);
    assert(texts(args@) =~= curl_args(
        specification.connect_timeout,
        specification.max_timeout,
        specification.user_agent@,
        h,
        url@,
    ));
    args
}

// ---------------------------------------------------------------------------
// FlareSolverr
// ---------------------------------------------------------------------------

/// A cookie that FlareSolverr hands back.
#[derive(Debug, Clone)]
pub struct FlareSolverrCookie {
    pub name: String,
    pub value: String,
    pub domain: String,
    pub path: String,
}

/// The page FlareSolverr fetched.
#[derive(Debug, Clone)]
pub struct FlareSolverrSolution {
    pub url: String,
    pub status: u16,
    pub headers: StringMap<String>,
    pub response: String,
    pub cookies: Vec<FlareSolverrCookie>,
    pub user_agent: String,
}

/// FlareSolverr's answer to a command.
#[derive(Debug, Clone)]
pub struct FlareSolverrResponse {
    pub status: String,
    pub message: String,
    pub solution: Option<FlareSolverrSolution>,
    pub session: Option<String>,
}

/// A command sent to FlareSolverr.
#[derive(Debug, Clone)]
pub struct FlareSolverrCommand {
    pub cmd: String,
    pub session: Option<String>,
    pub url: Option<String>,
}

impl FlareSolverrCommand {
    /// Fetch `url` (in `session`, where one is given).
    pub fn request_get(session: Option<String>, url: &str) -> (c: Self)
        ensures
            c.cmd@ == "request.get"@,
            c.session == session,
            c.url matches Some(u) && u@ == url@,
    {
        FlareSolverrCommand { cmd: "request.get".to_owned(), session, url: Some(url.to_owned()) }
    }

    /// Open a session.
    pub fn create_session() -> (c: Self)
        ensures
            c.cmd@ == "sessions.create"@,
            c.session is None,
            c.url is None,
    {
        FlareSolverrCommand { cmd: "sessions.create".to_owned(), session: None, url: None }
    }

    /// Close `session`.
    pub fn destroy_session(session: Option<String>) -> (c: Self)
        ensures
            c.cmd@ == "sessions.destroy"@,
            c.session == session,
            c.url is None,
    {
        FlareSolverrCommand { cmd: "sessions.destroy".to_owned(), session, url: None }
    }
}

/// The headers after the cookies `cs` are added in turn: each cookie whose
/// lower-cased name is a valid header name and whose value is a valid header
/// value is filed under that name.
pub open spec fn with_cookies(m: Map<Seq<char>, Seq<char>>, cs: Seq<FlareSolverrCookie>) -> Map<
    Seq<char>,
    Seq<char>,
>
    decreases cs.len(),
{
    if cs.len() == 0 {
        m
    } else {
        let rest = with_cookies(m, cs.drop_last());
        let c = cs.last();
        let name = crate::config::unicode_lowercase(c.name@);
        if header_name_lowercase_ok(name) && header_value_ok(c.value@) {
            rest.insert(ascii_lowercase(name), c.value@)
        } else {
            rest
        }
    }
}

/// Takes over what FlareSolverr solved: its user agent, and its cookies as
/// headers. Where it solved nothing, the settings stay as they are.
pub fn apply_solution(specification: &mut RequesterSpecification, response: FlareSolverrResponse)
    ensures
        final(specification).connect_timeout == old(specification).connect_timeout,
        final(specification).max_timeout == old(specification).max_timeout,
        match response.solution {
            Some(s) => final(specification).user_agent == s.user_agent && final(specification).headers@
                == with_cookies(old(specification).headers@, s.cookies@),
            None => final(specification).user_agent == old(specification).user_agent
                && final(specification).headers@ == old(specification).headers@,
        },
{
    match response.solution {
        Some(solution) => {
            specification.user_agent = solution.user_agent;
            let cookies = solution.cookies;
            let n = cookies.len();
            let mut i: usize = 0;
            assert(cookies@.take(0) =~= Seq::<FlareSolverrCookie>::empty());
            while i < n
                invariant
                    n == cookies@.len(),
                    i <= n,
                    specification.connect_timeout == old(specification).connect_timeout,
                    specification.max_timeout == old(specification).max_timeout,
                    specification.user_agent == response.solution->0.user_agent,
                    cookies == response.solution->0.cookies,
                    specification.headers@ == with_cookies(old(specification).headers@, cookies@.take(i as int)),
                decreases n - i,
            {
                let cookie = &cookies[i];
                let name = crate::config::to_lowercase(cookie.name.as_str());
                assert(cookies@.take(i + 1).drop_last() =~= cookies@.take(i as int));
                if header_name_accepts_lowercase(name.as_str()) && header_value_accepts(cookie.value.as_str()) {
                    proof {
                        crate::headers::lemma_valid_name_is_lower(name@);
                    }
                    specification.headers.insert(name.as_str(), cookie.value.clone());
                }
                i = i + 1;
            }
            assert(cookies@.take(n as int) =~= cookies@);
        },
        None => {},
    }
}

/// The session FlareSolverr opened, or why it opened none.
pub fn session_from_response(response: &FlareSolverrResponse) -> (r: Result<String, RequestError>)
    ensures
        match response.session {
            Some(s) => r matches Ok(t) && t@ == s@,
            None => r matches Err(RequestError::FailedToCreate(m)) && m@ == "No session created: "@
                + response.message@,
        },
{
    match &response.session {
        Some(s) => Ok(s.clone()),
        None => Err(RequestError::FailedToCreate(concat("No session created: ", response.message.as_str()))),
    }
}

/// The body of the page FlareSolverr fetched, or why there is none.
pub fn solution_body(response: &FlareSolverrResponse) -> (r: Result<Vec<u8>, RequestError>)
    ensures
        match response.solution {
            Some(s) => r matches Ok(b) && b@ == vstd::utf8::encode_utf8(s.response@),
            None => r matches Err(RequestError::RequestFailed(m)) && m@
                == "Failed to fetch via FlareSolverr proxy layer"@,
        },
{
    match &response.solution {
        Some(s) => Ok(s.response.as_str().as_bytes_vec()),
        None => Err(RequestError::RequestFailed("Failed to fetch via FlareSolverr proxy layer".to_owned())),
    }
}

} // verus!
