use fmhy_downloader::settings::{
    bridge_url_setting, log_level_setting, optional_url_setting, port_setting, LogLevel,
};
use fmhy_downloader::config::{
    checked_indexer_path, classify_listing_entry, indexer_name_to_path, ListingEntry, DownloadMethod, DownloadSpecification, IndexDownloadSpecification, Indexer,
    PostDownloadSpecification, PreDownloadSpecifiation, State, StateBody, WriteIndexerError,
};
use fmhy_downloader::headers::HeaderMap;
use fmhy_downloader::keyed::StringMap;
use fmhy_downloader::request::{
    apply_solution, curl_arguments, get_random_user_agent, request_headers, session_from_response,
    solution_body, FlareSolverrCommand, FlareSolverrCookie, FlareSolverrResponse, FlareSolverrSolution,
    text_from_bytes, RequestError, RequesterSpecification,
};

const AGENTS: [&str; 5] = [
    "Mozilla/5.0 (Windows NT 10.0; Win64; x64) AppleWebKit/537.36 (KHTML, like Gecko) Chrome/120.0.0.0 Safari/537.36",
    "Mozilla/5.0 (Macintosh; Intel Mac OS X 10_15_7) AppleWebKit/537.36 (KHTML, like Gecko) Chrome/120.0.0.0 Safari/537.36",
    "Mozilla/5.0 (Windows NT 10.0; Win64; x64; rv:109.0) Gecko/20100101 Firefox/121.0",
    "Mozilla/5.0 (Macintosh; Intel Mac OS X 10_15_7) AppleWebKit/605.1.15 (KHTML, like Gecko) Version/17.2.1 Safari/605.1.15",
    "Mozilla/5.0 (X11; Linux x86_64) AppleWebKit/537.36 (KHTML, like Gecko) Chrome/120.0.0.0 Safari/537.36",
];

fn indexer(name: &str) -> Indexer {
    Indexer {
        name: name.to_string(),
        server: "https://server.example".to_string(),
        uses_cloudflare: false,
        download: DownloadSpecification {
            method: DownloadMethod::IndexInterception(IndexDownloadSpecification { wait_time: 1, retries: 2 }),
            segment_pre_download: PreDownloadSpecifiation::default(),
            segment_post_download: PostDownloadSpecification::default(),
        },
        based_on: "site".to_string(),
    }
}

#[test]
fn indexer_file_is_named_by_lowercased_name() {
    assert_eq!(indexer_name_to_path("MyIndexer"), "/config/indexers/myindexer.json");
    assert_eq!(indexer_name_to_path("ÄBC"), "/config/indexers/äbc.json");
    assert_eq!(indexer_name_to_path("MYINDEXER"), indexer_name_to_path("myindexer"));
}

#[test]
fn defaults_of_download_specifications() {
    let pre = PreDownloadSpecifiation::default();
    assert_eq!((pre.segment_timeout, pre.segment_attempts, pre.headers.len()), (5, 5, 0));
    let post = PostDownloadSpecification::default();
    assert_eq!((post.remove_front_bytes, post.remove_back_bytes), (0, 0));
}

#[test]
fn resolve_variables_fills_placeholders() {
    let mut pre = PreDownloadSpecifiation::default();
    pre.headers.insert("Referer", "{base_url}".to_string());
    pre.headers.insert("Origin", "{stream_url}|{base_url}".to_string());
    pre.headers.insert("Accept", "*/*".to_string());
    pre.headers.insert("X-Unicode", "ä {base_url}".to_string());
    pre.resolve_variables("https://site.example/", "https://cdn.example/v/index.m3u8");
    assert_eq!(pre.headers.get("referer"), Some("https://site.example/".to_string()));
    assert_eq!(pre.headers.get("origin"), Some("https://cdn.example/v/index.m3u8|https://site.example/".to_string()));
    assert_eq!(pre.headers.get("accept"), Some("*/*".to_string()));
    assert_eq!(pre.headers.get("x-unicode"), Some("ä {base_url}".to_string()));
    assert_eq!((pre.segment_timeout, pre.segment_attempts), (5, 5));
}

#[test]
fn resolve_variables_keeps_value_that_would_become_invalid() {
    let mut pre = PreDownloadSpecifiation::default();
    pre.headers.insert("Referer", "{base_url}".to_string());
    pre.resolve_variables("bad\u{7f}url", "s");
    assert_eq!(pre.headers.get("referer"), Some("{base_url}".to_string()));
}

#[test]
fn state_lookup_and_body() {
    let state = State { indexers: vec![indexer("one"), indexer("two"), indexer("two")] };
    assert_eq!(state.get_indexer_by_name("two").map(|i| i.name.clone()), Some("two".to_string()));
    assert!(state.get_indexer_by_name("Two").is_none());
    assert_eq!(StateBody::from(&state).todo, 0);
}

#[test]
fn write_indexer_error_messages() {
    assert_eq!(WriteIndexerError::FailedToOpenFile("/x".to_string(), "e".to_string()).message(), "Failed to open file \"/x\".");
    assert_eq!(WriteIndexerError::UnableToConvertToJson.message(), "Unable to convert indexer to json.");
    assert_eq!(WriteIndexerError::FailedToWrite("/x".to_string(), "denied".to_string()).message(), "Unable to read \"/x\" with error: denied");
}

#[test]
fn random_user_agent_is_a_known_one() {
    for _ in 0..20 {
        assert!(AGENTS.contains(&get_random_user_agent()));
    }
    let spec = RequesterSpecification::default();
    assert!(AGENTS.contains(&spec.user_agent.as_str()));
    assert_eq!((spec.connect_timeout, spec.max_timeout, spec.headers.len()), (10, 10, 0));
}

#[test]
fn request_headers_put_request_headers_over_own() {
    let mut spec = RequesterSpecification::default();
    spec.headers.insert("Cookie", "a=1".to_string());
    let mut extra = HeaderMap::new();
    extra.insert("cookie", "a=2".to_string());
    assert_eq!(request_headers(&spec, Some(extra)).get("cookie"), Some("a=2".to_string()));
    assert_eq!(request_headers(&spec, None).get("cookie"), Some("a=1".to_string()));
}

#[test]
fn curl_arguments_are_exact() {
    let spec = RequesterSpecification {
        user_agent: "agent/1".to_string(),
        headers: HeaderMap::new(),
        connect_timeout: 3,
        max_timeout: 12,
    };
    let mut headers = HeaderMap::new();
    headers.insert("Referer", "https://r.example/".to_string());
    headers.insert("X-Bin", "caf\u{e9}".to_string());
    let args = curl_arguments(&spec, &headers, "https://cdn.example/seg.ts");
    assert_eq!(
        args,
        vec![
            "--silent", "--fail", "--connect-timeout", "3", "--max-time", "12", "-H",
            "referer: https://r.example/", "-H", "x-bin: ", "-H", "User-Agent: agent/1", "--output", "-",
            "https://cdn.example/seg.ts",
        ]
    );
}

fn cookie(name: &str, value: &str) -> FlareSolverrCookie {
    FlareSolverrCookie { name: name.to_string(), value: value.to_string(), domain: "d".to_string(), path: "/".to_string() }
}

#[test]
fn flaresolverr_solution_sets_agent_and_cookie_headers() {
    let mut spec = RequesterSpecification::default();
    let response = FlareSolverrResponse {
        status: "ok".to_string(),
        message: "".to_string(),
        solution: Some(FlareSolverrSolution {
            url: "https://site.example".to_string(),
            status: 200,
            headers: StringMap::new(),
            response: "<html>".to_string(),
            cookies: vec![cookie("CF_Clearance", "abc"), cookie("bad name", "x"), cookie("ok", "bad\nvalue")],
            user_agent: "solver-agent".to_string(),
        }),
        session: None,
    };
    apply_solution(&mut spec, response);
    assert_eq!(spec.user_agent, "solver-agent");
    assert_eq!(spec.headers.get("cf_clearance"), Some("abc".to_string()));
    assert_eq!(spec.headers.len(), 1);
}

#[test]
fn flaresolverr_without_solution_changes_nothing() {
    let mut spec = RequesterSpecification::default();
    let before = spec.user_agent.clone();
    let response = FlareSolverrResponse { status: "error".to_string(), message: "m".to_string(), solution: None, session: None };
    apply_solution(&mut spec, response);
    assert_eq!(spec.user_agent, before);
    assert_eq!(spec.headers.len(), 0);
}

#[test]
fn flaresolverr_sessions_and_bodies() {
    let none = FlareSolverrResponse { status: "error".to_string(), message: "busy".to_string(), solution: None, session: None };
    match session_from_response(&none) {
        Err(e) => assert_eq!(e.message(), "Failed to create requester, error: No session created: busy"),
        Ok(_) => panic!("expected an error"),
    }
    match solution_body(&none) {
        Err(e) => assert_eq!(e.message(), "Request failed with error: Failed to fetch via FlareSolverr proxy layer"),
        Ok(_) => panic!("expected an error"),
    }
    let some = FlareSolverrResponse {
        status: "ok".to_string(),
        message: "".to_string(),
        solution: Some(FlareSolverrSolution {
            url: "u".to_string(),
            status: 200,
            headers: StringMap::new(),
            response: "héllo".to_string(),
            cookies: vec![],
            user_agent: "a".to_string(),
        }),
        session: Some("s-1".to_string()),
    };
    assert_eq!(session_from_response(&some).unwrap(), "s-1");
    assert_eq!(solution_body(&some).unwrap(), "héllo".as_bytes().to_vec());
}

#[test]
fn flaresolverr_commands() {
    let c = FlareSolverrCommand::request_get(Some("s".to_string()), "https://x.example/");
    assert_eq!((c.cmd.as_str(), c.session.as_deref(), c.url.as_deref()), ("request.get", Some("s"), Some("https://x.example/")));
    let c = FlareSolverrCommand::create_session();
    assert_eq!((c.cmd.as_str(), c.session, c.url), ("sessions.create", None, None));
    let c = FlareSolverrCommand::destroy_session(Some("s".to_string()));
    assert_eq!((c.cmd.as_str(), c.session.as_deref(), c.url), ("sessions.destroy", Some("s"), None));
}

#[test]
fn request_error_messages() {
    assert_eq!(RequestError::FailedToCreate("x".to_string()).message(), "Failed to create requester, error: x");
    assert_eq!(RequestError::RequestFailedToSend("x".to_string()).message(), "Failed to send request, error: x");
    assert_eq!(RequestError::RequestFailed("x".to_string()).message(), "Request failed with error: x");
    assert_eq!(RequestError::FailedToReadBytes("x".to_string()).message(), "Failed to read response's bytes with error: x");
    assert_eq!(RequestError::FailedToConvertBytesToString.message(), "Failed to convert response bytes to a string.");
}

#[test]
fn response_text_must_be_utf8() {
    match text_from_bytes("caf\u{e9}".as_bytes().to_vec()) {
        Ok(text) => assert_eq!(text, "caf\u{e9}"),
        Err(_) => panic!("valid UTF-8 was refused"),
    }
    assert!(matches!(text_from_bytes(vec![0x66, 0xff, 0x66]), Err(RequestError::FailedToConvertBytesToString)));
    assert_eq!(
        RequestError::FailedToConvertBytesToString.message(),
        "Failed to convert response bytes to a string."
    );
}

#[test]
fn listing_entries_are_classified() {
    assert!(matches!(classify_listing_entry(None, Some("https://x.example/a.json")), ListingEntry::Skip));
    assert!(matches!(classify_listing_entry(Some("README.md"), Some("https://x.example/README.md")), ListingEntry::Skip));
    match classify_listing_entry(Some("site.json"), None) {
        ListingEntry::MissingDownloadUrl(name) => assert_eq!(name, "site.json"),
        other => panic!("unexpected {:?}", other),
    }
    match classify_listing_entry(Some("site.json"), Some("not a url")) {
        ListingEntry::InvalidDownloadUrl(name, url) => {
            assert_eq!(name, "site.json");
            assert_eq!(url, "not a url");
        }
        other => panic!("unexpected {:?}", other),
    }
    match classify_listing_entry(Some("site.json"), Some("HTTPS://Raw.Example.com/a/../site.json")) {
        ListingEntry::Fetch { name, url } => {
            assert_eq!(name, "site.json");
            assert_eq!(url, "https://raw.example.com/site.json");
        }
        other => panic!("unexpected {:?}", other),
    }
}

#[test]
fn cookie_names_must_be_header_tokens() {
    let mut spec = RequesterSpecification::default();
    let response = FlareSolverrResponse {
        status: "ok".to_string(),
        message: "".to_string(),
        solution: Some(FlareSolverrSolution {
            url: "https://site.example".to_string(),
            status: 200,
            headers: StringMap::new(),
            response: String::new(),
            cookies: vec![
                cookie("", "empty"),
                cookie("Caf\u{c9}", "accent"),
                cookie("a\"b|c~", "marks"),
                cookie("x:y", "colon"),
                cookie("ID_9", "digits"),
            ],
            user_agent: "agent".to_string(),
        }),
        session: None,
    };
    apply_solution(&mut spec, response);
    assert_eq!(spec.headers.len(), 2);
    assert_eq!(spec.headers.get("a\"b|c~"), Some("marks".to_string()));
    assert_eq!(spec.headers.get("id_9"), Some("digits".to_string()));
}

#[test]
fn indexer_files_stay_in_the_indexers_directory() {
    assert_eq!(checked_indexer_path("My Site"), Some("/config/indexers/my site.json".to_string()));
    assert_eq!(checked_indexer_path(".."), Some("/config/indexers/...json".to_string()));
    assert_eq!(checked_indexer_path("../state"), None);
    assert_eq!(checked_indexer_path("a/b"), None);
}

#[test]
fn request_headers_keep_order_and_put_new_names_last() {
    let mut spec = RequesterSpecification::default();
    spec.headers.insert("Accept", "*/*".to_string());
    spec.headers.insert("Referer", "https://a.example/".to_string());
    let mut own = HeaderMap::new();
    own.insert("X-Extra", "1".to_string());
    own.insert("ACCEPT", "text/plain".to_string());
    let sent = request_headers(&spec, Some(own));
    assert_eq!(
        sent.entries().clone(),
        vec![
            ("accept".to_string(), "text/plain".to_string()),
            ("referer".to_string(), "https://a.example/".to_string()),
            ("x-extra".to_string(), "1".to_string()),
        ]
    );
}

#[test]
fn settings_from_the_environment() {
    assert_eq!(log_level_setting(None), LogLevel::Info);
    assert_eq!(log_level_setting(Some("DEBUG")), LogLevel::Trace);
    assert_eq!(log_level_setting(Some("Warning")), LogLevel::Warning);
    assert_eq!(log_level_setting(Some("error")), LogLevel::Error);
    assert_eq!(log_level_setting(Some("loud")), LogLevel::Info);
    assert_eq!(bridge_url_setting(None), Some("http://fmhy_bridge:3000/".to_string()));
    assert_eq!(bridge_url_setting(Some("HTTP://Bridge:3000")), Some("http://bridge:3000/".to_string()));
    assert_eq!(bridge_url_setting(Some("bridge")), None);
    assert_eq!(optional_url_setting(None), Ok(None));
    assert_eq!(optional_url_setting(Some("")), Ok(None));
    assert_eq!(optional_url_setting(Some("http://flaresolverr:8191/v1")), Ok(Some("http://flaresolverr:8191/v1".to_string())));
    assert_eq!(optional_url_setting(Some("nope")), Err(()));
    assert_eq!(port_setting(None), Some(8080));
    assert_eq!(port_setting(Some("+9000")), Some(9000));
    assert_eq!(port_setting(Some("65536")), None);
    assert_eq!(port_setting(Some("80a")), None);
}
