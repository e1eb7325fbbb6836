use fmhy_downloader::analysis::{decode_body, m3u_exchange, CaptureSession, M3UAnalyzer, M3UStep};
use fmhy_downloader::config::PostDownloadSpecification;
use fmhy_downloader::download::{final_status, output_path, strip_segment, DownloadError, DownloadStatus, SegmentAction, SegmentProgress};
use fmhy_downloader::http::{listen_address, RouteError};
use fmhy_downloader::request::RequestError;
use fmhy_downloader::streams::{
    create_stream_from_segments, normalize_stream, normalize_streams, normalize_urls, playlist_segments, try_create_stream_from_segments, ConversionError,
    AudioChannel, DownloadableStream, DownloadableStreamType, Stream, Streams, Subtitle,
};
use fmhy_downloader::tmdb::{
    bridge_search_path, bridge_search_url, tmdb_episode_external_ids_url, tmdb_episode_url, tmdb_movie_external_ids_url,
    tmdb_movie_url, tmdb_search_movies_url, tmdb_search_series_url, tmdb_season_external_ids_url,
    tmdb_season_url, tmdb_series_external_ids_url, tmdb_series_url,
};

#[test]
fn strip_segment_cuts_front_and_back() {
    let post = PostDownloadSpecification { remove_front_bytes: 2, remove_back_bytes: 1 };
    assert_eq!(strip_segment(&vec![1, 2, 3, 4, 5], &post).unwrap(), vec![3, 4]);
    assert_eq!(strip_segment(&vec![1, 2, 3, 4], &PostDownloadSpecification::default()).unwrap(), vec![1, 2, 3, 4]);
    match strip_segment(&vec![1, 2, 3], &post) {
        Err(e) => assert_eq!(
            e.message(),
            "Failed to write bytes to disk due to error: Downloaded amount of bytes is less than the amount specified in postprocessing arguments."
        ),
        Ok(_) => panic!("expected an error"),
    }
    assert!(strip_segment(&vec![], &PostDownloadSpecification::default()).is_err());
}

#[test]
fn final_status_and_download_error_messages() {
    assert!(matches!(final_status(&Ok(())), DownloadStatus::Finished));
    let e = DownloadError::RequestFailed(RequestError::RequestFailed("Status: 404".to_string()));
    match final_status(&Err(e)) {
        DownloadStatus::Failed(m) => assert_eq!(m, "Request error: Request failed with error: Status: 404"),
        other => panic!("unexpected status {:?}", other),
    }
    let e = DownloadError::FailedToOpenOutputFile { file: "/output/a.ts".to_string(), error: "denied".to_string() };
    assert_eq!(e.message(), "Failed to open output file \"/output/a.ts\" with error: denied");
}

#[test]
fn segment_tries_succeed_in_order() {
    let (mut p, mut a) = SegmentProgress::start(3, 2);
    let mut fetched = vec![];
    while let SegmentAction::Download { segment, attempt } = a {
        fetched.push((segment, attempt));
        assert!(matches!(p.status(), DownloadStatus::DownloadingSegments { amount, total: 3 } if amount as usize == segment));
        let succeeded = !(segment == 1 && attempt == 1);
        let (q, b) = p.after_attempt(succeeded);
        p = q;
        a = b;
    }
    assert_eq!(a, SegmentAction::Finished);
    assert_eq!(fetched, vec![(0, 1), (1, 1), (1, 2), (2, 1)]);
}

#[test]
fn segment_gives_up_after_all_tries_fail() {
    let (mut p, mut a) = SegmentProgress::start(2, 3);
    let mut tries = 0;
    while let SegmentAction::Download { .. } = a {
        tries += 1;
        let (q, b) = p.after_attempt(false);
        p = q;
        a = b;
    }
    assert_eq!(a, SegmentAction::GiveUp);
    assert_eq!(tries, 3);
    assert_eq!(p.segment, 0);
}

#[test]
fn no_segments_finish_at_once_and_no_tries_pass_over_each_segment() {
    assert_eq!(SegmentProgress::start(0, 5).1, SegmentAction::Finished);
    let (mut p, mut a) = SegmentProgress::start(3, 0);
    let mut shown = vec![];
    while let SegmentAction::Skip { segment } = a {
        if let DownloadStatus::DownloadingSegments { amount, total } = p.status() {
            shown.push((segment, amount, total));
        }
        let (q, b) = p.after_skip();
        p = q;
        a = b;
    }
    assert_eq!(a, SegmentAction::Finished);
    assert_eq!(shown, vec![(0, 0, 3), (1, 1, 3), (2, 2, 3)]);
}

#[test]
fn search_stream_rate_limit_host() {
    let s = Stream { quality: "1080p".to_string(), video_segments: vec!["https://cdn.example/a.ts".to_string()], audio_channels: vec![] };
    assert_eq!(s.rate_limit_host(), "https://cdn.example/a.ts");
    let empty = Stream { quality: "".to_string(), video_segments: vec![], audio_channels: vec![] };
    assert_eq!(empty.rate_limit_host(), "https://invalidurl.com");
}

#[test]
fn downloadable_stream_rate_limit_host() {
    let seg = DownloadableStream {
        resolution: "720p".to_string(),
        stream_type: DownloadableStreamType::Segments(vec!["https://cdn.example:8443/a.ts".to_string()]),
    };
    assert_eq!(seg.rate_limit_host(), "cdn.example");
    let empty = DownloadableStream { resolution: "".to_string(), stream_type: DownloadableStreamType::default() };
    assert_eq!(empty.rate_limit_host(), "invalidurl.com");
    let mp4 = DownloadableStream { resolution: "".to_string(), stream_type: DownloadableStreamType::Mp4("data:text/plain,x".to_string()) };
    assert_eq!(mp4.rate_limit_host(), "invalidurl.com");
}

#[test]
fn segments_resolve_against_the_playlist_directory() {
    let segments = vec!["seg0.ts".to_string(), "../other/seg1.ts".to_string(), "https://abs.example/seg2.ts".to_string()];
    let stream = create_stream_from_segments(segments, "https://cdn.example/video/720/index.m3u8", "720p").unwrap();
    assert_eq!(stream.resolution, "720p");
    match stream.stream_type {
        DownloadableStreamType::Segments(urls) => assert_eq!(
            urls,
            vec!["https://cdn.example/video/720/seg0.ts", "https://cdn.example/video/other/seg1.ts", "https://abs.example/seg2.ts"]
        ),
        other => panic!("unexpected {:?}", other),
    }
}

#[test]
fn unresolvable_segments_give_no_stream() {
    assert!(try_create_stream_from_segments(vec!["a.ts".to_string()], "not a url", "x").is_none());
    assert!(try_create_stream_from_segments(vec!["a.ts".to_string()], "https://cdn.example/i.m3u8", "x").is_some());
}

#[test]
fn playlist_segments_need_an_index_playlist() {
    assert_eq!(playlist_segments("#EXTM3U\n#EXTINF:1,\na.ts").unwrap(), vec!["a.ts".to_string()]);
    match playlist_segments("#EXTM3U\n#EXT-X-STREAM-INF:BANDWIDTH=1\nhttps://x.example/a.m3u8") {
        Err(e) => assert_eq!(e.message(), "Failed to parse downloaded stream result, due to: Expected the M3U result to be an index.m3u(8)."),
        Ok(_) => panic!("expected an error"),
    }
    match playlist_segments("nothing") {
        Err(e) => assert_eq!(e.message(), "Failed to parse downloaded stream result, due to: Missing or invalid #EXTM3U header"),
        Ok(_) => panic!("expected an error"),
    }
    let e = ConversionError::UnableToRetrieveStream("https://x.example/i.m3u8".to_string(), RequestError::RequestFailed("x".to_string()));
    assert_eq!(e.message(), "Unable to download stream file from \"https://x.example/i.m3u8\".");
}

#[test]
fn m3u_exchanges_are_recognised() {
    assert!(m3u_exchange("GET", "https://x.example/index.m3u8", None));
    assert!(m3u_exchange("GET", "https://x.example/list.m3u", Some("text/plain")));
    assert!(!m3u_exchange("POST", "https://x.example/index.m3u8", None));
    assert!(m3u_exchange("POST", "https://x.example/api", Some("application/vnd.apple.mpegurl")));
    assert!(m3u_exchange("GET", "https://x.example/api", Some("audio/x-mpegurl")));
    assert!(!m3u_exchange("GET", "https://x.example/index.m3u8?x=1", Some("text/html")));
    assert!(!m3u_exchange("GET", "https://x.example/a.ts", None));
}

#[test]
fn bodies_are_decoded_where_base64_and_utf8() {
    assert_eq!(decode_body("aGVsbG8=".to_string(), true), "hello");
    assert_eq!(decode_body("aGVsbG8=".to_string(), false), "aGVsbG8=");
    assert_eq!(decode_body("not base64!".to_string(), true), "not base64!");
    assert_eq!(decode_body("/w==".to_string(), true), "/w==");
}

#[test]
fn capture_session_tracks_pending_requests_and_analyzers() {
    let mut session: CaptureSession<&str> = CaptureSession::new(2);
    session.on_request("1".to_string(), "first");
    session.on_request("2".to_string(), "second");
    session.on_request("1".to_string(), "first again");
    assert_eq!(session.on_response("1"), Some("first again"));
    assert_eq!(session.on_response("1"), None);
    assert_eq!(session.on_response("3"), None);
    assert!(!session.retire(&vec![true, false]));
    assert_eq!(session.active, vec![1]);
    assert!(session.retire(&vec![true]));
    assert_eq!(session.unanswered(), vec![("2".to_string(), "second")]);
    assert_eq!(session.unanswered(), vec![]);
}

#[test]
fn m3u_analyzer_records_in_order() {
    let mut a = M3UAnalyzer::new();
    a.record("https://x/1.m3u8".to_string(), "#EXTM3U".to_string());
    a.record("https://x/2.m3u8".to_string(), "#EXTM3U\n".to_string());
    assert_eq!(a.requests.len(), 2);
    assert_eq!(a.requests[1].url, "https://x/2.m3u8");
}

#[test]
fn tmdb_addresses() {
    let base = "https://tmdb-proxy-chi-ivory.vercel.app";
    assert_eq!(tmdb_movie_url(550), format!("{}/movie/550", base));
    assert_eq!(tmdb_movie_external_ids_url(550), format!("{}/movie/550/external_ids", base));
    assert_eq!(tmdb_series_url(0), format!("{}/tv/0", base));
    assert_eq!(tmdb_series_external_ids_url(1399), format!("{}/tv/1399/external_ids", base));
    assert_eq!(tmdb_season_url(1399, 1), format!("{}/tv/1399/season/1", base));
    assert_eq!(tmdb_season_external_ids_url(1399, 1), format!("{}/tv/1399/season/1/external_ids", base));
    assert_eq!(tmdb_episode_url(1399, 1, 10), format!("{}/tv/1399/season/1/episode/10", base));
    assert_eq!(tmdb_episode_external_ids_url(1399, 1, 10), format!("{}/tv/1399/season/1/episode/10/external_ids", base));
    assert_eq!(tmdb_search_movies_url("query=x&page=1"), format!("{}/search/movie?query=x&page=1", base));
    assert_eq!(tmdb_search_series_url("query=x"), format!("{}/search/tv?query=x", base));
    assert_eq!(bridge_search_path("site", false), "/api/site/movie");
    assert_eq!(bridge_search_path("site", true), "/api/site/series");
}

#[test]
fn http_listen_address_and_route_error() {
    assert_eq!(listen_address(8080), "0.0.0.0:8080");
    assert_eq!(
        RouteError::FailedToBind { port: 80, error: "in use".to_string() }.message(),
        "Failed to bind to port 80 with error: in use."
    );
}

#[test]
fn m3u_analyzer_records_playlists_and_asks_for_missing_bodies() {
    let mut analyzer = M3UAnalyzer::new();
    let page = analyzer.inspect("GET", "https://x.example/page.html", Some("text/html"), Some("<html>".to_string()));
    assert!(matches!(page, M3UStep::Ignore));
    match analyzer.inspect("GET", "HTTPS://X.Example/a/../index.m3u8", None, None) {
        M3UStep::FetchBody { url } => assert_eq!(url, "https://x.example/index.m3u8"),
        other => panic!("unexpected {:?}", other),
    }
    match analyzer.inspect("GET", "https://x.example/index.m3u8", None, Some(String::new())) {
        M3UStep::FetchBody { url } => assert_eq!(url, "https://x.example/index.m3u8"),
        other => panic!("unexpected {:?}", other),
    }
    assert!(matches!(analyzer.inspect("GET", "relative/index.m3u8", None, Some("#EXTM3U".to_string())), M3UStep::InvalidUrl));
    assert!(analyzer.requests.is_empty());
    let recorded = analyzer.inspect("POST", "https://X.example", Some("audio/mpegurl"), Some("#EXTM3U".to_string()));
    assert!(matches!(recorded, M3UStep::Recorded));
    assert_eq!(analyzer.requests.len(), 1);
    assert_eq!(analyzer.requests[0].url, "https://x.example/");
    assert_eq!(analyzer.requests[0].contents, "#EXTM3U");
}

#[test]
fn output_files_stay_in_the_output_directory() {
    assert_eq!(output_path("movie.ts"), Some("/output/movie.ts".to_string()));
    assert_eq!(output_path("shows/s01/e01.ts"), Some("/output/shows/s01/e01.ts".to_string()));
    assert_eq!(output_path("a..b/..c.ts"), Some("/output/a..b/..c.ts".to_string()));
    assert_eq!(output_path(""), Some("/output/".to_string()));
    assert_eq!(output_path("/etc/passwd"), None);
    assert_eq!(output_path("../escape.ts"), None);
    assert_eq!(output_path("shows/../../escape.ts"), None);
    assert_eq!(output_path("shows/.."), None);
}

#[test]
fn bridge_search_address_joins_path_and_sets_query() {
    assert_eq!(
        bridge_search_url("http://fmhy_bridge:3000/", "site", false, "name=Alien&tmdbId=348"),
        Some("http://fmhy_bridge:3000/api/site/movie?name=Alien&tmdbId=348".to_string())
    );
    assert_eq!(
        bridge_search_url("http://Bridge:3000/base/?old=1#frag", "site", true, "season=1"),
        Some("http://bridge:3000/api/site/series?season=1".to_string())
    );
    assert_eq!(bridge_search_url("not a url", "site", true, "season=1"), None);
}

#[test]
fn retired_analyzers_stay_retired() {
    let mut session: CaptureSession<u8> = CaptureSession::new(3);
    assert!(!session.retire(&vec![false, true, false]));
    assert_eq!(session.active, vec![0, 2]);
    assert!(!session.retire(&vec![false, false]));
    assert_eq!(session.active, vec![0, 2]);
    assert!(!session.retire(&vec![true, false]));
    assert_eq!(session.active, vec![2]);
}

#[test]
fn mixed_outcomes_append_segments_in_order() {
    let outcomes = [false, true, true, false, false];
    let (mut p, mut a) = SegmentProgress::start(3, 3);
    let mut statuses = vec![];
    let mut appended = vec![];
    let mut k = 0;
    while let SegmentAction::Download { segment, .. } = a {
        if k == outcomes.len() {
            break;
        }
        if let DownloadStatus::DownloadingSegments { amount, total } = p.status() {
            statuses.push((amount, total));
        }
        let ok = outcomes[k];
        k += 1;
        if ok {
            appended.push(segment);
        }
        let (q, b) = p.after_attempt(ok);
        p = q;
        a = b;
    }
    assert_eq!(statuses, vec![(0, 3), (0, 3), (1, 3), (2, 3), (2, 3)]);
    assert_eq!(k, 5);
    assert_eq!(appended, vec![0, 1]);
    assert!(matches!(a, SegmentAction::Download { segment: 2, attempt: 3 }));
}

#[test]
fn stream_addresses_are_parsed_like_urls() {
    assert_eq!(
        normalize_urls(&vec!["HTTPS://CDN.example/a/../b.ts".to_string()]),
        Some(vec!["https://cdn.example/b.ts".to_string()])
    );
    assert_eq!(normalize_urls(&vec!["https://ok.example/".to_string(), "seg.ts".to_string()]), None);
    let stream = Stream {
        quality: "1080p".to_string(),
        video_segments: vec!["https://V.example".to_string()],
        audio_channels: vec![AudioChannel { lang: "en".to_string(), segments: vec!["https://A.example/x".to_string()] }],
    };
    let parsed = normalize_stream(&stream).expect("all addresses parse");
    assert_eq!(parsed.quality, "1080p");
    assert_eq!(parsed.video_segments, vec!["https://v.example/".to_string()]);
    assert_eq!(parsed.audio_channels[0].lang, "en");
    assert_eq!(parsed.audio_channels[0].segments, vec!["https://a.example/x".to_string()]);
    let bad = Stream {
        quality: "720p".to_string(),
        video_segments: vec![],
        audio_channels: vec![AudioChannel { lang: "de".to_string(), segments: vec!["nope".to_string()] }],
    };
    assert!(normalize_stream(&bad).is_none());
    let all = Streams { streams: vec![stream], subtitles: vec![Subtitle { lang: "en".to_string(), url: "HTTP://S.example/en.vtt".to_string() }] };
    let parsed = normalize_streams(&all).expect("all addresses parse");
    assert_eq!(parsed.subtitles[0].url, "http://s.example/en.vtt");
    let bad_subtitle = Streams { streams: vec![], subtitles: vec![Subtitle { lang: "en".to_string(), url: "x".to_string() }] };
    assert!(normalize_streams(&bad_subtitle).is_none());
}
