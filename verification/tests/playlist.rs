use fmhy_downloader::m3u::{parse_m3u_contents, M3UResult, ParseError, DEFAULT_HEIGHT, DEFAULT_WIDTH};

fn index_segments(text: &str) -> Vec<String> {
    match parse_m3u_contents(text) {
        Ok(M3UResult::Index(segments)) => segments,
        other => panic!("expected an index playlist, got {:?}", other),
    }
}

#[test]
fn index_playlist_lists_segment_lines_in_order() {
    let text = "#EXTM3U\n#EXT-X-TARGETDURATION:10\n#EXTINF:10.0,\nseg0.ts\n#EXTINF:10.0,\nhttps://cdn.example.com/seg1.ts\n#EXT-X-ENDLIST\n";
    assert_eq!(index_segments(text), vec!["seg0.ts".to_string(), "https://cdn.example.com/seg1.ts".to_string()]);
}

#[test]
fn index_playlist_trims_lines_and_handles_crlf() {
    let text = "  #EXTM3U\r\n#EXTINF:4,\r\n   a.ts   \r\n#EXTINF:4,\r\nb.ts\r\n\r\n";
    assert_eq!(index_segments(text), vec!["a.ts".to_string(), "b.ts".to_string()]);
}

#[test]
fn index_playlist_keeps_empty_lines_between_segments() {
    let text = "#EXTM3U\n#EXTINF:4,\na.ts\n\n#EXTINF:4,\nb.ts";
    assert_eq!(index_segments(text), vec!["a.ts".to_string(), "".to_string(), "b.ts".to_string()]);
}

#[test]
fn missing_header_is_refused() {
    assert_eq!(parse_m3u_contents("#EXTINF:4,\na.ts").unwrap_err(), ParseError::InvalidHeader);
    assert_eq!(parse_m3u_contents("").unwrap_err(), ParseError::InvalidHeader);
    assert_eq!(parse_m3u_contents("   \n ").unwrap_err(), ParseError::InvalidHeader);
}

#[test]
fn playlist_without_known_tags_is_unknown() {
    assert_eq!(parse_m3u_contents("#EXTM3U\nsomething.ts").unwrap_err(), ParseError::UnknownFormat);
}

#[test]
fn master_playlist_maps_resolutions_to_urls() {
    let text = "#EXTM3U\n#EXT-X-STREAM-INF:BANDWIDTH=800000,RESOLUTION=640x360\nhttps://example.com/360/index.m3u8\n#EXT-X-STREAM-INF:BANDWIDTH=2800000,RESOLUTION=1920x1080,CODECS=\"avc1\"\nhttps://example.com/1080/index.m3u8\n";
    match parse_m3u_contents(text).unwrap() {
        M3UResult::Master(m) => {
            assert_eq!(m.len(), 2);
            assert_eq!(m.get((640, 360)), Some("https://example.com/360/index.m3u8".to_string()));
            assert_eq!(m.get((1920, 1080)), Some("https://example.com/1080/index.m3u8".to_string()));
            assert_eq!(m.get((1280, 720)), None);
        },
        other => panic!("expected a master playlist, got {:?}", other),
    }
}

#[test]
fn master_stream_without_resolution_gets_the_default() {
    let text = "#EXTM3U\n#EXT-X-STREAM-INF:BANDWIDTH=800000\nhttps://example.com/a.m3u8\n";
    match parse_m3u_contents(text).unwrap() {
        M3UResult::Master(m) => {
            assert_eq!((DEFAULT_WIDTH, DEFAULT_HEIGHT), (1080, 720));
            assert_eq!(m.get((1080, 720)), Some("https://example.com/a.m3u8".to_string()));
        },
        other => panic!("expected a master playlist, got {:?}", other),
    }
}

#[test]
fn resolution_right_after_the_tag_is_not_seen() {
    let text = "#EXTM3U\n#EXT-X-STREAM-INF:RESOLUTION=640x360\nhttps://example.com/a.m3u8\n";
    match parse_m3u_contents(text).unwrap() {
        M3UResult::Master(m) => {
            assert_eq!(m.get((1080, 720)), Some("https://example.com/a.m3u8".to_string()));
            assert_eq!(m.get((640, 360)), None);
        },
        other => panic!("expected a master playlist, got {:?}", other),
    }
}

#[test]
fn later_stream_of_same_resolution_replaces_earlier() {
    let text = "#EXTM3U\n#EXT-X-STREAM-INF:BANDWIDTH=1,RESOLUTION=640x360\nhttps://a.example.com/x.m3u8\n#EXT-X-STREAM-INF:BANDWIDTH=2,RESOLUTION=640x360\nhttps://b.example.com/y.m3u8\n";
    match parse_m3u_contents(text).unwrap() {
        M3UResult::Master(m) => {
            assert_eq!(m.len(), 1);
            assert_eq!(m.get((640, 360)), Some("https://b.example.com/y.m3u8".to_string()));
        },
        other => panic!("expected a master playlist, got {:?}", other),
    }
}

#[test]
fn master_stream_with_relative_url_is_skipped() {
    let text = "#EXTM3U\n#EXT-X-STREAM-INF:BANDWIDTH=1,RESOLUTION=640x360\nlow/index.m3u8\n#EXT-X-STREAM-INF:BANDWIDTH=2,RESOLUTION=1280x720\nhttps://example.com/hi.m3u8\n";
    match parse_m3u_contents(text).unwrap() {
        M3UResult::Master(m) => {
            assert_eq!(m.len(), 1);
            assert_eq!(m.get((640, 360)), None);
            assert_eq!(m.get((1280, 720)), Some("https://example.com/hi.m3u8".to_string()));
        },
        other => panic!("expected a master playlist, got {:?}", other),
    }
}

#[test]
fn bad_resolution_is_refused() {
    let text = "#EXTM3U\n#EXT-X-STREAM-INF:BANDWIDTH=1,RESOLUTION=wide\nhttps://example.com/a.m3u8\n";
    assert_eq!(parse_m3u_contents(text).unwrap_err(), ParseError::FailedToParseResolution);
    let text = "#EXTM3U\n#EXT-X-STREAM-INF:BANDWIDTH=1,RESOLUTION=640x\nhttps://example.com/a.m3u8\n";
    assert_eq!(parse_m3u_contents(text).unwrap_err(), ParseError::FailedToParseResolution);
    let text = "#EXTM3U\n#EXT-X-STREAM-INF:BANDWIDTH=1,RESOLUTION=99999999999x360\nhttps://example.com/a.m3u8\n";
    assert_eq!(parse_m3u_contents(text).unwrap_err(), ParseError::FailedToParseResolution);
}

#[test]
fn resolution_with_plus_sign_is_read() {
    let text = "#EXTM3U\n#EXT-X-STREAM-INF:BANDWIDTH=1,RESOLUTION=+640x360x9\nhttps://example.com/a.m3u8\n";
    match parse_m3u_contents(text).unwrap() {
        M3UResult::Master(m) => assert_eq!(m.get((640, 360)), Some("https://example.com/a.m3u8".to_string())),
        other => panic!("expected a master playlist, got {:?}", other),
    }
}

#[test]
fn stream_tag_without_url_is_refused() {
    let text = "#EXTM3U\n#EXT-X-STREAM-INF:BANDWIDTH=1,RESOLUTION=640x360\n\n   \n";
    assert_eq!(parse_m3u_contents(text).unwrap_err(), ParseError::MissingStreamUrl);
}

#[test]
fn surrounding_whitespace_does_not_change_the_result() {
    let inner = "#EXTM3U\n#EXTINF:4,\na.ts";
    let padded = format!(" \t\n{}\n\n  ", inner);
    assert_eq!(index_segments(inner), index_segments(&padded));
}

#[test]
fn parse_error_messages() {
    assert_eq!(ParseError::InvalidHeader.message(), "Missing or invalid #EXTM3U header");
    assert_eq!(ParseError::UnknownFormat.message(), "The M3U file is empty or type could not be determined");
    assert_eq!(ParseError::InvalidResolutionAttribute.message(), "Invalid RESOLUTION attribute.");
    assert_eq!(ParseError::FailedToParseResolution.message(), "Failed to parse RESOLUTION to u32.");
    assert_eq!(ParseError::MissingStreamUrl.message(), "Stream URL missing after stream info tag");
}
