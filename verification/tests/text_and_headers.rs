use fmhy_downloader::headers::HeaderMap;
use fmhy_downloader::keyed::StringMap;
use fmhy_downloader::text::{
    ascii_lowercase_exec, chars_of, contains_exec, decimal_string, parse_u32_exec, replace_all_exec,
    split_chars, starts_with_exec, string_of, trim_chars, trimmed_lines_exec,
};

fn s(v: &Vec<char>) -> String {
    string_of(v)
}

#[test]
fn trim_removes_unicode_whitespace() {
    let t = trim_chars(&chars_of("\u{3000} \t abc d\u{a0}\n"));
    assert_eq!(s(&t), "abc d");
    assert_eq!(s(&trim_chars(&chars_of("   "))), "");
}

#[test]
fn split_keeps_empty_pieces() {
    let pieces: Vec<String> = split_chars(&chars_of("a,,b,"), ',').iter().map(|p| s(p)).collect();
    assert_eq!(pieces, vec!["a", "", "b", ""]);
    let pieces: Vec<String> = split_chars(&chars_of(""), ',').iter().map(|p| s(p)).collect();
    assert_eq!(pieces, vec![""]);
}

#[test]
fn lines_follow_str_lines() {
    for text in ["a\nb\r\nc", "a\n", "", "\n\n", "x\r", " a \n\tb\t\r\n"] {
        let mine: Vec<String> = trimmed_lines_exec(&chars_of(text)).iter().map(|l| s(l)).collect();
        let std: Vec<String> = text.lines().map(|l| l.trim().to_string()).collect();
        assert_eq!(mine, std, "for {:?}", text);
    }
}

#[test]
fn parse_u32_follows_str_parse() {
    for text in ["0", "42", "+7", "0007", "4294967295", "4294967296", "", "+", "-1", "1 ", "12a", "99999999999999999999"] {
        assert_eq!(parse_u32_exec(&chars_of(text)), text.parse::<u32>().ok(), "for {:?}", text);
    }
}

#[test]
fn decimal_follows_to_string() {
    for n in [0u64, 7, 10, 99, 100, 1234567890, u64::MAX] {
        assert_eq!(decimal_string(n), n.to_string());
    }
}

#[test]
fn replace_follows_str_replace() {
    let cases = [("a{x}b{x}", "{x}", "Q"), ("{x{x}}", "{x}", ""), ("aaaa", "aa", "b"), ("none", "{x}", "y")];
    for (text, pat, rep) in cases {
        let r = replace_all_exec(&chars_of(text), &chars_of(pat), &chars_of(rep));
        assert_eq!(s(&r), text.replace(pat, rep));
    }
}

#[test]
fn starts_with_and_contains() {
    assert!(starts_with_exec(&chars_of("#EXTM3U\nx"), &chars_of("#EXTM3U")));
    assert!(!starts_with_exec(&chars_of("#EXT"), &chars_of("#EXTM3U")));
    assert!(contains_exec(&chars_of("ab#EXTINF:1"), &chars_of("#EXTINF")));
    assert!(!contains_exec(&chars_of("ab#EXTIN"), &chars_of("#EXTINF")));
    assert!(contains_exec(&chars_of("abc"), &chars_of("")));
}

#[test]
fn ascii_lowercase_only_touches_ascii() {
    assert_eq!(ascii_lowercase_exec("Content-TYPE Ä"), "content-type Ä");
}

#[test]
fn header_names_ignore_ascii_case() {
    let mut h = HeaderMap::new();
    h.insert("Referer", "https://a.example".to_string());
    h.insert("REFERER", "https://b.example".to_string());
    h.insert("Accept", "*/*".to_string());
    assert_eq!(h.len(), 2);
    assert_eq!(h.get("referer"), Some("https://b.example".to_string()));
    assert_eq!(h.get("rEfErEr"), Some("https://b.example".to_string()));
    let names: Vec<String> = h.entries().iter().map(|(k, _)| k.clone()).collect();
    assert_eq!(names, vec!["referer", "accept"]);
}

#[test]
fn overriding_headers_wins_per_name() {
    let mut own = HeaderMap::new();
    own.insert("User-Agent", "mine".to_string());
    own.insert("Accept", "*/*".to_string());
    let mut extra = HeaderMap::new();
    extra.insert("accept", "text/html".to_string());
    extra.insert("Range", "bytes=0-".to_string());
    let merged = own.overridden_by(&extra);
    assert_eq!(merged.get("user-agent"), Some("mine".to_string()));
    assert_eq!(merged.get("accept"), Some("text/html".to_string()));
    assert_eq!(merged.get("range"), Some("bytes=0-".to_string()));
    assert_eq!(merged.len(), 3);
    let same = own.overridden_by(&HeaderMap::new());
    assert_eq!(same.entries(), own.entries());
}

#[test]
fn string_map_insert_get_remove() {
    let mut m: StringMap<u32> = StringMap::new();
    m.insert("a".to_string(), 1);
    m.insert("b".to_string(), 2);
    m.insert("a".to_string(), 3);
    assert_eq!(m.len(), 2);
    assert_eq!(m.get("a"), Some(&3));
    assert_eq!(m.remove("a"), Some(3));
    assert_eq!(m.remove("a"), None);
    assert_eq!(m.get("b"), Some(&2));
    assert_eq!(m.drain(), vec![("b".to_string(), 2)]);
    assert_eq!(m.len(), 0);
}

#[test]
fn header_values_are_checked_before_insertion() {
    let mut headers = HeaderMap::new();
    assert!(headers.try_insert("X-Token", "abc".to_string()));
    assert!(!headers.try_insert("X-Bad", "a\nb".to_string()));
    assert!(!headers.try_insert("Bad Name", "fine".to_string()));
    assert!(!headers.try_insert("", "fine".to_string()));
    assert_eq!(headers.len(), 1);
    assert_eq!(headers.get("x-token"), Some("abc".to_string()));
    assert_eq!(headers.get("x-bad"), None);
    assert_eq!(headers.get("bad name"), None);
}
