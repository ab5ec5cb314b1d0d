use hexfetch::numeric::{is_multiple_of, next_backoff, parse_decimal, push_decimal};
use hexfetch::history::HexJsonEntry;
use hexfetch::web::{
    etag_matches, fnv1a_hash, get_mime_type, hexjson_etag, hexjson_reply, is_compressible_mime,
    parse_hexjson_query, query_param, HexJsonReply,
};

#[test]
fn mime_type_by_extension() {
    assert_eq!(get_mime_type("index.html"), "text/html; charset=utf-8");
    assert_eq!(get_mime_type("app.js"), "application/javascript");
    assert_eq!(get_mime_type("style.css"), "text/css");
    assert_eq!(get_mime_type("data.json"), "application/json");
    assert_eq!(get_mime_type("logo.png"), "image/png");
    assert_eq!(get_mime_type("photo.jpg"), "image/jpeg");
    assert_eq!(get_mime_type("photo.jpeg"), "image/jpeg");
    assert_eq!(get_mime_type("icon.svg"), "image/svg+xml");
    assert_eq!(get_mime_type("favicon.ico"), "image/x-icon");
    assert_eq!(get_mime_type("font.woff2"), "font/woff2");
    assert_eq!(get_mime_type("pic.webp"), "image/webp");
}

#[test]
fn mime_type_uses_text_after_last_dot() {
    assert_eq!(get_mime_type("archive.tar.js"), "application/javascript");
    assert_eq!(get_mime_type("a.js.map"), "application/octet-stream");
    assert_eq!(get_mime_type("html"), "text/html; charset=utf-8");
    assert_eq!(get_mime_type("file."), "application/octet-stream");
    assert_eq!(get_mime_type(""), "application/octet-stream");
    assert_eq!(get_mime_type("page.HTML"), "application/octet-stream");
}

#[test]
fn compressible_mime_types() {
    assert!(is_compressible_mime("text/html; charset=utf-8"));
    assert!(is_compressible_mime("text/css"));
    assert!(is_compressible_mime("application/javascript"));
    assert!(is_compressible_mime("application/json"));
    assert!(is_compressible_mime("image/svg+xml"));
    assert!(!is_compressible_mime("image/png"));
    assert!(!is_compressible_mime("font/woff2"));
    assert!(!is_compressible_mime("application/octet-stream"));
    assert!(!is_compressible_mime("xtext/plain"));
}

#[test]
fn fnv1a_known_values() {
    assert_eq!(fnv1a_hash(b""), 14695981039346656037);
    assert_eq!(fnv1a_hash(b"a"), 12638187200555641996);
    assert_eq!(fnv1a_hash(b"foobar"), 9625390261332436968);
    assert_eq!(fnv1a_hash(b"hello"), 11831194018420276491);
}

#[test]
fn query_param_finds_values() {
    let uri = "/api/hexjson?from=100&limit=5";
    assert_eq!(query_param(uri, "from"), Some("100"));
    assert_eq!(query_param(uri, "limit"), Some("5"));
    assert_eq!(query_param(uri, "other"), None);
}

#[test]
fn query_param_edge_cases() {
    assert_eq!(query_param("/api/hexjson", "from"), None);
    assert_eq!(query_param("/p?flag&x=1", "flag"), Some(""));
    assert_eq!(query_param("/p?x=1&x=2", "x"), Some("1"));
    assert_eq!(query_param("/p?x=a=b", "x"), Some("a=b"));
    assert_eq!(query_param("/p?x=1?y=2", "y"), None);
    assert_eq!(query_param("/p?x=1?y=2", "x"), Some("1"));
    assert_eq!(query_param("/p?=v", ""), Some("v"));
    assert_eq!(query_param("/p?", "x"), None);
}

#[test]
fn hexjson_query_parses_numbers() {
    assert_eq!(parse_hexjson_query("/api/hexjson?from=100&limit=5"), (Some(100), Some(5)));
    assert_eq!(parse_hexjson_query("/api/hexjson"), (None, None));
    assert_eq!(parse_hexjson_query("/api/hexjson?from=abc&limit=-1"), (None, None));
    assert_eq!(parse_hexjson_query("/api/hexjson?from=+7"), (Some(7), None));
    assert_eq!(
        parse_hexjson_query("/api/hexjson?from=18446744073709551616"),
        (None, None)
    );
}

#[test]
fn parse_decimal_like_std() {
    assert_eq!(parse_decimal("0", u64::MAX), Some(0));
    assert_eq!(parse_decimal("12345", u64::MAX), Some(12345));
    assert_eq!(parse_decimal("+12", u64::MAX), Some(12));
    assert_eq!(parse_decimal("", u64::MAX), None);
    assert_eq!(parse_decimal("+", u64::MAX), None);
    assert_eq!(parse_decimal("-1", u64::MAX), None);
    assert_eq!(parse_decimal("1 ", u64::MAX), None);
    assert_eq!(parse_decimal("18446744073709551615", u64::MAX), Some(u64::MAX));
    assert_eq!(parse_decimal("18446744073709551616", u64::MAX), None);
    assert_eq!(parse_decimal("256", 255), None);
    assert_eq!(parse_decimal("255", 255), Some(255));
    for s in ["0", "7", "1000", "4294967295"] {
        assert_eq!(parse_decimal(s, u64::MAX), s.parse::<u64>().ok());
    }
}

#[test]
fn decimal_roundtrip_values() {
    for v in [0u64, 9, 10, 99, 12345, u64::MAX] {
        let mut s = String::new();
        push_decimal(&mut s, v);
        assert_eq!(s, v.to_string());
        assert_eq!(parse_decimal(&s, u64::MAX), Some(v));
    }
}

#[test]
fn hexjson_etag_full_and_filtered() {
    assert_eq!(hexjson_etag(None, None, 42, 7), "\"hexjson-full-42-7\"");
    assert_eq!(
        hexjson_etag(Some(100), Some(5), 42, 7),
        "\"hexjson-filter-100-5-42-7\""
    );
    assert_eq!(
        hexjson_etag(Some(3), None, 0, 1),
        format!("\"hexjson-filter-3-{}-0-1\"", usize::MAX)
    );
    assert_eq!(hexjson_etag(None, Some(10), 2, 3), "\"hexjson-filter-0-10-2-3\"");
}

#[test]
fn etag_matching_ignores_outer_quotes() {
    let tag = "\"hexjson-full-42-7\"";
    assert!(etag_matches(tag, tag));
    assert!(etag_matches("hexjson-full-42-7", tag));
    assert!(etag_matches("\"\"hexjson-full-42-7", tag));
    assert!(!etag_matches("\"hexjson-full-42-8\"", tag));
    assert!(!etag_matches("W/\"hexjson-full-42-7\"", tag));
}

#[test]
fn multiples_and_backoff() {
    assert!(is_multiple_of(100, 20));
    assert!(!is_multiple_of(101, 20));
    assert!(!is_multiple_of(5, 0));
    assert!(is_multiple_of(0, 7));
    assert_eq!(next_backoff(5, 120), 10);
    assert_eq!(next_backoff(60, 120), 120);
    assert_eq!(next_backoff(120, 120), 120);
    assert_eq!(next_backoff(16, 30), 30);
}

#[test]
fn hexjson_etag_changes_with_the_data() {
    let base = hexjson_etag(None, None, 12, 3);
    assert_ne!(base, hexjson_etag(None, None, 13, 3));
    assert_ne!(base, hexjson_etag(None, None, 12, 4));
    assert_ne!(base, hexjson_etag(None, None, 1, 23));
    assert_ne!(base, hexjson_etag(Some(0), None, 12, 3));
    assert_ne!(
        hexjson_etag(Some(1), Some(23), 4, 5),
        hexjson_etag(Some(12), Some(3), 4, 5)
    );
    assert!(!etag_matches(&base, &hexjson_etag(None, None, 12, 4)));
}

#[test]
fn hexjson_reply_decides_the_answer() {
    let entries: Vec<HexJsonEntry<f64>> = [1u64, 2, 3, 4]
        .iter()
        .map(|d| HexJsonEntry {
            current_day: *d,
            tshare_rate_hex: 0.0,
            daily_payout_hex: 0.0,
            payout_per_tshare_hex: 0.0,
            price_pulse_x: 0.0,
        })
        .collect();
    let (tag, reply) = hexjson_reply(&entries, None, None, 9, None);
    assert_eq!(tag, "\"hexjson-full-4-9\"");
    assert!(matches!(reply, HexJsonReply::Full));
    let (_, reply) = hexjson_reply(&entries, None, None, 9, Some("hexjson-full-4-9"));
    assert!(matches!(reply, HexJsonReply::NotModified));
    let (_, reply) = hexjson_reply(&entries, None, None, 9, Some("\"hexjson-full-4-8\""));
    assert!(matches!(reply, HexJsonReply::Full));
    let (tag, reply) = hexjson_reply(&entries, Some(2), Some(2), 9, None);
    assert_eq!(tag, "\"hexjson-filter-2-2-4-9\"");
    match reply {
        HexJsonReply::Filtered(v) => {
            let days: Vec<u64> = v.iter().map(|e| e.current_day).collect();
            assert_eq!(days, vec![2, 3]);
        }
        _ => panic!("expected a filtered reply"),
    }
}
