use sirucord::engine::{has_rested, Kind};
use sirucord::http::{
    failure_text, fits_length, is_success, receive, retry, success, Retry, ATTEMPTS,
};
use sirucord::json::{named, Json};
use sirucord::number::{decimal_text, hex_text, parse_u64};
use sirucord::table::{less, Table};
use sirucord::text::{
    includes, lines_of, normalize, replace, split, split_once, strip_prefix, strip_suffix, trim,
    words_of,
};
use sirucord::time::{elapsed_seconds, Timestamp};

#[test]
fn requests_are_repeated_where_that_may_help() {
    for status in [429, 500, 503, 599] {
        match retry(status, 0) {
            Retry::Wait { seconds, body_counts } => {
                assert_eq!((seconds, body_counts), (2, status == 429));
            }
            Retry::Done => panic!("{status}"),
        }
        assert!(matches!(retry(status, 1), Retry::Wait { seconds: 4, .. }));
        assert!(matches!(retry(status, ATTEMPTS - 1), Retry::Done));
    }
    for status in [200, 301, 404, 428, 430, 600] {
        assert!(matches!(retry(status, 0), Retry::Done));
    }
}

#[test]
fn failures_hide_what_was_answered() {
    assert!(is_success(200) && is_success(299) && !is_success(199) && !is_success(300));
    assert_eq!(success(204, "GitHub"), Ok(()));
    assert_eq!(success(403, "GitHub"), Err("GitHub: HTTP 403 (body redacted)".to_owned()));
    assert_eq!(failure_text("x", 0), "x: HTTP 0 (body redacted)");
}

#[test]
fn received_bytes_are_limited() {
    assert!(fits_length(None, 3) && fits_length(Some(3), 3) && !fits_length(Some(4), 3));
    let mut bytes = vec![1];
    assert!(receive(&mut bytes, &[2, 3], 3));
    assert!(!receive(&mut bytes, &[4], 3));
    assert_eq!(bytes, vec![1, 2, 3]);
}

#[test]
fn numbers_are_written_and_read_back() {
    for n in [0, 7, 10, 4_294_967_296, u64::MAX] {
        assert_eq!(decimal_text(n), n.to_string());
        assert_eq!(parse_u64(&decimal_text(n)), Some(n));
    }
    for text in ["", "-1", "1 ", "18446744073709551616", "x", "１"] {
        assert_eq!(parse_u64(text), text.parse::<u64>().ok(), "{text}");
    }
    for text in ["+1", "007", "+"] {
        assert_eq!(parse_u64(text), text.parse::<u64>().ok(), "{text}");
    }
    assert_eq!(hex_text(&vec![0, 15, 255]), "000fff");
}

#[test]
fn texts_are_taken_apart_as_usual() {
    for text in ["", "a", "a\n", "a\r\nb", "\n\n", "a\rb\n", "x\r", "é\u{3000}b \t c"] {
        assert_eq!(lines_of(text), text.lines().collect::<Vec<_>>(), "{text:?}");
        assert_eq!(words_of(text), text.split_whitespace().collect::<Vec<_>>(), "{text:?}");
        assert_eq!(trim(text), text.trim(), "{text:?}");
        assert_eq!(split(text, 'a'), text.split('a').collect::<Vec<_>>(), "{text:?}");
    }
    assert_eq!(normalize(" a \n b "), "a b");
    assert_eq!(split_once("1:2:3", ':'), Some(("1".to_owned(), "2:3".to_owned())));
    assert_eq!(split_once("12", ':'), None);
    assert_eq!(strip_prefix("!sirucord x", "!sirucord "), Some("x".to_owned()));
    assert_eq!(strip_suffix("a.png", ".png"), Some("a".to_owned()));
    assert_eq!(strip_suffix("a.jpg", ".png"), None);
    for (text, part) in [("aaa", "aa"), ("<@1><@1>", "<@1>"), ("x", "y"), ("", "y")] {
        assert_eq!(replace(text, part, "b"), text.replace(part, "b"));
        assert_eq!(includes(text, part), text.contains(part));
    }
}

#[test]
fn tables_keep_their_rows_in_order() {
    let mut table = Table::new();
    for key in ["b", "a", "é", "ab", "a"] {
        table.insert(key, key.len());
    }
    let keys: Vec<&str> = (0..table.len()).map(|i| table.row(i).key.as_str()).collect();
    assert_eq!(keys, ["a", "ab", "b", "é"]);
    assert_eq!(table.get("é"), Some(&2));
    assert_eq!(table.insert("b", 9), Some(1));
    assert_eq!(table.remove("b"), Some(9));
    assert_eq!(table.remove("b"), None);
    assert!(table.get("b").is_none());
    for (a, b) in [("", "a"), ("a", "ab"), ("Z", "a"), ("z", "é"), ("\u{ffff}", "\u{10000}")] {
        assert!(less(a, b) && !less(b, a) && !less(a, a));
        assert!(a < b);
    }
}

#[test]
fn json_is_written_as_usual() {
    let value = Json::object(vec![
        named("text", Json::text("\"\\\n\u{1}é")),
        named("list", Json::list(vec![Json::Null, Json::Bool(true), Json::Unsigned(7)])),
        named("number", Json::Number("-1.5".to_owned())),
        named("empty", Json::object(Vec::new())),
    ]);
    assert_eq!(
        value.to_text(),
        "{\"text\":\"\\\"\\\\\\n\\u0001é\",\"list\":[null,true,7],\"number\":-1.5,\"empty\":{}}"
    );
    assert!(value.get("missing").is_null() && !value.has("missing"));
    assert!(value.get("text").get("deeper").is_null());
    assert_eq!(value.get("list").as_list().map(|items| items.len()), Some(3));
    assert!(value.equals(&value.clone()));
}

#[test]
fn elapsed_time_is_told_in_whole_seconds() {
    let at = |seconds: i64, nanos: u32| Timestamp { seconds, nanos };
    assert_eq!(elapsed_seconds(at(10, 0), at(12, 999_999_999)), 2);
    assert_eq!(elapsed_seconds(at(10, 500_000_000), at(12, 0)), 1);
    assert_eq!(elapsed_seconds(at(12, 0), at(10, 500_000_000)), -1);
    assert!(has_rested(None, at(0, 0), 30));
    assert!(has_rested(Some(at(0, 0)), at(1800, 0), 30));
    assert!(!has_rested(Some(at(0, 1)), at(1800, 0), 30));
    assert_ne!(Kind::Start.text(), Kind::Screenshot.text());
}

#[test]
fn leap_seconds_stand_between_their_neighbours() {
    let at = |seconds: i64, nanos: u32| Timestamp { seconds, nanos };
    let leap = at(59, 1_500_000_000);
    assert!(at(59, 999_999_999).total() < leap.total());
    assert!(leap.total() < at(60, 0).total());
    assert!(at(60, 0).total_before(60) == at(0, 0).total());
    assert_eq!(elapsed_seconds(leap, at(60, 0)), 0);
    assert_eq!(elapsed_seconds(at(59, 0), leap), 1);
    assert_eq!(elapsed_seconds(at(58, 0), at(61, 0)), 3);
    assert_eq!(elapsed_seconds(leap, at(61, 600_000_000)), 2);
}

#[test]
fn zeros_are_equal_whatever_their_sign() {
    let number = |text: &str| Json::Number(text.to_owned());
    assert!(number("0.0").equals(&number("-0.0")));
    assert!(Json::list(vec![number("-0.0")]).equals(&Json::list(vec![number("0.0")])));
    assert!(!number("0.0").equals(&number("0.1")));
    assert!(!number("1.5").equals(&number("-1.5")));
    assert!(!Json::Unsigned(0).equals(&number("0.0")));
    assert_ne!(number("0.0").to_text(), number("-0.0").to_text());
}
