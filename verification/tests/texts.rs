//! Text, paths, addresses, labels and times.

use std::path::Path;

use agentium::clock::{
    ci_poll_interval_at, format_age, format_relative_time, format_relative_time_at,
    format_resets_at_day,
    format_resets_at_day_with, format_resets_in, format_resets_in_at, now_seconds,
    rate_limit_expired, rate_limit_expired_at, rate_limits_stale,
};
use agentium::labels::{truncate_for_menu, truncate_string};
use agentium::paths::{file_name, same_path, starts_with_path};
use agentium::polling::SECOND;
use agentium::text::{
    decimal_chars, digit_char, lines, lowercased, number_in, pieces, whitespace_char, word_char,
};
use agentium::urls::{
    hex_val, opened_path, percent_decode, remote_url_to_browser_url, repo_name_from_url,
};

fn chars(text: &str) -> Vec<char> {
    text.chars().collect()
}

fn texts(parts: Vec<Vec<char>>) -> Vec<String> {
    parts.into_iter().map(|part| part.into_iter().collect()).collect()
}

#[test]
fn white_space_is_that_of_unicode() {
    for c in (0..=0x10ffff).filter_map(char::from_u32) {
        assert_eq!(whitespace_char(c), c.is_whitespace(), "{:x}", c as u32);
    }
}

#[test]
fn digits_and_word_characters_are_those_of_unicode() {
    for c in ['0', '9', '٣', '３'] {
        assert!(digit_char(c), "{c}");
        assert!(word_char(c), "{c}");
    }
    for c in ['a', 'Z', '_', 'é', '漢', 'の'] {
        assert!(!digit_char(c), "{c}");
        assert!(word_char(c), "{c}");
    }
    for c in ['-', ' ', '。', '½'] {
        assert!(!digit_char(c), "{c}");
        assert!(!word_char(c), "{c}");
    }
}

#[test]
fn lower_case_is_that_of_unicode() {
    for (text, lower) in [("Az9", "az9"), ("AÉİ漢", "aéi\u{307}漢"), ("ΣΑΣ", "σας")] {
        assert_eq!(lowercased(&chars(text)), chars(lower), "{text}");
    }
}

#[test]
fn lines_and_pieces() {
    assert_eq!(texts(lines(&chars("a\r\nb\n\nc"))), vec!["a", "b", "", "c"]);
    assert_eq!(texts(lines(&chars("a\n"))), vec!["a"]);
    assert!(lines(&[]).is_empty());
    assert_eq!(texts(pieces(&chars("a/b//"), '/')), vec!["a", "b", "", ""]);
    assert_eq!(texts(pieces(&[], '/')), vec![""]);
}

#[test]
fn numbers_are_read_and_written() {
    for n in [0, 7, 10, 4096, u64::MAX] {
        let written: String = decimal_chars(n).into_iter().collect();
        assert_eq!(written, n.to_string());
        assert_eq!(number_in(&chars(&written)), Some(n));
    }
    assert_eq!(number_in(&chars("+12")), Some(12));
    assert_eq!(number_in(&chars("007")), Some(7));
    for text in ["", "+", "-1", "1 ", "18446744073709551616", "１"] {
        assert_eq!(number_in(&chars(text)), None, "{text}");
    }
}

#[test]
fn paths_are_compared_by_their_parts() {
    let paths = ["", "/", ".", "a", "./a", "a/.", "a//b/", "a/b", "/a/b", "/a/./b", "/a/bc", "a/../b"];
    for a in paths {
        for b in paths {
            assert_eq!(same_path(a, b), Path::new(a) == Path::new(b), "{a} {b}");
            assert_eq!(
                starts_with_path(a, b),
                Path::new(a).starts_with(Path::new(b)),
                "{a} {b}"
            );
        }
        assert_eq!(
            file_name(a),
            Path::new(a)
                .file_name()
                .map(|name| name.to_string_lossy().to_string()),
            "{a}"
        );
    }
    assert_eq!(file_name("a/.."), None);
}

#[test]
fn names_of_repositories() {
    for (url, name) in [
        ("https://github.com/safx/zed.git", Some("zed")),
        ("https://github.com/safx/zed/", Some("zed")),
        ("git@github.com:safx/zed", Some("zed")),
        ("git@github.com:zed", Some("git@github.com:zed")),
        ("", None),
        ("/", None),
    ] {
        assert_eq!(repo_name_from_url(url).as_deref(), name, "{url}");
    }
}

#[test]
fn addresses_for_the_browser() {
    for (url, browser) in [
        ("https://github.com/safx/zed.git", Some("https://github.com/safx/zed")),
        ("http://example.com/a/", Some("http://example.com/a")),
        ("git@github.com:safx/a:b.git", Some("https://github.com/safx/a:b")),
        ("ssh://git@github.com/safx/zed", None),
    ] {
        assert_eq!(remote_url_to_browser_url(url).as_deref(), browser, "{url}");
    }
}

#[test]
fn percent_signs_are_decoded() {
    for (text, decoded) in [
        ("/a%20b", "/a b"),
        ("%E4%bd%9C", "作"),
        ("100%", "100%\0\0"),
        ("%4", "%4\0"),
        ("%zz1", "%zz1"),
        ("%ff", "%ff"),
        ("作", "作"),
    ] {
        assert_eq!(percent_decode(text), decoded, "{text}");
    }
    assert_eq!(hex_val(b'0'), Some(0));
    assert_eq!(hex_val(b'f'), Some(15));
    assert_eq!(hex_val(b'A'), Some(10));
    assert_eq!(hex_val(b'g'), None);
    assert_eq!(opened_path("file:///a%20b").as_deref(), Some("/a b"));
    assert_eq!(opened_path("https://a"), None);
}

#[test]
fn labels_are_cut() {
    assert_eq!(truncate_string("あいう", 2), "あい");
    assert_eq!(truncate_string("あいう", 3), "あいう");
    assert_eq!(truncate_string("a", 0), "");
    assert_eq!(truncate_for_menu("one\ntwo"), "one …");
    assert_eq!(truncate_for_menu("終わり。次"), "終わり。 …");
    let long = "x".repeat(100);
    assert_eq!(truncate_for_menu(&long), long);
    assert_eq!(
        truncate_for_menu(&"x".repeat(120)),
        format!("{} …", "x".repeat(101))
    );
    assert_eq!(
        truncate_for_menu(&"あ".repeat(50)),
        format!("{} …", "あ".repeat(35))
    );
}

#[test]
fn times_of_reset() {
    assert_eq!(format_resets_in_at(0, 5), "Unknown");
    assert_eq!(format_resets_in_at(5, 5), "Session reset");
    assert_eq!(format_resets_in_at(1000 + 59, 1000), "Resets in 0m");
    assert_eq!(format_resets_in_at(1000 + 2 * 3600 + 3 * 60 + 59, 1000), "Resets in 2h 3m");
    assert_eq!(format_resets_in(1), "Session reset");
    assert_eq!(format_resets_in(-1), "Unknown");
    assert_eq!(format_resets_at_day_with(-1, 0, None), "Unknown");
    assert_eq!(format_resets_at_day_with(5, 5, Some("x".to_string())), "Weekly reset");
    assert_eq!(format_resets_at_day_with(6, 5, None), "Unknown");
    assert_eq!(format_resets_at_day_with(6, 5, Some("x".to_string())), "x");
    assert_eq!(format_resets_at_day(1), "Weekly reset");
    assert_eq!(format_resets_at_day(i64::MAX), "Unknown");
    let later = format_resets_at_day(now_seconds() + 100_000);
    assert!(later.starts_with("Resets "), "{later}");
    assert!(later.contains(':'), "{later}");
    assert_eq!(format_resets_at_day(8_210_266_876_800), "Unknown");
    let last = format_resets_at_day(8_210_266_876_799);
    assert!(last.starts_with("Resets "), "{last}");
    let weekday = &later["Resets ".len()..later.find(':').unwrap()];
    assert!(
        ["Mon ", "Tue ", "Wed ", "Thu ", "Fri ", "Sat ", "Sun "]
            .iter()
            .any(|day| weekday.starts_with(day)),
        "{later}"
    );
}

#[test]
fn rate_limits_expire() {
    assert!(!rate_limit_expired_at(0, 5));
    assert!(rate_limit_expired_at(5, 5));
    assert!(!rate_limit_expired_at(6, 5));
    assert!(rate_limit_expired(1));
    assert!(!rate_limit_expired(i64::MAX));
    assert!(!rate_limits_stale(3600 * SECOND));
    assert!(rate_limits_stale(3600 * SECOND + 1));
}

#[test]
fn ages_in_words() {
    let hour = 3600;
    let day = 24 * hour;
    for (age, text) in [
        (0, "just now"),
        (59, "just now"),
        (60, "1m ago"),
        (59 * 60 + 59, "59m ago"),
        (hour, "1h ago"),
        (day - 1, "23h ago"),
        (day, "1d ago"),
        (30 * day - 1, "29d ago"),
        (30 * day, "1mo ago"),
        (365 * day - 1, "12mo ago"),
        (365 * day, "1y ago"),
        (-1, "then"),
    ] {
        assert_eq!(format_age("then", Some(age)), text, "{age}");
    }
    assert_eq!(format_age("then", None), "then");
}

#[test]
fn ages_of_written_times() {
    let ago = chrono::Utc::now() - chrono::TimeDelta::minutes(90);
    assert_eq!(format_relative_time(&ago.to_rfc3339()), "1h ago");
    assert_eq!(format_relative_time("yesterday"), "yesterday");
    let at = |then, seconds, nanos| format_relative_time_at("then", then, seconds, nanos);
    assert_eq!(at(None, 100, 0), "then");
    assert_eq!(at(Some((100, 0)), 159, 999_999_999), "just now");
    assert_eq!(at(Some((100, 1)), 160, 0), "just now");
    assert_eq!(at(Some((100, 1)), 160, 1), "1m ago");
    assert_eq!(at(Some((100, 1)), 100, 0), "just now");
    assert_eq!(at(Some((101, 0)), 100, 0), "then");
    assert_eq!(at(Some((59, 1_000_000_000)), 119, 0), "1m ago");
    assert_eq!(at(Some((86_399, 1_000_000_000)), 86_459, 0), "just now");
    assert!(now_seconds() >= 0);
    let ahead = (chrono::Utc::now() + chrono::TimeDelta::minutes(90)).to_rfc3339();
    assert_eq!(format_relative_time(&ahead), ahead);
}

#[test]
fn checks_are_polled_less_often_with_time() {
    assert_eq!(ci_poll_interval_at(None, 0), 60 * SECOND);
    assert_eq!(ci_poll_interval_at(Some(0), 3600), 60 * SECOND);
    assert_eq!(ci_poll_interval_at(Some(0), 3601), 180 * SECOND);
    assert_eq!(ci_poll_interval_at(Some(0), 86400), 180 * SECOND);
    assert_eq!(ci_poll_interval_at(Some(0), 86401), 300 * SECOND);
    assert_eq!(ci_poll_interval_at(Some(9), 0), 60 * SECOND);
}
