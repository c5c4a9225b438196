use bodhi::sync::status_response;
use bodhi::text::{chrono_now, decimal_string, normalize_tags, trim_chars, white_space};

#[test]
fn tags_are_trimmed_lowercased_and_deduplicated() {
    let tags = normalize_tags(" Work, URGENT ,work");
    assert_eq!(tags, vec!["work".to_string(), "urgent".to_string()]);
}

#[test]
fn empty_tag_field_gives_no_tags() {
    assert!(normalize_tags("").is_empty());
    assert!(normalize_tags(",, ,").is_empty());
}

#[test]
fn blank_pieces_are_dropped_after_trimming() {
    let tags = normalize_tags("a, ,b,\t,A");
    assert_eq!(tags, vec!["a".to_string(), "b".to_string()]);
}

#[test]
fn single_tag_without_comma() {
    assert_eq!(normalize_tags("  Home\u{3000}"), vec!["home".to_string()]);
}

#[test]
fn unicode_tags_are_lowercased() {
    assert_eq!(normalize_tags("ÄRGER,ärger"), vec!["ärger".to_string()]);
}

#[test]
fn whitespace_classification() {
    assert!(white_space(' '));
    assert!(white_space('\n'));
    assert!(white_space('\u{a0}'));
    assert!(white_space('\u{2003}'));
    assert!(!white_space('a'));
    assert!(!white_space(','));
    assert!(!white_space('\u{200b}'));
    for c in ['\t', '\r', '\u{85}', '\u{1680}', '\u{2028}', '\u{3000}', 'x', '0', '\u{7f}'] {
        assert_eq!(white_space(c), c.is_whitespace());
    }
}

#[test]
fn trimming_characters() {
    let s: Vec<char> = "  ab c \n".chars().collect();
    assert_eq!(trim_chars(&s), vec!['a', 'b', ' ', 'c']);
    let blank: Vec<char> = " \t ".chars().collect();
    assert!(trim_chars(&blank).is_empty());
}

#[test]
fn decimal_notation() {
    assert_eq!(decimal_string(0), "0");
    assert_eq!(decimal_string(7), "7");
    assert_eq!(decimal_string(10), "10");
    assert_eq!(decimal_string(1700000000), "1700000000");
    assert_eq!(decimal_string(u64::MAX), "18446744073709551615");
}

#[test]
fn current_time_is_seconds_since_epoch() {
    let now = chrono_now();
    assert!(!now.is_empty());
    assert!(now.chars().all(|c| c.is_ascii_digit()));
    let secs: u64 = now.parse().unwrap();
    assert!(secs > 1_600_000_000);
}

#[test]
fn status_is_ready_with_version() {
    let s = status_response("0.3.1");
    assert_eq!(s.status, "ready");
    assert_eq!(s.version, "0.3.1");
}
