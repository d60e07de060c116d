use rcue::cue::Duration;
use rcue::errors::CueError;
use rcue::util::{next_string, next_token, next_values, timestamp_to_duration, unescape_quotes};

#[test]
fn test_unescape_quotes() {
    let actual = unescape_quotes(r#""lmao \"i\"cons""#);
    let expected = r#"lmao "i"cons"#;
    assert_eq!(actual, expected);
}

#[test]
fn test_unescape_unescaped_string() {
    let actual = unescape_quotes(r#"lmao "i"cons"#);
    let expected = r#"lmao "i"cons"#;
    assert_eq!(actual, expected);
}

#[test]
fn test_valid_timestamp_conversion() {
    let actual = timestamp_to_duration("00:00:00").unwrap();
    let expected = Duration::new(0, 0);
    assert_eq!(actual, expected);

    let actual = timestamp_to_duration("01:01:00").unwrap();
    let expected = Duration::new(61, 0);
    assert_eq!(actual, expected);

    let actual = timestamp_to_duration("99:99:99").unwrap();
    let expected = Duration::new(6040, 320000000);
    assert_eq!(actual, expected);
}

#[test]
fn test_frame_second_conversion() {
    let actual = timestamp_to_duration("00:00:75").unwrap();
    let expected = Duration::new(1, 0);
    assert_eq!(actual, expected);

    let actual = timestamp_to_duration("00:00:76").unwrap();
    let expected = Duration::new(1, 13333333);
    assert_eq!(actual, expected);
}

#[test]
fn test_invalid_timestamp() {
    assert!(timestamp_to_duration("000000").is_err());
    assert!(timestamp_to_duration("-00:00:00").is_err());
    assert!(timestamp_to_duration("00:00").is_err());
    assert!(timestamp_to_duration("00 00 00").is_err());
    assert!(timestamp_to_duration("00.00.00").is_err());
    assert!(timestamp_to_duration(" 00:00:00").is_err());
    assert!(timestamp_to_duration("00:00:00 ").is_err());
    assert!(timestamp_to_duration(" 00:00:00 ").is_err());
    assert!(timestamp_to_duration("P0003-06-04T12:30:05").is_err());
}

#[test]
fn test_next_string_quotation_marks() {
    let quotes = r#""quotation \"\" marks""#.to_string();
    let actual = next_string(&mut quotes.chars(), "").unwrap();
    let expected = r#"quotation "" marks"#;
    assert_eq!(actual, expected);
}

#[test]
fn test_next_string_single_quotation_marks() {
    let quotes_single = r#"this\"isfine"#.to_string();
    let actual = next_string(&mut quotes_single.chars(), "").unwrap();
    let expected = r#"this"isfine"#;
    assert_eq!(actual, expected);
}

#[test]
fn test_next_tokens() {
    let tokens = "a b c d".to_string();
    let mut iter = tokens.chars();
    assert_eq!(next_token(&mut iter), "a".to_string());
    assert_eq!(next_token(&mut iter), "b".to_string());
    assert_eq!(next_token(&mut iter), "c".to_string());
    assert_eq!(next_token(&mut iter), "d".to_string());
}

#[test]
fn test_next_values() {
    let values = "a b".to_string();
    let mut iter = values.chars();
    let actual = next_values(&mut iter);
    let expected = vec!["a".to_string(), "b".to_string()];
    assert_eq!(actual, expected);
}

#[test]
fn next_values_skips_runs_of_whitespace() {
    let values = "  DCP \t 4CH   PRE\u{3000}SCMS  ".to_string();
    let mut iter = values.chars();
    assert_eq!(next_values(&mut iter), vec!["DCP", "4CH", "PRE", "SCMS"]);
    assert_eq!(iter.next(), None);
    let empty = "   ".to_string();
    assert!(next_values(&mut empty.chars()).is_empty());
}

#[test]
fn next_token_consumes_one_delimiter() {
    let text = "ab  cd".to_string();
    let mut iter = text.chars();
    assert_eq!(next_token(&mut iter), "ab");
    assert_eq!(next_token(&mut iter), "");
    assert_eq!(next_token(&mut iter), "cd");
    assert_eq!(next_token(&mut iter), "");
}

#[test]
fn next_string_quoted_then_rest() {
    let text = r#""My Bloody Valentine - Loveless.wav" WAVE"#.to_string();
    let mut iter = text.chars();
    assert_eq!(next_string(&mut iter, "").unwrap(), "My Bloody Valentine - Loveless.wav");
    assert_eq!(next_token(&mut iter), "WAVE");
}

#[test]
fn next_string_bare_word_stops_at_whitespace() {
    let text = "Alternative Rock".to_string();
    let mut iter = text.chars();
    assert_eq!(next_string(&mut iter, "").unwrap(), "Alternative");
    assert_eq!(iter.collect::<String>(), "Rock");
}

#[test]
fn next_string_on_nothing_fails_with_the_message() {
    let text = String::new();
    match next_string(&mut text.chars(), "missing TITLE value") {
        Err(CueError::Parse(m)) => assert_eq!(m, "missing TITLE value"),
        _ => panic!("expected a parse error"),
    }
}

#[test]
fn unescape_keeps_a_lone_quote() {
    assert_eq!(unescape_quotes("\""), "\"");
    assert_eq!(unescape_quotes(""), "");
    assert_eq!(unescape_quotes("\"\""), "");
    assert_eq!(unescape_quotes(r#"\\""#), "\\\"");
}

#[test]
fn unescape_plain_string_is_unchanged() {
    for s in ["Loveless", "a\\b", "\"half", "half\"", "マジコカタストロフィ"] {
        assert_eq!(unescape_quotes(s), s);
    }
}

#[test]
fn timestamp_round_trip_values() {
    for mm in [0u64, 7, 42, 99] {
        for ss in [0u64, 13, 59, 99] {
            for ff in [0u64, 1, 52, 74, 75, 76, 99] {
                let text = format!("{:02}:{:02}:{:02}", mm, ss, ff);
                let d = timestamp_to_duration(&text).unwrap();
                assert_eq!(d.as_secs(), mm * 60 + ss + ff / 75);
                assert_eq!(d.subsec_nanos() as u64, (ff % 75) * 1_000_000_000 / 75);
            }
        }
    }
    let d = timestamp_to_duration("04:17:52").unwrap();
    assert_eq!(d, Duration::new(257, 693_333_333));
}

#[test]
fn timestamp_error_names_the_input() {
    match timestamp_to_duration("0a:00:00") {
        Err(CueError::Parse(m)) => assert_eq!(m, "invalid timestamp: 0a:00:00"),
        _ => panic!("expected a parse error"),
    }
    assert!(timestamp_to_duration("\u{661}0:00:00").is_err());
    assert!(timestamp_to_duration("00:00:000").is_err());
}

#[test]
fn error_texts() {
    let e = CueError::Parse("missing TRACK number".to_string());
    assert_eq!(e.to_string(), "Parse error: missing TRACK number");
    assert_eq!(e.description(), "missing TRACK number");
    let io = CueError::Io(std::io::Error::new(std::io::ErrorKind::NotFound, "gone"));
    assert_eq!(io.to_string(), "Io error: gone");
}
