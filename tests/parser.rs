use rcue::cue::{Command, Cue, Duration};
use rcue::errors::CueError;
use rcue::parser::{parse_lines, tokenize_line};

const GOOD: &str = r#"REM GENRE Alternative
REM DATE 1991
REM DISCID 860B640B
REM COMMENT "ExactAudioCopy v0.95b4"
PERFORMER "My Bloody Valentine"
SONGWRITER "foobar"
TITLE "Loveless"
CDTEXTFILE "./cdtextfile"
FILE "My Bloody Valentine - Loveless.wav" WAVE
  TRACK 01 AUDIO
    TITLE "Only Shallow"
    PERFORMER "My Bloody Valentine"
    SONGWRITER "barbaz bax"
    ISRC USRC17609839
    FLAGS DCP 4CH PRE SCMS
    INDEX 01 00:00:00
  TRACK 02 AUDIO
    TITLE "Loomer"
    PERFORMER "My Bloody Valentine"
    INDEX 01 04:17:52
"#;

const UNICODE: &str = r#"REM GENRE Electronic
PERFORMER "Wonderful Rush"
TITLE "マジコカタストロフィ"
FILE "01.flac" WAVE
  TRACK 01 AUDIO
    TITLE "マジコカタストロフィ"
    INDEX 01 00:00:00
"#;

const CASE_SENSITIVITY: &str = r#"rem GENRE Alternative
performer "My Bloody Valentine"
Title "Loveless"
file "My Bloody Valentine - Loveless.wav" WAVE
  Track 01 AUDIO
    tItLe "Only Shallow"
    index 01 00:00:00
"#;

const BAD_INDENTATION: &str = r#"REM GENRE Alternative
      PERFORMER "My Bloody Valentine"
TITLE "Loveless"
FILE "My Bloody Valentine - Loveless.wav" WAVE
TRACK 01 AUDIO
          TITLE "Only Shallow"
 PERFORMER "My Bloody Valentine"
  INDEX 01 00:00:00
        TRACK 02 AUDIO
TITLE "Loomer"
    INDEX 01 04:17:52
"#;

const UNKNOWN_FIELD: &str = r#"FOO WHAT 12345
TITLE "Loveless"
FILE "My Bloody Valentine - Loveless.wav" WAVE
  TRACK 01 AUDIO
    INDEX 01 00:00:00
"#;

const EMPTY_LINES: &str = r#"REM GENRE Alternative
REM DATE 1991

REM DISCID 860B640B
REM COMMENT "ExactAudioCopy v0.95b4"
PERFORMER "My Bloody Valentine"

TITLE "Loveless"
FILE "My Bloody Valentine - Loveless.wav" WAVE
  TRACK 01 AUDIO
    TITLE "Only Shallow"

    INDEX 01 00:00:00
  TRACK 02 AUDIO
    TITLE "Loomer"
    INDEX 01 04:17:52

"#;

const DUPLICATE_COMMENT: &str = r#"REM GENRE Alternative
REM DATE 1991
REM DATE 1992
REM DISCID 860B640B
REM COMMENT "ExactAudioCopy v0.95b4"
TITLE "Loveless"
"#;

const DUPLICATE_TITLE: &str = r#"TITLE "Loveless"
TITLE "Loveless 2"
"#;

const DUPLICATE_TRACK: &str = r#"FILE "My Bloody Valentine - Loveless.wav" WAVE
  TRACK 01 AUDIO
    TITLE "Only Shallow"
    INDEX 01 00:00:00
  TRACK 01 AUDIO
    TITLE "Only Shallow"
    INDEX 01 00:00:00
"#;

const DUPLICATE_FILE: &str = r#"FILE "My Bloody Valentine - Loveless.wav" WAVE
  TRACK 01 AUDIO
    INDEX 01 00:00:00
FILE "My Bloody Valentine - Loveless.wav" WAVE
  TRACK 01 AUDIO
    INDEX 01 00:00:00
"#;

const BAD_INDEX: &str = r#"FILE "My Bloody Valentine - Loveless.wav" WAVE
  TRACK 01 AUDIO
    INDEX 01
"#;

const BAD_INDEX_TIMESTAMP: &str = r#"FILE "My Bloody Valentine - Loveless.wav" WAVE
  TRACK 01 AUDIO
    INDEX 01 00:0a:00
"#;

const PREGAP: &str = r#"FILE "My Bloody Valentine - Loveless.wav" WAVE
  TRACK 01 AUDIO
    PREGAP 00:01:00
    INDEX 01 00:00:00
    POSTGAP 00:02:00
"#;

const BAD_PREGAP_TIMESTAMP: &str = r#"FILE "My Bloody Valentine - Loveless.wav" WAVE
  TRACK 01 AUDIO
    PREGAP 00:01:0x
    INDEX 01 00:00:00
"#;

const BAD_POSTGAP_TIMESTAMP: &str = r#"FILE "My Bloody Valentine - Loveless.wav" WAVE
  TRACK 01 AUDIO
    INDEX 01 00:00:00
    POSTGAP 0:02:00
"#;

const CATALOG: &str = r#"CATALOG "TESTCATALOG-ID 64"
TITLE "Loveless"
"#;

const COMMENTS: &str = r#"REM GENRE Alternative
REM DATE 1991
REM DISCID 860B640B
REM COMMENT "ExactAudioCopy v0.95b4"
FILE "My Bloody Valentine - Loveless.wav" WAVE
  REM FILE 1
  TRACK 01 AUDIO
    REM TRACK 1
    INDEX 01 00:00:00
  TRACK 02 AUDIO
    REM TRACK 2
    REM TRACK 2.1
    INDEX 01 04:17:52
"#;

const ORPHAN_TRACK: &str = r#"TITLE "Loveless"
TRACK 01 AUDIO
  INDEX 01 00:00:00
"#;

const ORPHAN_INDEX: &str = r#"FILE "My Bloody Valentine - Loveless.wav" WAVE
  INDEX 01 00:00:00
  TRACK 01 AUDIO
    INDEX 01 04:17:52
"#;

const ORPHAN_PREGAP: &str = r#"FILE "My Bloody Valentine - Loveless.wav" WAVE
  PREGAP 00:01:00
  TRACK 01 AUDIO
    INDEX 01 00:00:00
"#;

const ORPHAN_POSTGAP: &str = r#"FILE "My Bloody Valentine - Loveless.wav" WAVE
  POSTGAP 00:01:00
  TRACK 01 AUDIO
    INDEX 01 00:00:00
"#;

/// Splits a CUE sheet into lines, as a buffered reader does.
fn lines(text: &str) -> Vec<String> {
    text.lines().map(|l| l.to_string()).collect()
}

fn parse_text(text: &str, strict: bool) -> Result<Cue, CueError> {
    parse_lines(&lines(text), strict)
}

fn strict_reason(text: &str) -> String {
    match parse_text(text, true) {
        Err(CueError::Parse(m)) => m,
        Err(CueError::Io(_)) => panic!("unexpected I/O error"),
        Ok(_) => panic!("strict parsing should fail"),
    }
}

#[test]
fn test_parsing_good_cue() {
    let cue = parse_text(GOOD, true).unwrap();
    assert_eq!(cue.comments.len(), 4);
    assert_eq!(
        cue.comments[0],
        ("GENRE".to_string(), "Alternative".to_string(),)
    );
    assert_eq!(cue.comments[1], ("DATE".to_string(), "1991".to_string()));
    assert_eq!(
        cue.comments[2],
        ("DISCID".to_string(), "860B640B".to_string(),)
    );
    assert_eq!(
        cue.comments[3],
        ("COMMENT".to_string(), "ExactAudioCopy v0.95b4".to_string(),)
    );
    assert_eq!(cue.performer, Some("My Bloody Valentine".to_string()));
    assert_eq!(cue.songwriter, Some("foobar".to_string()));
    assert_eq!(cue.title, Some("Loveless".to_string()));
    assert_eq!(cue.cd_text_file, Some("./cdtextfile".to_string()));

    assert_eq!(cue.files.len(), 1);
    let ref file = cue.files[0];
    assert_eq!(file.file, "My Bloody Valentine - Loveless.wav");
    assert_eq!(file.format, "WAVE");

    assert_eq!(file.tracks.len(), 2);
    let ref track = file.tracks[0];
    assert_eq!(track.no, "01".to_string());
    assert_eq!(track.format, "AUDIO".to_string());
    assert_eq!(track.songwriter, Some("barbaz bax".to_string()));
    assert_eq!(track.title, Some("Only Shallow".to_string()));
    assert_eq!(track.performer, Some("My Bloody Valentine".to_string()));
    assert_eq!(track.indices.len(), 1);
    assert_eq!(track.indices[0], ("01".to_string(), Duration::new(0, 0)));
    assert_eq!(track.isrc, Some("USRC17609839".to_string()));
    assert_eq!(track.flags, vec!["DCP", "4CH", "PRE", "SCMS"]);
}

#[test]
fn test_parsing_unicode() {
    let cue = parse_text(UNICODE, true).unwrap();
    assert_eq!(cue.title, Some("マジコカタストロフィ".to_string()));
}

#[test]
fn test_case_sensitivity() {
    let cue = parse_text(CASE_SENSITIVITY, true).unwrap();
    assert_eq!(cue.title, Some("Loveless".to_string()));
    assert_eq!(cue.performer, Some("My Bloody Valentine".to_string()));
}

#[test]
fn test_bad_intentation() {
    let cue = parse_text(BAD_INDENTATION, true).unwrap();
    assert_eq!(cue.title, Some("Loveless".to_string()));
    assert_eq!(cue.files.len(), 1);
    assert_eq!(cue.files[0].tracks.len(), 2);
    assert_eq!(
        cue.files[0].tracks[0].title,
        Some("Only Shallow".to_string())
    );
}

#[test]
fn test_unknown_field_lenient() {
    let cue = parse_text(UNKNOWN_FIELD, false).unwrap();
    assert_eq!(cue.unknown[0], "FOO WHAT 12345");
}

#[test]
fn test_unknown_field_strict() {
    let cue = parse_text(UNKNOWN_FIELD, true);
    assert!(cue.is_err());
}

#[test]
fn test_empty_lines_lenient() {
    let cue = parse_text(EMPTY_LINES, false).unwrap();
    assert_eq!(cue.comments.len(), 4);
    assert_eq!(cue.files.len(), 1);
    assert_eq!(cue.files[0].tracks.len(), 2);
}

#[test]
fn test_empty_lines_strict() {
    let cue = parse_text(EMPTY_LINES, true);
    assert!(cue.is_err());
}

#[test]
fn test_duplicate_comment() {
    let cue = parse_text(DUPLICATE_COMMENT, true).unwrap();
    assert_eq!(cue.comments.len(), 5);
    assert_eq!(cue.comments[1], ("DATE".to_string(), "1991".to_string()));
    assert_eq!(cue.comments[2], ("DATE".to_string(), "1992".to_string()));
}

#[test]
fn test_duplicate_title() {
    let cue = parse_text(DUPLICATE_TITLE, true).unwrap();
    assert_eq!(cue.title, Some("Loveless 2".to_string()));
}

#[test]
fn test_duplicate_track() {
    let cue = parse_text(DUPLICATE_TRACK, true).unwrap();
    assert_eq!(cue.files[0].tracks[0], cue.files[0].tracks[1]);
}

#[test]
fn test_duplicate_file() {
    let cue = parse_text(DUPLICATE_FILE, true).unwrap();
    assert_eq!(cue.files.len(), 2);
    assert_eq!(cue.files[0], cue.files[1]);
}

#[test]
fn test_bad_index_lenient() {
    let cue = parse_text(BAD_INDEX, false).unwrap();
    assert_eq!(cue.files[0].tracks[0].indices.len(), 0);
}

#[test]
fn test_bad_index_strict() {
    let cue = parse_text(BAD_INDEX, true);
    assert!(cue.is_err());
}

#[test]
fn test_bad_index_timestamp_lenient() {
    let cue = parse_text(BAD_INDEX_TIMESTAMP, false).unwrap();
    assert_eq!(cue.files[0].tracks[0].indices.len(), 0);
}

#[test]
fn test_bad_index_timestamp_strict() {
    let cue = parse_text(BAD_INDEX_TIMESTAMP, true);
    assert!(cue.is_err());
}

#[test]
fn test_pregap_postgap() {
    let cue = parse_text(PREGAP, true).unwrap();
    assert_eq!(cue.files[0].tracks[0].pregap, Some(Duration::new(1, 0)));
    assert_eq!(cue.files[0].tracks[0].postgap, Some(Duration::new(2, 0)));
}

#[test]
fn test_bad_pregap_timestamp_strict() {
    let cue = parse_text(BAD_PREGAP_TIMESTAMP, true);
    assert!(cue.is_err());
}

#[test]
fn test_bad_pregap_timestamp_lenient() {
    let cue = parse_text(BAD_PREGAP_TIMESTAMP, false).unwrap();
    assert!(cue.files[0].tracks[0].pregap.is_none());
}

#[test]
fn test_bad_postgap_timestamp_strict() {
    let cue = parse_text(BAD_POSTGAP_TIMESTAMP, true);
    assert!(cue.is_err());
}

#[test]
fn test_bad_postgap_timestamp_lenient() {
    let cue = parse_text(BAD_POSTGAP_TIMESTAMP, false).unwrap();
    assert!(cue.files[0].tracks[0].postgap.is_none());
}

#[test]
fn test_catalog() {
    let cue = parse_text(CATALOG, true).unwrap();
    assert_eq!(cue.catalog, Some("TESTCATALOG-ID 64".to_string()));
}

#[test]
fn test_comments() {
    let cue = parse_text(COMMENTS, true).unwrap();
    assert_eq!(cue.comments.len(), 4);
    assert_eq!(cue.files[0].comments.len(), 1);
    assert_eq!(cue.files[0].tracks[0].comments.len(), 1);
    assert_eq!(cue.files[0].tracks[1].comments.len(), 2);
    assert_eq!(
        cue.files[0].tracks[1].comments[0],
        ("TRACK".to_string(), "2".to_string(),)
    );
    assert_eq!(
        cue.files[0].tracks[1].comments[1],
        ("TRACK".to_string(), "2.1".to_string(),)
    );
}

#[test]
fn test_orphan_track_strict() {
    let cue = parse_text(ORPHAN_TRACK, true);
    assert!(cue.is_err());
}

#[test]
fn test_orphan_track_lenient() {
    let cue = parse_text(ORPHAN_TRACK, false).unwrap();
    assert_eq!(cue.files.len(), 0);
}

#[test]
fn test_orphan_index_strict() {
    let cue = parse_text(ORPHAN_INDEX, true);
    assert!(cue.is_err());
}

#[test]
fn test_orphan_index_lenient() {
    let cue = parse_text(ORPHAN_INDEX, false).unwrap();
    assert_eq!(cue.files[0].tracks.len(), 1);
    assert_eq!(cue.files[0].tracks[0].indices.len(), 1);
    assert_eq!(
        cue.files[0].tracks[0].indices[0],
        ("01".to_string(), Duration::new(257, 693333333,),)
    );
}

#[test]
fn test_orphan_pregap_strict() {
    let cue = parse_text(ORPHAN_PREGAP, true);
    assert!(cue.is_err());
}

#[test]
fn test_orphan_pregap_lenient() {
    let cue = parse_text(ORPHAN_PREGAP, false).unwrap();
    assert_eq!(cue.files[0].tracks.len(), 1);
    assert!(cue.files[0].tracks[0].pregap.is_none());
}

#[test]
fn test_orphan_postgap_strict() {
    let cue = parse_text(ORPHAN_POSTGAP, true);
    assert!(cue.is_err());
}

#[test]
fn test_orphan_postgap_lenient() {
    let cue = parse_text(ORPHAN_POSTGAP, false).unwrap();
    assert_eq!(cue.files[0].tracks.len(), 1);
    assert!(cue.files[0].tracks[0].pregap.is_none());
}

#[test]
fn test_bare_file() {
    assert!(parse_lines(&vec!["FILE".to_string()], true).is_err());
}

#[test]
fn basic_disc_scenario() {
    let text = r#"REM GENRE Alternative
PERFORMER "My Bloody Valentine"
TITLE "Loveless"
FILE "My Bloody Valentine - Loveless.wav" WAVE
  TRACK 01 AUDIO
    TITLE "Only Shallow"
    PERFORMER "My Bloody Valentine"
    INDEX 01 00:00:00
"#;
    let cue = parse_text(text, true).unwrap();
    assert_eq!(cue.performer, Some("My Bloody Valentine".to_string()));
    assert_eq!(cue.title, Some("Loveless".to_string()));
    assert_eq!(cue.comments, vec![("GENRE".to_string(), "Alternative".to_string())]);
    assert_eq!(cue.files.len(), 1);
    assert_eq!(cue.files[0].file, "My Bloody Valentine - Loveless.wav");
    assert_eq!(cue.files[0].format, "WAVE");
    assert_eq!(cue.files[0].tracks.len(), 1);
    let track = &cue.files[0].tracks[0];
    assert_eq!(track.no, "01");
    assert_eq!(track.format, "AUDIO");
    assert_eq!(track.title, Some("Only Shallow".to_string()));
    assert_eq!(track.performer, Some("My Bloody Valentine".to_string()));
    assert_eq!(track.indices, vec![("01".to_string(), Duration::new(0, 0))]);
    assert!(cue.unknown.is_empty());
}

#[test]
fn unicode_title_scenario() {
    let cue = parse_text("TITLE \"マジコカタストロフィ\"", true).unwrap();
    assert_eq!(cue.title, Some("マジコカタストロフィ".to_string()));
}

#[test]
fn frame_arithmetic_scenario() {
    let text = "FILE a.wav WAVE\nTRACK 01 AUDIO\nINDEX 01 04:17:52\nINDEX 02 99:99:99";
    let cue = parse_text(text, true).unwrap();
    let indices = &cue.files[0].tracks[0].indices;
    assert_eq!(indices[0], ("01".to_string(), Duration::new(257, 693_333_333)));
    assert_eq!(indices[1], ("02".to_string(), Duration::new(6040, 320_000_000)));
}

#[test]
fn strict_orphan_index_scenario() {
    assert_eq!(
        strict_reason("INDEX 01 00:00:00"),
        "strict mode failure: INDEX assigned to no track"
    );
    let cue = parse_text("INDEX 01 00:00:00", false).unwrap();
    assert!(cue.files.is_empty());
}

#[test]
fn unknown_field_scenario() {
    assert_eq!(
        strict_reason("FOO WHAT 12345"),
        "strict mode failure: unknown token -- FOO WHAT 12345"
    );
    let cue = parse_text("FOO WHAT 12345", false).unwrap();
    assert_eq!(cue.unknown, vec!["FOO WHAT 12345"]);

    let text = "FILE a.wav WAVE\nTRACK 01 AUDIO\n  FOO WHAT 12345\nBAR";
    let cue = parse_text(text, false).unwrap();
    assert!(cue.unknown.is_empty());
    assert_eq!(cue.files[0].tracks[0].unknown, vec!["  FOO WHAT 12345", "BAR"]);
}

#[test]
fn bare_file_scenario() {
    assert_eq!(strict_reason("FILE"), "strict mode failure: missing path for FILE");
    match tokenize_line("FILE") {
        Err(CueError::Parse(m)) => assert_eq!(m, "missing path for FILE"),
        _ => panic!("expected a tokenizer failure"),
    }
    // Lenient mode skips a line the tokenizer cannot read.
    let cue = parse_text("FILE", false).unwrap();
    assert!(cue.files.is_empty());
}

#[test]
fn strict_success_matches_lenient() {
    for text in [GOOD, UNICODE, CASE_SENSITIVITY, COMMENTS, PREGAP, DUPLICATE_FILE] {
        let strict = parse_text(text, true).unwrap();
        let lenient = parse_text(text, false).unwrap();
        assert_eq!(strict.files, lenient.files);
        assert_eq!(strict.title, lenient.title);
        assert_eq!(strict.performer, lenient.performer);
        assert_eq!(strict.songwriter, lenient.songwriter);
        assert_eq!(strict.catalog, lenient.catalog);
        assert_eq!(strict.cd_text_file, lenient.cd_text_file);
        assert_eq!(strict.comments, lenient.comments);
        assert_eq!(strict.unknown, lenient.unknown);
    }
}

#[test]
fn context_attribution() {
    let text = "TITLE disc\nREM A 1\nFILE f.wav WAVE\nREM B 2\nPERFORMER p\nTRACK 01 AUDIO\nTITLE t\nSONGWRITER s\nREM C 3";
    let cue = parse_text(text, true).unwrap();
    assert_eq!(cue.title, Some("disc".to_string()));
    assert_eq!(cue.performer, Some("p".to_string()));
    assert_eq!(cue.songwriter, None);
    assert_eq!(cue.comments, vec![("A".to_string(), "1".to_string())]);
    assert_eq!(cue.files[0].comments, vec![("B".to_string(), "2".to_string())]);
    let track = &cue.files[0].tracks[0];
    assert_eq!(track.title, Some("t".to_string()));
    assert_eq!(track.songwriter, Some("s".to_string()));
    assert_eq!(track.comments, vec![("C".to_string(), "3".to_string())]);
}

#[test]
fn order_is_kept() {
    let text = "FILE b.wav WAVE\nTRACK 02 AUDIO\nINDEX 01 00:00:01\nINDEX 00 00:00:00\nTRACK 01 AUDIO\nFILE a.wav MP3\nTRACK 03 AUDIO\nINDEX 05 00:00:02";
    let cue = parse_text(text, true).unwrap();
    let files: Vec<&str> = cue.files.iter().map(|f| f.file.as_str()).collect();
    assert_eq!(files, vec!["b.wav", "a.wav"]);
    let tracks: Vec<&str> = cue.files.iter().flat_map(|f| f.tracks.iter().map(|t| t.no.as_str())).collect();
    assert_eq!(tracks, vec!["02", "01", "03"]);
    let idx: Vec<&str> = cue.files[0].tracks[0].indices.iter().map(|i| i.0.as_str()).collect();
    assert_eq!(idx, vec!["01", "00"]);
    assert_eq!(cue.files[1].tracks[0].indices[0].1, Duration::new(0, 26_666_666));
}

#[test]
fn empty_input_gives_empty_disc() {
    let cue = parse_lines(&Vec::new(), true).unwrap();
    assert!(cue.files.is_empty());
    assert!(cue.title.is_none());
    assert!(cue.comments.is_empty());
}

#[test]
fn strict_failure_reasons() {
    assert_eq!(strict_reason("TRACK 01 AUDIO"), "strict mode failure: TRACK assigned to no FILE");
    assert_eq!(strict_reason("FLAGS DCP"), "strict mode failure: FLAG assigned to no TRACK");
    assert_eq!(strict_reason("ISRC X"), "strict mode failure: ISRC assigned to no TRACK");
    assert_eq!(strict_reason("PREGAP 00:00:01"), "strict mode failure: PREGAP assigned to no track");
    assert_eq!(strict_reason("POSTGAP 00:00:01"), "strict mode failure: POSTGAP assigned to no track");
    assert_eq!(strict_reason(BAD_INDEX_TIMESTAMP), "strict mode failure: bad INDEX timestamp");
    assert_eq!(strict_reason(BAD_PREGAP_TIMESTAMP), "strict mode failure: bad PREGAP timestamp");
    assert_eq!(strict_reason(BAD_POSTGAP_TIMESTAMP), "strict mode failure: bad POSTGAP timestamp");
    assert_eq!(strict_reason("TITLE x\n   \t "), "strict mode failure: empty line");
    assert_eq!(strict_reason("REM GENRE"), "strict mode failure: missing REM value");
}

#[test]
fn tokenize_commands() {
    assert_eq!(tokenize_line("  \t ").unwrap(), Command::Empty);
    assert_eq!(
        tokenize_line("  rem DATE \"1991\"  ").unwrap(),
        Command::Rem("DATE".to_string(), "1991".to_string())
    );
    assert_eq!(
        tokenize_line("File \"a b.wav\" WAVE").unwrap(),
        Command::File("a b.wav".to_string(), "WAVE".to_string())
    );
    assert_eq!(
        tokenize_line("FLAGS DCP  PRE").unwrap(),
        Command::Flags(vec!["DCP".to_string(), "PRE".to_string()])
    );
    assert_eq!(
        tokenize_line("INDEX 01 00:02:03").unwrap(),
        Command::Index("01".to_string(), "00:02:03".to_string())
    );
    assert_eq!(
        tokenize_line("TRACK 01 AUDIO").unwrap(),
        Command::Track("01".to_string(), "AUDIO".to_string())
    );
    assert_eq!(tokenize_line("ISRC X").unwrap(), Command::Isrc("X".to_string()));
    assert_eq!(tokenize_line("FOO").unwrap(), Command::Unknown("FOO".to_string()));
    assert_eq!(tokenize_line("tıtle x").unwrap(), Command::Unknown("tıtle x".to_string()));
    assert!(tokenize_line("CATALOG").is_err());
    assert!(tokenize_line("CDTEXTFILE").is_err());
    assert!(tokenize_line("PERFORMER").is_err());
    assert!(tokenize_line("SONGWRITER").is_err());
    assert!(tokenize_line("TITLE").is_err());
}

#[test]
fn later_single_values_win() {
    let text = "CATALOG 1\nCATALOG 2\nCDTEXTFILE a\nCDTEXTFILE b\nFILE f WAVE\nTRACK 01 AUDIO\nISRC X\nISRC Y\nFLAGS A B\nFLAGS C\nPREGAP 00:00:01\nPREGAP 00:00:02";
    let cue = parse_text(text, true).unwrap();
    assert_eq!(cue.catalog, Some("2".to_string()));
    assert_eq!(cue.cd_text_file, Some("b".to_string()));
    let track = &cue.files[0].tracks[0];
    assert_eq!(track.isrc, Some("Y".to_string()));
    assert_eq!(track.flags, vec!["C"]);
    assert_eq!(track.pregap, Some(Duration::new(0, 26_666_666)));
}

fn tokenizer_reason(line: &str) -> String {
    match tokenize_line(line) {
        Err(CueError::Parse(m)) => m,
        _ => panic!("expected a tokenizer failure"),
    }
}

#[test]
fn missing_arguments_name_the_field() {
    assert_eq!(tokenizer_reason("TRACK"), "missing TRACK number");
    assert_eq!(tokenizer_reason("track 01"), "missing TRACK mode");
    assert_eq!(tokenizer_reason("INDEX"), "missing INDEX number");
    assert_eq!(tokenizer_reason("INDEX 01"), "missing INDEX timestamp");
    assert_eq!(tokenizer_reason("ISRC"), "missing ISRC value");
    assert_eq!(tokenizer_reason("PREGAP"), "missing PREGAP timestamp");
    assert_eq!(tokenizer_reason("POSTGAP  "), "missing POSTGAP timestamp");
    assert_eq!(tokenizer_reason("REM"), "missing REM key");
    assert_eq!(tokenizer_reason("FILE \"a.wav\""), "missing FILE format");
    assert_eq!(tokenizer_reason("FILE a.wav"), "missing FILE format");
    assert_eq!(tokenizer_reason("TITLE"), "missing TITLE value");
}

#[test]
fn bare_track_under_a_file() {
    let text = "FILE a.wav WAVE\nTRACK";
    assert_eq!(strict_reason(text), "strict mode failure: missing TRACK number");
    let cue = parse_text(text, false).unwrap();
    assert!(cue.files[0].tracks.is_empty());
}
