use std::str::Chars;
use vstd::prelude::*;
use vstd::std_specs::iter::IteratorSpec;

use crate::cue::{
    Command, CommandView, Cue, CueFile, CueFileView, CueView, Duration, Track, TrackView,
    comments_view, files_view, indices_view, lines_view, new_cue, new_file, new_track, tracks_view,
};
use crate::errors::{is_parse_error, CueError};
use crate::util::{
    after_string, after_token, chars_of, is_timestamp, is_whitespace, is_ws, next_string,
    next_token, next_values, string_of, timestamp_to_duration, timestamp_value, token_of, words,
};

verus! {

broadcast use {vstd::string::axiom_spec_iter};

/// `s` without its leading whitespace.
pub open spec fn trim_start(s: Seq<char>) -> Seq<char>
    decreases s.len(),
{
    if s.len() > 0 && is_ws(s[0]) {
        trim_start(s.drop_first())
    } else {
        s
    }
}

/// `s` without its trailing whitespace.
pub open spec fn trim_end(s: Seq<char>) -> Seq<char>
    decreases s.len(),
{
    if s.len() > 0 && is_ws(s.last()) {
        trim_end(s.drop_last())
    } else {
        s
    }
}

/// `s` without leading and trailing whitespace.
pub open spec fn trim(s: Seq<char>) -> Seq<char> {
    trim_end(trim_start(s))
}

/// Removes leading and trailing whitespace from `s`.
fn trim_str(s: &str) -> (r: &str)
    ensures
        r@ == trim(s@),
{
    let v = chars_of(s);
    let n = v.len();
    let mut i: usize = 0;
    assert(s@.subrange(0, n as int) =~= s@);
    while i < n && is_whitespace(v[i])
        invariant
            n == v.len(),
            v@ == s@,
            i <= n,
            trim_start(s@) == trim_start(s@.subrange(i as int, n as int)),
        decreases n - i,
    {
        assert(s@.subrange(i as int, n as int).drop_first() =~= s@.subrange(i + 1, n as int));
        i += 1;
    }
    let mut j: usize = n;
    while j > i && is_whitespace(v[j - 1])
        invariant
            n == v.len(),
            v@ == s@,
            i <= j <= n,
            trim(s@) == trim_end(s@.subrange(i as int, j as int)),
        decreases j - i,
    {
        assert(s@.subrange(i as int, j as int).drop_last() =~= s@.subrange(i as int, j - 1));
        j -= 1;
    }
    s.substring_char(i, j)
}

/// The letter `c` equals the upper-case keyword letter `k`, ignoring ASCII case.
pub open spec fn letter_matches(c: char, k: char) -> bool {
    c as u32 == k as u32 || ('a' as u32 <= c as u32 <= 'z' as u32 && c as u32 == k as u32 + 32)
}

/// `token` is the upper-case `keyword`, ignoring ASCII case.
pub open spec fn is_keyword(token: Seq<char>, keyword: Seq<char>) -> bool {
    &&& token.len() == keyword.len()
    &&& forall|i: int| 0 <= i < token.len() ==> letter_matches(#[trigger] token[i], keyword[i])
}

/// Whether `token` is the upper-case `keyword`, ignoring ASCII case.
fn keyword_matches(token: &str, keyword: &str) -> (r: bool)
    ensures
        r == is_keyword(token@, keyword@),
{
    let t = chars_of(token);
    let k = chars_of(keyword);
    if t.len() != k.len() {
        return false;
    }
    let mut i: usize = 0;
    while i < t.len()
        invariant
            t@ == token@,
            k@ == keyword@,
            t.len() == k.len(),
            i <= t.len(),
            forall|j: int| 0 <= j < i ==> letter_matches(#[trigger] token@[j], keyword@[j]),
        decreases t.len() - i,
    {
        let c = t[i] as u32;
        let kc = k[i] as u32;
        if !(c == kc || ('a' as u32 <= c && c <= 'z' as u32 && c - 32 == kc)) {
            assert(!letter_matches(token@[i as int], keyword@[i as int]));
            return false;
        }
        i += 1;
    }
    true
}

/// The string argument at the start of `rest`, or the parse failure `msg`
/// where nothing is left.
pub open spec fn string_arg(rest: Seq<char>, msg: Seq<char>) -> Result<Seq<char>, Seq<char>> {
    if rest.len() == 0 {
        Err(msg)
    } else {
        Ok(string_of(rest))
    }
}

/// The bare token at the start of `rest`, or the parse failure `msg` where
/// there is none.
pub open spec fn token_arg(rest: Seq<char>, msg: Seq<char>) -> Result<Seq<char>, Seq<char>> {
    if token_of(rest).len() == 0 {
        Err(msg)
    } else {
        Ok(token_of(rest))
    }
}

/// Reads a required bare token; fails with a parse error that reads `error`
/// where the token is empty.
fn required_token(chars: &mut Chars, error: &str) -> (r: Result<String, CueError>)
    requires
        (*old(chars)).decrease() is Some,
    ensures
        (*final(chars)).decrease() is Some,
        (*final(chars)).remaining() == after_token((*old(chars)).remaining()),
        match (r, token_arg((*old(chars)).remaining(), error@)) {
            (Ok(v), Ok(w)) => v@ == w,
            (Err(e), Err(m)) => is_parse_error(e, m),
            _ => false,
        },
{
    let token = next_token(chars);
    if token.as_str().is_empty() {
        Err(CueError::Parse(String::from_str(error)))
    } else {
        Ok(token)
    }
}

/// The command that a line of a CUE sheet holds, or the reason why no
/// command could be read from it.
pub open spec fn tokenize(line: Seq<char>) -> Result<CommandView, Seq<char>> {
    let t = trim(line);
    let c = token_of(t);
    let rest = after_token(t);
    if c.len() == 0 {
        Ok(CommandView::Empty)
    } else if is_keyword(c, "REM"@) {
        match token_arg(rest, "missing REM key"@) {
            Ok(key) => match string_arg(after_token(rest), "missing REM value"@) {
                Ok(v) => Ok(CommandView::Rem(key, v)),
                Err(m) => Err(m),
            },
            Err(m) => Err(m),
        }
    } else if is_keyword(c, "CATALOG"@) {
        match string_arg(rest, "missing CATALOG value"@) {
            Ok(v) => Ok(CommandView::Catalog(v)),
            Err(m) => Err(m),
        }
    } else if is_keyword(c, "CDTEXTFILE"@) {
        match string_arg(rest, "missing CDTEXTFILE value"@) {
            Ok(v) => Ok(CommandView::CdTextFile(v)),
            Err(m) => Err(m),
        }
    } else if is_keyword(c, "TITLE"@) {
        match string_arg(rest, "missing TITLE value"@) {
            Ok(v) => Ok(CommandView::Title(v)),
            Err(m) => Err(m),
        }
    } else if is_keyword(c, "FILE"@) {
        match string_arg(rest, "missing path for FILE"@) {
            Ok(v) => match token_arg(after_string(rest), "missing FILE format"@) {
                Ok(format) => Ok(CommandView::File(v, format)),
                Err(m) => Err(m),
            },
            Err(m) => Err(m),
        }
    } else if is_keyword(c, "FLAGS"@) {
        Ok(CommandView::Flags(words(rest)))
    } else if is_keyword(c, "ISRC"@) {
        match token_arg(rest, "missing ISRC value"@) {
            Ok(v) => Ok(CommandView::Isrc(v)),
            Err(m) => Err(m),
        }
    } else if is_keyword(c, "PERFORMER"@) {
        match string_arg(rest, "missing PERFORMER value"@) {
            Ok(v) => Ok(CommandView::Performer(v)),
            Err(m) => Err(m),
        }
    } else if is_keyword(c, "SONGWRITER"@) {
        match string_arg(rest, "missing SONGWRITER value"@) {
            Ok(v) => Ok(CommandView::Songwriter(v)),
            Err(m) => Err(m),
        }
    } else if is_keyword(c, "TRACK"@) {
        match token_arg(rest, "missing TRACK number"@) {
            Ok(no) => match token_arg(after_token(rest), "missing TRACK mode"@) {
                Ok(mode) => Ok(CommandView::Track(no, mode)),
                Err(m) => Err(m),
            },
            Err(m) => Err(m),
        }
    } else if is_keyword(c, "PREGAP"@) {
        match token_arg(rest, "missing PREGAP timestamp"@) {
            Ok(v) => Ok(CommandView::Pregap(v)),
            Err(m) => Err(m),
        }
    } else if is_keyword(c, "POSTGAP"@) {
        match token_arg(rest, "missing POSTGAP timestamp"@) {
            Ok(v) => Ok(CommandView::Postgap(v)),
            Err(m) => Err(m),
        }
    } else if is_keyword(c, "INDEX"@) {
        match token_arg(rest, "missing INDEX number"@) {
            Ok(no) => match token_arg(after_token(rest), "missing INDEX timestamp"@) {
                Ok(time) => Ok(CommandView::Index(no, time)),
                Err(m) => Err(m),
            },
            Err(m) => Err(m),
        }
    } else {
        Ok(CommandView::Unknown(line))
    }
}

/// Reads the command that one line of a CUE sheet holds.
pub fn tokenize_line(line: &str) -> (r: Result<Command, CueError>)
    ensures
        match (r, tokenize(line@)) {
            (Ok(c), Ok(v)) => c@ == v,
            (Err(e), Err(m)) => is_parse_error(e, m),
            _ => false,
        },
{
    let trimmed = trim_str(line);
    let mut chars = trimmed.chars();
    let command = next_token(&mut chars);
    if command.as_str().is_empty() {
        return Ok(Command::Empty);
    }
    let c = command.as_str();
    if keyword_matches(c, "REM") {
        let key = match required_token(&mut chars, "missing REM key") {
            Ok(key) => key,
            Err(e) => return Err(e),
        };
        match next_string(&mut chars, "missing REM value") {
            Ok(val) => Ok(Command::Rem(key, val)),
            Err(e) => Err(e),
        }
    } else if keyword_matches(c, "CATALOG") {
        match next_string(&mut chars, "missing CATALOG value") {
            Ok(val) => Ok(Command::Catalog(val)),
            Err(e) => Err(e),
        }
    } else if keyword_matches(c, "CDTEXTFILE") {
        match next_string(&mut chars, "missing CDTEXTFILE value") {
            Ok(val) => Ok(Command::CdTextFile(val)),
            Err(e) => Err(e),
        }
    } else if keyword_matches(c, "TITLE") {
        match next_string(&mut chars, "missing TITLE value") {
            Ok(val) => Ok(Command::Title(val)),
            Err(e) => Err(e),
        }
    } else if keyword_matches(c, "FILE") {
        match next_string(&mut chars, "missing path for FILE") {
            Ok(path) => {
                match required_token(&mut chars, "missing FILE format") {
                    Ok(format) => Ok(Command::File(path, format)),
                    Err(e) => Err(e),
                }
            },
            Err(e) => Err(e),
        }
    } else if keyword_matches(c, "FLAGS") {
        Ok(Command::Flags(next_values(&mut chars)))
    } else if keyword_matches(c, "ISRC") {
        match required_token(&mut chars, "missing ISRC value") {
            Ok(val) => Ok(Command::Isrc(val)),
            Err(e) => Err(e),
        }
    } else if keyword_matches(c, "PERFORMER") {
        match next_string(&mut chars, "missing PERFORMER value") {
            Ok(val) => Ok(Command::Performer(val)),
            Err(e) => Err(e),
        }
    } else if keyword_matches(c, "SONGWRITER") {
        match next_string(&mut chars, "missing SONGWRITER value") {
            Ok(val) => Ok(Command::Songwriter(val)),
            Err(e) => Err(e),
        }
    } else if keyword_matches(c, "TRACK") {
        let val = match required_token(&mut chars, "missing TRACK number") {
            Ok(val) => val,
            Err(e) => return Err(e),
        };
        match required_token(&mut chars, "missing TRACK mode") {
            Ok(mode) => Ok(Command::Track(val, mode)),
            Err(e) => Err(e),
        }
    } else if keyword_matches(c, "PREGAP") {
        match required_token(&mut chars, "missing PREGAP timestamp") {
            Ok(val) => Ok(Command::Pregap(val)),
            Err(e) => Err(e),
        }
    } else if keyword_matches(c, "POSTGAP") {
        match required_token(&mut chars, "missing POSTGAP timestamp") {
            Ok(val) => Ok(Command::Postgap(val)),
            Err(e) => Err(e),
        }
    } else if keyword_matches(c, "INDEX") {
        let val = match required_token(&mut chars, "missing INDEX number") {
            Ok(val) => val,
            Err(e) => return Err(e),
        };
        match required_token(&mut chars, "missing INDEX timestamp") {
            Ok(time) => Ok(Command::Index(val, time)),
            Err(e) => Err(e),
        }
    } else {
        Ok(Command::Unknown(String::from_str(line)))
    }
}

/// The disc has a file.
pub open spec fn has_file(d: CueView) -> bool {
    d.files.len() > 0
}

/// The most recently opened file.
pub open spec fn current_file(d: CueView) -> CueFileView {
    d.files.last()
}

/// The most recently opened file has a track.
pub open spec fn has_track(d: CueView) -> bool {
    has_file(d) && current_file(d).tracks.len() > 0
}

/// The last track of the most recently opened file.
pub open spec fn current_track(d: CueView) -> TrackView {
    current_file(d).tracks.last()
}

/// `d` with `f` in place of its current file.
pub open spec fn with_file(d: CueView, f: CueFileView) -> CueView {
    CueView { files: d.files.update(d.files.len() - 1, f), ..d }
}

/// `d` with `t` in place of its current track.
pub open spec fn with_track(d: CueView, t: TrackView) -> CueView {
    let f = current_file(d);
    with_file(d, CueFileView { tracks: f.tracks.update(f.tracks.len() - 1, t), ..f })
}

/// `d` with its current file taken out.
pub open spec fn without_file(d: CueView) -> CueView {
    CueView { files: d.files.drop_last(), ..d }
}

/// `d` with `f` appended to its files.
pub open spec fn push_file(d: CueView, f: CueFileView) -> CueView {
    CueView { files: d.files.push(f), ..d }
}

/// `d` with its current file's last track taken out.
pub open spec fn without_track(d: CueView) -> CueView {
    let f = current_file(d);
    with_file(d, CueFileView { tracks: f.tracks.drop_last(), ..f })
}

/// `d` with `t` appended to its current file's tracks.
pub open spec fn push_track(d: CueView, t: TrackView) -> CueView {
    let f = current_file(d);
    with_file(d, CueFileView { tracks: f.tracks.push(t), ..f })
}

/// The reason carried by a strict-mode failure.
pub open spec fn strict_reason(reason: Seq<char>) -> Seq<char> {
    "strict mode failure: "@ + reason
}

/// What one line does to the disc: either it is taken in, or it breaks
/// strict mode, with the disc that lenient mode goes on with.
pub enum Outcome {
    Next(CueView),
    Violation(Seq<char>, CueView),
}

/// What the line `line` does to the disc `d`.
pub open spec fn step(d: CueView, line: Seq<char>) -> Outcome {
    match tokenize(line) {
        Err(m) => Outcome::Violation(strict_reason(m), d),
        Ok(c) => match c {
            CommandView::Empty => Outcome::Violation(strict_reason("empty line"@), d),
            CommandView::CdTextFile(p) => Outcome::Next(CueView { cd_text_file: Some(p), ..d }),
            CommandView::Catalog(id) => Outcome::Next(CueView { catalog: Some(id), ..d }),
            CommandView::Flags(flags) => if has_track(d) {
                Outcome::Next(with_track(d, TrackView { flags, ..current_track(d) }))
            } else {
                Outcome::Violation(strict_reason("FLAG assigned to no TRACK"@), d)
            },
            CommandView::Isrc(isrc) => if has_track(d) {
                Outcome::Next(with_track(d, TrackView { isrc: Some(isrc), ..current_track(d) }))
            } else {
                Outcome::Violation(strict_reason("ISRC assigned to no TRACK"@), d)
            },
            CommandView::Rem(key, value) => if has_track(d) {
                let t = current_track(d);
                Outcome::Next(with_track(d, TrackView { comments: t.comments.push((key, value)), ..t }))
            } else if has_file(d) {
                let f = current_file(d);
                Outcome::Next(
                    with_file(d, CueFileView { comments: f.comments.push((key, value)), ..f }),
                )
            } else {
                Outcome::Next(CueView { comments: d.comments.push((key, value)), ..d })
            },
            CommandView::File(path, format) => Outcome::Next(push_file(d, new_file(path, format))),
            CommandView::Track(no, mode) => if has_file(d) {
                Outcome::Next(push_track(d, new_track(no, mode)))
            } else {
                Outcome::Violation(strict_reason("TRACK assigned to no FILE"@), d)
            },
            CommandView::Title(s) => if has_track(d) {
                Outcome::Next(with_track(d, TrackView { title: Some(s), ..current_track(d) }))
            } else {
                Outcome::Next(CueView { title: Some(s), ..d })
            },
            CommandView::Performer(s) => if has_track(d) {
                Outcome::Next(with_track(d, TrackView { performer: Some(s), ..current_track(d) }))
            } else {
                Outcome::Next(CueView { performer: Some(s), ..d })
            },
            CommandView::Songwriter(s) => if has_track(d) {
                Outcome::Next(with_track(d, TrackView { songwriter: Some(s), ..current_track(d) }))
            } else {
                Outcome::Next(CueView { songwriter: Some(s), ..d })
            },
            CommandView::Index(no, time) => if !has_track(d) {
                Outcome::Violation(strict_reason("INDEX assigned to no track"@), d)
            } else if !is_timestamp(time) {
                Outcome::Violation(strict_reason("bad INDEX timestamp"@), d)
            } else {
                let t = current_track(d);
                Outcome::Next(
                    with_track(
                        d,
                        TrackView { indices: t.indices.push((no, timestamp_value(time))), ..t },
                    ),
                )
            },
            CommandView::Pregap(time) => if !has_track(d) {
                Outcome::Violation(strict_reason("PREGAP assigned to no track"@), d)
            } else if !is_timestamp(time) {
                Outcome::Violation(strict_reason("bad PREGAP timestamp"@), d)
            } else {
                Outcome::Next(
                    with_track(
                        d,
                        TrackView { pregap: Some(timestamp_value(time)), ..current_track(d) },
                    ),
                )
            },
            CommandView::Postgap(time) => if !has_track(d) {
                Outcome::Violation(strict_reason("POSTGAP assigned to no track"@), d)
            } else if !is_timestamp(time) {
                Outcome::Violation(strict_reason("bad POSTGAP timestamp"@), d)
            } else {
                Outcome::Next(
                    with_track(
                        d,
                        TrackView { postgap: Some(timestamp_value(time)), ..current_track(d) },
                    ),
                )
            },
            CommandView::Unknown(raw) => Outcome::Violation(
                strict_reason("unknown token -- "@ + raw),
                if has_track(d) {
                    let t = current_track(d);
                    with_track(d, TrackView { unknown: t.unknown.push(raw), ..t })
                } else {
                    CueView { unknown: d.unknown.push(raw), ..d }
                },
            ),
        },
    }
}

/// The disc after the line `line`, or the reason why strict mode stops there.
pub open spec fn apply(d: CueView, line: Seq<char>, strict: bool) -> Result<CueView, Seq<char>> {
    match step(d, line) {
        Outcome::Next(n) => Ok(n),
        Outcome::Violation(m, n) => if strict {
            Err(m)
        } else {
            Ok(n)
        },
    }
}

/// The disc that the lines `lines` describe, or the reason of the first
/// strict-mode failure among them.
pub open spec fn parse_spec(lines: Seq<Seq<char>>, strict: bool) -> Result<CueView, Seq<char>>
    decreases lines.len(),
{
    if lines.len() == 0 {
        Ok(new_cue())
    } else {
        match parse_spec(lines.drop_last(), strict) {
            Ok(d) => apply(d, lines.last(), strict),
            Err(m) => Err(m),
        }
    }
}

proof fn lemma_replace_last<A>(s: Seq<A>, x: A)
    requires
        s.len() > 0,
    ensures
        s.drop_last().push(x) == s.update(s.len() - 1, x),
        s.update(s.len() - 1, s.last()) == s,
{
    assert(s.drop_last().push(x) =~= s.update(s.len() - 1, x));
    assert(s.update(s.len() - 1, s.last()) =~= s);
}

proof fn lemma_update_twice<A>(s: Seq<A>, i: int, x: A, y: A)
    requires
        0 <= i < s.len(),
    ensures
        s.update(i, x).update(i, y) == s.update(i, y),
{
    assert(s.update(i, x).update(i, y) =~= s.update(i, y));
}

/// Taking the current track out and putting `t` back in its place leaves
/// the disc with `t` as its current track.
proof fn lemma_track_put_back(d: CueView, t: TrackView)
    requires
        has_track(d),
    ensures
        has_file(without_track(d)),
        push_track(without_track(d), t) == with_track(d, t),
        push_track(without_track(d), current_track(d)) == d,
{
    let f = current_file(d);
    lemma_replace_last(f.tracks, t);
    lemma_replace_last(d.files, f);
    let f1 = CueFileView { tracks: f.tracks.drop_last(), ..f };
    let f2 = CueFileView { tracks: f.tracks.drop_last().push(t), ..f };
    lemma_update_twice(d.files, d.files.len() - 1, f1, f2);
    let f3 = CueFileView { tracks: f.tracks.drop_last().push(f.tracks.last()), ..f };
    lemma_replace_last(f.tracks, f.tracks.last());
    lemma_update_twice(d.files, d.files.len() - 1, f1, f3);
    assert(f3 == f);
}

/// Taking the current file out and pushing `f` leaves the disc with `f` as
/// its current file.
proof fn lemma_file_put_back(d: CueView, f: CueFileView)
    requires
        has_file(d),
    ensures
        push_file(without_file(d), f) == with_file(d, f),
{
    lemma_replace_last(d.files, f);
}

/// Takes the current file out of the disc.
fn take_file(cue: &mut Cue) -> (r: Option<CueFile>)
    ensures
        match r {
            Some(f) => {
                &&& has_file(old(cue)@)
                &&& f@ == current_file(old(cue)@)
                &&& final(cue)@ == without_file(old(cue)@)
            },
            None => !has_file(old(cue)@) && final(cue)@ == old(cue)@,
        },
{
    let ghost before = cue.files@;
    let r = cue.files.pop();
    proof {
        if before.len() > 0 {
            assert(files_view(cue.files@) =~= files_view(before).drop_last());
        }
    }
    r
}

/// Appends `f` to the files of the disc.
fn put_file(cue: &mut Cue, f: CueFile)
    ensures
        final(cue)@ == push_file(old(cue)@, f@),
{
    let ghost before = cue.files@;
    cue.files.push(f);
    assert(files_view(cue.files@) =~= files_view(before).push(f@));
}

/// Takes the current track out of the disc.
fn take_track(cue: &mut Cue) -> (r: Option<Track>)
    ensures
        match r {
            Some(t) => {
                &&& has_track(old(cue)@)
                &&& t@ == current_track(old(cue)@)
                &&& final(cue)@ == without_track(old(cue)@)
            },
            None => !has_track(old(cue)@) && final(cue)@ == old(cue)@,
        },
{
    let ghost d = cue@;
    match take_file(cue) {
        None => None,
        Some(mut f) => {
            let ghost tracks = f.tracks@;
            let r = f.tracks.pop();
            proof {
                if tracks.len() > 0 {
                    assert(tracks_view(f.tracks@) =~= tracks_view(tracks).drop_last());
                }
                lemma_file_put_back(d, f@);
                if r is None {
                    lemma_replace_last(d.files, current_file(d));
                }
            }
            put_file(cue, f);
            r
        },
    }
}

/// Appends `t` to the tracks of the current file.
fn put_track(cue: &mut Cue, t: Track)
    requires
        has_file(old(cue)@),
    ensures
        final(cue)@ == push_track(old(cue)@, t@),
{
    let ghost d = cue@;
    match take_file(cue) {
        None => {},
        Some(mut f) => {
            let ghost tracks = f.tracks@;
            f.tracks.push(t);
            assert(tracks_view(f.tracks@) =~= tracks_view(tracks).push(
                t@,
            ));
            proof {
                lemma_file_put_back(d, f@);
            }
            put_file(cue, f);
        },
    }
}

/// The parse failure for a strict-mode violation with reason `reason`.
fn strict_failure(reason: &str) -> (e: CueError)
    ensures
        is_parse_error(e, strict_reason(reason@)),
{
    let mut msg = String::from_str("strict mode failure: ");
    msg.append(reason);
    CueError::Parse(msg)
}

proof fn lemma_comments_push(v: Seq<(String, String)>, x: (String, String))
    ensures
        comments_view(v.push(x)) == comments_view(v).push((x.0@, x.1@)),
{
    assert(comments_view(v.push(x)) =~= comments_view(v).push((x.0@, x.1@)));
}

proof fn lemma_indices_push(v: Seq<(String, Duration)>, x: (String, Duration))
    ensures
        indices_view(v.push(x)) == indices_view(v).push((x.0@, x.1)),
{
    assert(indices_view(v.push(x)) =~= indices_view(v).push((x.0@, x.1)));
}

proof fn lemma_lines_push(v: Seq<String>, x: String)
    ensures
        lines_view(v.push(x)) == lines_view(v).push(x@),
{
    assert(lines_view(v.push(x)) =~= lines_view(v).push(x@));
}

/// `Err` with the strict-mode failure for `reason` in strict mode, `Ok` in
/// lenient mode.
fn violation(strict: bool, reason: &str) -> (r: Result<(), CueError>)
    ensures
        match r {
            Ok(_) => !strict,
            Err(e) => strict && is_parse_error(e, strict_reason(reason@)),
        },
{
    if strict {
        Err(strict_failure(reason))
    } else {
        Ok(())
    }
}

/// Applies one line of a CUE sheet to the disc being built.
///
/// Strict mode returns a [`CueError`] if the line is invalid, and the disc
/// is then not to be used; lenient mode skips what it cannot take in.
pub fn apply_line(cue: &mut Cue, line: &str, strict: bool) -> (r: Result<(), CueError>)
    ensures
        match (r, apply(old(cue)@, line@, strict)) {
            (Ok(_), Ok(d)) => final(cue)@ == d,
            (Err(e), Err(m)) => is_parse_error(e, m),
            _ => false,
        },
{
    let ghost d = cue@;
    let command = match tokenize_line(line) {
        Ok(c) => c,
        Err(e) => {
            if !strict {
                return Ok(());
            }
            let reason = e.description();
            return Err(strict_failure(reason.as_str()));
        },
    };
    match command {
        Command::Empty => violation(strict, "empty line"),
        Command::CdTextFile(path) => {
            cue.cd_text_file = Some(path);
            Ok(())
        },
        Command::Catalog(id) => {
            cue.catalog = Some(id);
            Ok(())
        },
        Command::Flags(flags) => match take_track(cue) {
            Some(mut t) => {
                t.flags = flags;
                proof {
                    lemma_track_put_back(d, t@);
                }
                put_track(cue, t);
                Ok(())
            },
            None => violation(strict, "FLAG assigned to no TRACK"),
        },
        Command::Isrc(isrc) => match take_track(cue) {
            Some(mut t) => {
                t.isrc = Some(isrc);
                proof {
                    lemma_track_put_back(d, t@);
                }
                put_track(cue, t);
                Ok(())
            },
            None => violation(strict, "ISRC assigned to no TRACK"),
        },
        Command::Rem(field, value) => {
            let comment = (field, value);
            match take_track(cue) {
                Some(mut t) => {
                    proof {
                        lemma_comments_push(t.comments@, comment);
                    }
                    t.comments.push(comment);
                    proof {
                        lemma_track_put_back(d, t@);
                    }
                    put_track(cue, t);
                },
                None => match take_file(cue) {
                    Some(mut f) => {
                        proof {
                            lemma_comments_push(f.comments@, comment);
                        }
                        f.comments.push(comment);
                        proof {
                            lemma_file_put_back(d, f@);
                        }
                        put_file(cue, f);
                    },
                    None => {
                        proof {
                            lemma_comments_push(cue.comments@, comment);
                        }
                        cue.comments.push(comment);
                    },
                },
            }
            Ok(())
        },
        Command::File(file, format) => {
            put_file(cue, CueFile::new(file.as_str(), format.as_str()));
            Ok(())
        },
        Command::Track(idx, mode) => match take_file(cue) {
            Some(mut f) => {
                let t = Track::new(idx.as_str(), mode.as_str());
                let ghost tracks = f.tracks@;
                f.tracks.push(t);
                proof {
                    assert(tracks_view(f.tracks@) =~= tracks_view(tracks).push(t@));
                    lemma_file_put_back(d, f@);
                }
                put_file(cue, f);
                Ok(())
            },
            None => violation(strict, "TRACK assigned to no FILE"),
        },
        Command::Title(title) => match take_track(cue) {
            Some(mut t) => {
                t.title = Some(title);
                proof {
                    lemma_track_put_back(d, t@);
                }
                put_track(cue, t);
                Ok(())
            },
            None => {
                cue.title = Some(title);
                Ok(())
            },
        },
        Command::Performer(performer) => match take_track(cue) {
            Some(mut t) => {
                t.performer = Some(performer);
                proof {
                    lemma_track_put_back(d, t@);
                }
                put_track(cue, t);
                Ok(())
            },
            None => {
                cue.performer = Some(performer);
                Ok(())
            },
        },
        Command::Songwriter(songwriter) => match take_track(cue) {
            Some(mut t) => {
                t.songwriter = Some(songwriter);
                proof {
                    lemma_track_put_back(d, t@);
                }
                put_track(cue, t);
                Ok(())
            },
            None => {
                cue.songwriter = Some(songwriter);
                Ok(())
            },
        },
        Command::Index(idx, time) => match take_track(cue) {
            Some(mut t) => match timestamp_to_duration(time.as_str()) {
                Ok(duration) => {
                    let index = (idx, duration);
                    proof {
                        lemma_indices_push(t.indices@, index);
                    }
                    t.indices.push(index);
                    proof {
                        lemma_track_put_back(d, t@);
                    }
                    put_track(cue, t);
                    Ok(())
                },
                Err(_) => {
                    proof {
                        lemma_track_put_back(d, t@);
                    }
                    put_track(cue, t);
                    violation(strict, "bad INDEX timestamp")
                },
            },
            None => violation(strict, "INDEX assigned to no track"),
        },
        Command::Pregap(time) => match take_track(cue) {
            Some(mut t) => match timestamp_to_duration(time.as_str()) {
                Ok(duration) => {
                    t.pregap = Some(duration);
                    proof {
                        lemma_track_put_back(d, t@);
                    }
                    put_track(cue, t);
                    Ok(())
                },
                Err(_) => {
                    proof {
                        lemma_track_put_back(d, t@);
                    }
                    put_track(cue, t);
                    violation(strict, "bad PREGAP timestamp")
                },
            },
            None => violation(strict, "PREGAP assigned to no track"),
        },
        Command::Postgap(time) => match take_track(cue) {
            Some(mut t) => match timestamp_to_duration(time.as_str()) {
                Ok(duration) => {
                    t.postgap = Some(duration);
                    proof {
                        lemma_track_put_back(d, t@);
                    }
                    put_track(cue, t);
                    Ok(())
                },
                Err(_) => {
                    proof {
                        lemma_track_put_back(d, t@);
                    }
                    put_track(cue, t);
                    violation(strict, "bad POSTGAP timestamp")
                },
            },
            None => violation(strict, "POSTGAP assigned to no track"),
        },
        Command::Unknown(raw) => {
            if strict {
                let mut reason = String::from_str("unknown token -- ");
                reason.append(raw.as_str());
                return Err(strict_failure(reason.as_str()));
            }
            match take_track(cue) {
                Some(mut t) => {
                    proof {
                        lemma_lines_push(t.unknown@, raw);
                    }
                    t.unknown.push(raw);
                    proof {
                        lemma_track_put_back(d, t@);
                    }
                    put_track(cue, t);
                },
                None => {
                    proof {
                        lemma_lines_push(cue.unknown@, raw);
                    }
                    cue.unknown.push(raw);
                },
            }
            Ok(())
        },
    }
}

/// Once strict mode has stopped on a line, the lines after it change nothing.
proof fn lemma_failure_stays(lines: Seq<Seq<char>>, k: int, strict: bool)
    requires
        0 <= k <= lines.len(),
        parse_spec(lines.take(k), strict) is Err,
    ensures
        parse_spec(lines, strict) == parse_spec(lines.take(k), strict),
    decreases lines.len() - k,
{
    if k < lines.len() {
        assert(lines.take(k + 1).drop_last() =~= lines.take(k));
        lemma_failure_stays(lines, k + 1, strict);
    } else {
        assert(lines.take(k) =~= lines);
    }
}

/// Parses the lines of a CUE sheet into a [`Cue`].
///
/// Strict mode (`strict: true`) returns a [`CueError`] on the first invalid
/// field or extra line. When not in strict mode, bad lines and fields are
/// skipped, and unknown fields are stored in `unknown` of the current track,
/// or of the disc where no track is open.
pub fn parse_lines(lines: &Vec<String>, strict: bool) -> (r: Result<Cue, CueError>)
    ensures
        match (r, parse_spec(lines_view(lines@), strict)) {
            (Ok(c), Ok(d)) => c@ == d,
            (Err(e), Err(m)) => is_parse_error(e, m),
            _ => false,
        },
{
    let ghost all = lines_view(lines@);
    let mut cue = Cue::new();
    let mut i: usize = 0;
    assert(all.take(0) =~= Seq::<Seq<char>>::empty());
    while i < lines.len()
        invariant
            i <= lines.len(),
            all == lines_view(lines@),
            parse_spec(all.take(i as int), strict) == Ok::<CueView, Seq<char>>(cue@),
        decreases lines.len() - i,
    {
        assert(all.take(i + 1).drop_last() =~= all.take(i as int));
        assert(all.take(i + 1).last() == lines@[i as int]@);
        match apply_line(&mut cue, lines[i].as_str(), strict) {
            Ok(_) => {},
            Err(e) => {
                proof {
                    lemma_failure_stays(all, i + 1, strict);
                }
                return Err(e);
            },
        }
        i += 1;
    }
    assert(all.take(i as int) =~= all);
    Ok(cue)
}

/// Where strict parsing succeeds, lenient parsing of the same lines gives
/// the same disc: no line dropped, no extra unknown entry.
pub proof fn lemma_strict_implies_lenient(lines: Seq<Seq<char>>)
    requires
        parse_spec(lines, true) is Ok,
    ensures
        parse_spec(lines, false) == parse_spec(lines, true),
    decreases lines.len(),
{
    if lines.len() > 0 {
        lemma_strict_implies_lenient(lines.drop_last());
    }
}

/// A `TITLE`, `PERFORMER` or `SONGWRITER` line is attached to the most
/// recently opened track if there is one, otherwise to the disc; a `REM` line
/// to the most recently opened track, else file, else the disc. In either
/// mode, and nothing else changes.
pub proof fn lemma_context_attribution(d: CueView, line: Seq<char>, strict: bool)
    ensures
        match tokenize(line) {
            Ok(CommandView::Title(s)) => apply(d, line, strict) == Ok::<CueView, Seq<char>>(
                if has_track(d) {
                    with_track(d, TrackView { title: Some(s), ..current_track(d) })
                } else {
                    CueView { title: Some(s), ..d }
                },
            ),
            Ok(CommandView::Performer(s)) => apply(d, line, strict) == Ok::<CueView, Seq<char>>(
                if has_track(d) {
                    with_track(d, TrackView { performer: Some(s), ..current_track(d) })
                } else {
                    CueView { performer: Some(s), ..d }
                },
            ),
            Ok(CommandView::Songwriter(s)) => apply(d, line, strict) == Ok::<CueView, Seq<char>>(
                if has_track(d) {
                    with_track(d, TrackView { songwriter: Some(s), ..current_track(d) })
                } else {
                    CueView { songwriter: Some(s), ..d }
                },
            ),
            Ok(CommandView::Rem(k, v)) => apply(d, line, strict) == Ok::<CueView, Seq<char>>(
                if has_track(d) {
                    with_track(
                        d,
                        TrackView {
                            comments: current_track(d).comments.push((k, v)),
                            ..current_track(d)
                        },
                    )
                } else if has_file(d) {
                    with_file(
                        d,
                        CueFileView {
                            comments: current_file(d).comments.push((k, v)),
                            ..current_file(d)
                        },
                    )
                } else {
                    CueView { comments: d.comments.push((k, v)), ..d }
                },
            ),
            _ => true,
        },
{
}

/// `with_track` puts `t` where [`current_track`] reads it, and leaves the
/// other tracks and files as they were.
pub proof fn lemma_with_track_current(d: CueView, t: TrackView)
    requires
        has_track(d),
    ensures
        has_track(with_track(d, t)),
        current_track(with_track(d, t)) == t,
        with_track(d, t).files.len() == d.files.len(),
        forall|i: int| 0 <= i < d.files.len() - 1 ==> #[trigger] with_track(d, t).files[i] == d.files[i],
        current_file(with_track(d, t)).tracks.drop_last() == current_file(d).tracks.drop_last(),
{
    let f = current_file(d);
    assert(f.tracks.update(f.tracks.len() - 1, t).drop_last() =~= f.tracks.drop_last());
}

/// The `(path, format)` of each file, in order.
pub open spec fn file_list(files: Seq<CueFileView>) -> Seq<(Seq<char>, Seq<char>)>
    decreases files.len(),
{
    if files.len() == 0 {
        Seq::empty()
    } else {
        file_list(files.drop_last()).push((files.last().file, files.last().format))
    }
}

/// The `(number, format)` of each track, in order.
pub open spec fn track_keys(tracks: Seq<TrackView>) -> Seq<(Seq<char>, Seq<char>)>
    decreases tracks.len(),
{
    if tracks.len() == 0 {
        Seq::empty()
    } else {
        track_keys(tracks.drop_last()).push((tracks.last().no, tracks.last().format))
    }
}

/// The file that the line `line` introduces, if it is a `FILE` command.
pub open spec fn file_introduced(line: Seq<char>) -> Seq<(Seq<char>, Seq<char>)> {
    match tokenize(line) {
        Ok(CommandView::File(path, format)) => seq![(path, format)],
        _ => Seq::empty(),
    }
}

/// The files introduced by `FILE` lines, in the order of the lines.
pub open spec fn introduced_files(lines: Seq<Seq<char>>) -> Seq<(Seq<char>, Seq<char>)>
    decreases lines.len(),
{
    if lines.len() == 0 {
        Seq::empty()
    } else {
        introduced_files(lines.drop_last()) + file_introduced(lines.last())
    }
}

proof fn lemma_update_track_lists(ts: Seq<TrackView>, t2: TrackView)
    requires
        ts.len() > 0,
    ensures
        track_keys(ts.update(ts.len() - 1, t2)) == track_keys(ts.drop_last()).push(
            (t2.no, t2.format),
        ),
        track_keys(ts) == track_keys(ts.drop_last()).push((ts.last().no, ts.last().format)),
{
    assert(ts.update(ts.len() - 1, t2).drop_last() =~= ts.drop_last());
}

proof fn lemma_file_list_len(files: Seq<CueFileView>)
    ensures
        file_list(files).len() == files.len(),
    decreases files.len(),
{
    if files.len() > 0 {
        lemma_file_list_len(files.drop_last());
    }
}

/// What one line does to the files, in order.
proof fn lemma_file_list_step(d: CueView, line: Seq<char>)
    ensures
        file_list(lenient_result(step(d, line)).files) == file_list(d.files) + file_introduced(
            line,
        ),
{
    assert(file_list(d.files) + Seq::empty() =~= file_list(d.files));
    assert forall|f2: CueFileView|
        has_file(d) && f2.file == current_file(d).file && f2.format == current_file(
            d,
        ).format implies file_list(#[trigger] with_file(d, f2).files) == file_list(d.files) by {
        assert(with_file(d, f2).files.drop_last() =~= d.files.drop_last());
    }
    match tokenize(line) {
        Ok(CommandView::File(path, format)) => {
            assert(d.files.push(new_file(path, format)).drop_last() =~= d.files);
        },
        _ => {},
    }
}

/// The `(number, format)` of the tracks of each file, file by file.
pub open spec fn tracks_of_files(files: Seq<CueFileView>) -> Seq<Seq<(Seq<char>, Seq<char>)>> {
    files.map_values(|f: CueFileView| track_keys(f.tracks))
}

/// The indices of each track, track by track.
pub open spec fn track_indices(tracks: Seq<TrackView>) -> Seq<Seq<(Seq<char>, Duration)>> {
    tracks.map_values(|t: TrackView| t.indices)
}

/// The indices of each track of each file, file by file and track by track.
pub open spec fn indices_of_files(files: Seq<CueFileView>) -> Seq<
    Seq<Seq<(Seq<char>, Duration)>>,
> {
    files.map_values(|f: CueFileView| track_indices(f.tracks))
}

/// The tracks grouped by file, `g`, once the line `line` is read: a `FILE`
/// line opens a new group, and a `TRACK` line joins the last group.
pub open spec fn track_groups_after(
    g: Seq<Seq<(Seq<char>, Seq<char>)>>,
    line: Seq<char>,
) -> Seq<Seq<(Seq<char>, Seq<char>)>> {
    match tokenize(line) {
        Ok(CommandView::File(_, _)) => g.push(Seq::empty()),
        Ok(CommandView::Track(no, mode)) => if g.len() > 0 {
            g.update(g.len() - 1, g.last().push((no, mode)))
        } else {
            g
        },
        _ => g,
    }
}

/// The indices grouped by file and track, `g`, once the line `line` is read:
/// a `FILE` line opens a new file group, a `TRACK` line a new track group in
/// the last file group, and an `INDEX` line with a valid timestamp joins the
/// last track group.
pub open spec fn index_groups_after(
    g: Seq<Seq<Seq<(Seq<char>, Duration)>>>,
    line: Seq<char>,
) -> Seq<Seq<Seq<(Seq<char>, Duration)>>> {
    match tokenize(line) {
        Ok(CommandView::File(_, _)) => g.push(Seq::empty()),
        Ok(CommandView::Track(_, _)) => if g.len() > 0 {
            g.update(g.len() - 1, g.last().push(Seq::empty()))
        } else {
            g
        },
        Ok(CommandView::Index(no, time)) => if g.len() > 0 && g.last().len() > 0 && is_timestamp(
            time,
        ) {
            g.update(
                g.len() - 1,
                g.last().update(
                    g.last().len() - 1,
                    g.last().last().push((no, timestamp_value(time))),
                ),
            )
        } else {
            g
        },
        _ => g,
    }
}

/// The `TRACK` lines of `lines`, grouped under the `FILE` line before them.
pub open spec fn grouped_tracks(lines: Seq<Seq<char>>) -> Seq<Seq<(Seq<char>, Seq<char>)>>
    decreases lines.len(),
{
    if lines.len() == 0 {
        Seq::empty()
    } else {
        track_groups_after(grouped_tracks(lines.drop_last()), lines.last())
    }
}

/// The `INDEX` lines of `lines`, grouped under the `FILE` and `TRACK` lines
/// before them.
pub open spec fn grouped_indices(lines: Seq<Seq<char>>) -> Seq<Seq<Seq<(Seq<char>, Duration)>>>
    decreases lines.len(),
{
    if lines.len() == 0 {
        Seq::empty()
    } else {
        index_groups_after(grouped_indices(lines.drop_last()), lines.last())
    }
}

/// The disc that a line leaves, in strict mode where it is taken in, and in
/// lenient mode in any case.
pub open spec fn lenient_result(o: Outcome) -> CueView {
    match o {
        Outcome::Next(n) => n,
        Outcome::Violation(_, n) => n,
    }
}

proof fn lemma_push_track_groups(ts: Seq<TrackView>, t: TrackView)
    ensures
        track_keys(ts.push(t)) == track_keys(ts).push((t.no, t.format)),
        track_indices(ts.push(t)) == track_indices(ts).push(t.indices),
{
    assert(ts.push(t).drop_last() =~= ts);
    assert(track_indices(ts.push(t)) =~= track_indices(ts).push(t.indices));
}

/// What one line does to the tracks of each file and the indices of each
/// track.
proof fn lemma_step_groups(d: CueView, line: Seq<char>)
    ensures
        tracks_of_files(lenient_result(step(d, line)).files) == track_groups_after(
            tracks_of_files(d.files),
            line,
        ),
        indices_of_files(lenient_result(step(d, line)).files) == index_groups_after(
            indices_of_files(d.files),
            line,
        ),
{
    let g1 = tracks_of_files(d.files);
    let g2 = indices_of_files(d.files);
    assert forall|t2: TrackView|
        has_track(d) && t2.no == current_track(d).no && t2.format == current_track(
            d,
        ).format implies {
        &&& tracks_of_files(#[trigger] with_track(d, t2).files) == g1
        &&& indices_of_files(with_track(d, t2).files) == g2.update(
            g2.len() - 1,
            g2.last().update(g2.last().len() - 1, t2.indices),
        )
    } by {
        let f = current_file(d);
        let ts2 = f.tracks.update(f.tracks.len() - 1, t2);
        lemma_update_track_lists(f.tracks, t2);
        assert(track_indices(ts2) =~= track_indices(f.tracks).update(
            f.tracks.len() - 1,
            t2.indices,
        ));
        assert(tracks_of_files(with_track(d, t2).files) =~= g1);
        assert(indices_of_files(with_track(d, t2).files) =~= g2.update(
            g2.len() - 1,
            g2.last().update(g2.last().len() - 1, t2.indices),
        ));
    }
    if has_track(d) {
        let l = g2.last();
        assert(l.update(l.len() - 1, l.last()) =~= l);
        assert(g2.update(g2.len() - 1, l) =~= g2);
    }
    match tokenize(line) {
        Ok(CommandView::Rem(k, v)) => {
            if !has_track(d) && has_file(d) {
                let f = current_file(d);
                let f2 = CueFileView { comments: f.comments.push((k, v)), ..f };
                assert(tracks_of_files(with_file(d, f2).files) =~= g1);
                assert(indices_of_files(with_file(d, f2).files) =~= g2);
            }
        },
        Ok(CommandView::File(path, format)) => {
            let nf = new_file(path, format);
            assert(track_keys(nf.tracks) =~= Seq::empty());
            assert(track_indices(nf.tracks) =~= Seq::empty());
            assert(tracks_of_files(d.files.push(nf)) =~= g1.push(Seq::empty()));
            assert(indices_of_files(d.files.push(nf)) =~= g2.push(Seq::empty()));
        },
        Ok(CommandView::Track(no, mode)) => {
            if has_file(d) {
                let f = current_file(d);
                let nt = new_track(no, mode);
                let f2 = CueFileView { tracks: f.tracks.push(nt), ..f };
                lemma_push_track_groups(f.tracks, nt);
                assert(tracks_of_files(with_file(d, f2).files) =~= g1.update(
                    g1.len() - 1,
                    g1.last().push((no, mode)),
                ));
                assert(indices_of_files(with_file(d, f2).files) =~= g2.update(
                    g2.len() - 1,
                    g2.last().push(Seq::empty()),
                ));
            }
        },
        _ => {},
    }
}

/// For lines that parse, in either mode: the files of the disc are those of
/// the `FILE` lines, in their order; the tracks of each file are the `TRACK`
/// lines that follow its `FILE` line and come before the next one, in their
/// order; and the indices of each track are the `INDEX` lines taken in under
/// it, in their order. So there are as many files as `FILE` lines, and each
/// track and index has exactly one place.
pub proof fn lemma_order_preserved(lines: Seq<Seq<char>>, strict: bool)
    requires
        parse_spec(lines, strict) is Ok,
    ensures
        file_list(parse_spec(lines, strict)->Ok_0.files) == introduced_files(lines),
        parse_spec(lines, strict)->Ok_0.files.len() == introduced_files(lines).len(),
        tracks_of_files(parse_spec(lines, strict)->Ok_0.files) == grouped_tracks(lines),
        indices_of_files(parse_spec(lines, strict)->Ok_0.files) == grouped_indices(lines),
    decreases lines.len(),
{
    if lines.len() > 0 {
        let d = parse_spec(lines.drop_last(), strict)->Ok_0;
        lemma_order_preserved(lines.drop_last(), strict);
        lemma_file_list_step(d, lines.last());
        lemma_step_groups(d, lines.last());
    } else {
        assert(tracks_of_files(new_cue().files) =~= Seq::empty());
        assert(indices_of_files(new_cue().files) =~= Seq::empty());
    }
    lemma_file_list_len(parse_spec(lines, strict)->Ok_0.files);
}

} // verus!
