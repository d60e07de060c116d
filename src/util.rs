use std::str::Chars;
use vstd::prelude::*;
use vstd::std_specs::iter::IteratorSpec;

use crate::cue::{lines_view, Duration};
use crate::errors::{is_parse_error, CueError};

verus! {

broadcast use {vstd::string::next_postcondition, vstd::string::axiom_spec_iter};

/// Relies on `String::push`: the character is appended at the end.
pub assume_specification[ String::push ](s: &mut String, ch: char)
    ensures
        final(s)@ == old(s)@.push(ch),
;

/// Unicode's White_Space property, which `char::is_whitespace` follows.
pub open spec fn is_ws(c: char) -> bool {
    let u = c as u32;
    (0x9 <= u && u <= 0xd) || u == 0x20 || u == 0x85 || u == 0xa0 || u == 0x1680 || (0x2000 <= u
        && u <= 0x200a) || u == 0x2028 || u == 0x2029 || u == 0x202f || u == 0x205f || u == 0x3000
}

/// Whether `c` is a whitespace character.
pub fn is_whitespace(c: char) -> (r: bool)
    ensures
        r == is_ws(c),
{
    let u = c as u32;
    (0x9 <= u && u <= 0xd) || u == 0x20 || u == 0x85 || u == 0xa0 || u == 0x1680 || (0x2000 <= u
        && u <= 0x200a) || u == 0x2028 || u == 0x2029 || u == 0x202f || u == 0x205f || u == 0x3000
}

/// The characters of `s` up to its first whitespace.
pub open spec fn token_of(s: Seq<char>) -> Seq<char>
    decreases s.len(),
{
    if s.len() == 0 || is_ws(s[0]) {
        Seq::empty()
    } else {
        seq![s[0]] + token_of(s.drop_first())
    }
}

/// What is left of `s` once its leading token and the one whitespace
/// character that ends it are taken.
pub open spec fn after_token(s: Seq<char>) -> Seq<char>
    decreases s.len(),
{
    if s.len() == 0 {
        s
    } else if is_ws(s[0]) {
        s.drop_first()
    } else {
        after_token(s.drop_first())
    }
}

/// Returns the next token from a [`Chars`].
/// This does *not* ignore leading whitespace: the token ends at the first
/// whitespace character, which is consumed as well.
///
/// `chars` is one that `str::chars` made (and that these functions have
/// advanced), which gives it a termination measure.
pub fn next_token(chars: &mut Chars) -> (r: String)
    requires
        (*old(chars)).decrease() is Some,
    ensures
        (*final(chars)).decrease() is Some,
        r@ == token_of((*old(chars)).remaining()),
        (*final(chars)).remaining() == after_token((*old(chars)).remaining()),
{
    let ghost start = (*chars).remaining();
    let mut token = String::new();
    loop
        invariant
            start == (*old(chars)).remaining(),
            token_of(start) == token@ + token_of((*chars).remaining()),
            after_token(start) == after_token((*chars).remaining()),
            (*chars).decrease() is Some,
        decreases (*chars).decrease()->0,
    {
        match chars.next() {
            None => {
                assert(token@ + Seq::<char>::empty() =~= token@);
                return token;
            },
            Some(c) => {
                if is_whitespace(c) {
                    assert(token@ + Seq::<char>::empty() =~= token@);
                    return token;
                }
                assert(token@ + (seq![c] + token_of((*chars).remaining())) =~= token@.push(c)
                    + token_of((*chars).remaining()));
                token.push(c);
            },
        }
    }
}

/// The whitespace-separated words of `s`, the word being read so far being
/// `cur`.
pub open spec fn words_from(s: Seq<char>, cur: Seq<char>) -> Seq<Seq<char>>
    decreases s.len(),
{
    if s.len() == 0 {
        if cur.len() == 0 {
            Seq::empty()
        } else {
            seq![cur]
        }
    } else if is_ws(s[0]) {
        if cur.len() == 0 {
            words_from(s.drop_first(), cur)
        } else {
            seq![cur] + words_from(s.drop_first(), Seq::empty())
        }
    } else {
        words_from(s.drop_first(), cur.push(s[0]))
    }
}

/// The non-empty words of `s`, split on runs of whitespace.
pub open spec fn words(s: Seq<char>) -> Seq<Seq<char>> {
    words_from(s, Seq::empty())
}

/// Returns the rest of a [`Chars`] as a list of values, split by whitespace.
///
/// `chars` is one that `str::chars` made (and that these functions have
/// advanced), which gives it a termination measure.
pub fn next_values(chars: &mut Chars) -> (r: Vec<String>)
    requires
        (*old(chars)).decrease() is Some,
    ensures
        lines_view(r@) == words((*old(chars)).remaining()),
        (*final(chars)).remaining().len() == 0,
{
    let ghost start = (*chars).remaining();
    let mut out: Vec<String> = Vec::new();
    let mut cur = String::new();
    loop
        invariant
            start == (*old(chars)).remaining(),
            words(start) == lines_view(out@) + words_from((*chars).remaining(), cur@),
            (*chars).decrease() is Some,
        decreases (*chars).decrease()->0,
    {
        match chars.next() {
            None => {
                if cur.as_str().is_empty() {
                    assert(lines_view(out@) + Seq::<Seq<char>>::empty() =~= lines_view(out@));
                } else {
                    let ghost before = out@;
                    out.push(cur);
                    assert(lines_view(out@) =~= lines_view(before) + seq![cur@]);
                }
                return out;
            },
            Some(c) => {
                if is_whitespace(c) {
                    if !cur.as_str().is_empty() {
                        let ghost before = out@;
                        let ghost rest = (*chars).remaining();
                        out.push(cur);
                        cur = String::new();
                        assert(lines_view(out@) + words_from(rest, Seq::empty())
                            =~= lines_view(before) + (seq![out@.last()@] + words_from(
                            rest,
                            Seq::empty(),
                        )));
                    }
                } else {
                    cur.push(c);
                }
            },
        }
    }
}

/// Collects the characters of `s`.
pub(crate) fn chars_of(s: &str) -> (r: Vec<char>)
    ensures
        r@ == s@,
{
    let mut chars = s.chars();
    let mut out: Vec<char> = Vec::new();
    loop
        invariant
            s@ == out@ + chars.remaining(),
            chars.decrease() is Some,
        decreases chars.decrease()->0,
    {
        match chars.next() {
            None => {
                assert(out@ + Seq::<char>::empty() =~= out@);
                return out;
            },
            Some(c) => {
                assert(out@ + (seq![c] + chars.remaining()) =~= out@.push(c) + chars.remaining());
                out.push(c);
            },
        }
    }
}

/// The string made of `v[from..to]`.
fn string_of_range(v: &Vec<char>, from: usize, to: usize) -> (r: String)
    requires
        from <= to <= v.len(),
    ensures
        r@ == v@.subrange(from as int, to as int),
{
    let mut out = String::new();
    let mut i = from;
    while i < to
        invariant
            from <= i <= to <= v.len(),
            out@ == v@.subrange(from as int, i as int),
        decreases to - i,
    {
        out.push(v[i]);
        i += 1;
        assert(out@ =~= v@.subrange(from as int, i as int));
    }
    out
}

/// `s` with each `\"` replaced by `"`, read from left to right.
pub open spec fn replace_escaped_quotes(s: Seq<char>) -> Seq<char>
    decreases s.len(),
{
    if s.len() == 0 {
        s
    } else if s.len() >= 2 && s[0] == '\\' && s[1] == '"' {
        seq!['"'] + replace_escaped_quotes(s.skip(2))
    } else {
        seq![s[0]] + replace_escaped_quotes(s.drop_first())
    }
}

/// `s` without one pair of surrounding double quotes, where both are there.
pub open spec fn strip_quotes(s: Seq<char>) -> Seq<char> {
    if s.len() >= 2 && s[0] == '"' && s.last() == '"' {
        s.subrange(1, s.len() - 1)
    } else {
        s
    }
}

/// A CUE field with its escapes resolved and its surrounding quotes taken off.
pub open spec fn unescape(s: Seq<char>) -> Seq<char> {
    strip_quotes(replace_escaped_quotes(s))
}

/// Unescapes a string in a CUE field.
///
/// Strings in a CUE field are delimited by double quotation marks (`"`):
/// each `\"` becomes `"`, and one pair of surrounding quotes is removed.
pub fn unescape_quotes(s: &str) -> (r: String)
    ensures
        r@ == unescape(s@),
{
    let v = chars_of(s);
    let n = v.len();
    let mut out: Vec<char> = Vec::new();
    let mut i: usize = 0;
    assert(s@.skip(0) =~= s@);
    assert(out@ + s@ =~= s@);
    while i < n
        invariant
            n == v.len(),
            i <= n,
            v@ == s@,
            replace_escaped_quotes(s@) == out@ + replace_escaped_quotes(s@.skip(i as int)),
        decreases n - i,
    {
        let ghost rest = s@.skip(i as int);
        if i + 1 < n && v[i] == '\\' && v[i + 1] == '"' {
            out.push('"');
            i += 2;
            assert(rest.skip(2) =~= s@.skip(i as int));
        } else {
            out.push(v[i]);
            i += 1;
            assert(rest.drop_first() =~= s@.skip(i as int));
        }
        assert(out@.drop_last() + (seq![out@.last()] + replace_escaped_quotes(s@.skip(i as int)))
            =~= out@ + replace_escaped_quotes(s@.skip(i as int)));
    }
    assert(s@.skip(n as int) =~= Seq::<char>::empty());
    assert(out@ + Seq::<char>::empty() =~= out@);
    let m = out.len();
    if m >= 2 && out[0] == '"' && out[m - 1] == '"' {
        string_of_range(&out, 1, m - 1)
    } else {
        assert(out@.subrange(0, m as int) =~= out@);
        string_of_range(&out, 0, m)
    }
}

/// The inside of a quoted string whose opening quote has been read: up to
/// the first double quote that no backslash escapes. `escaped` says that
/// the character before `s` was an escaping backslash.
pub open spec fn quoted_body(s: Seq<char>, escaped: bool) -> Seq<char>
    decreases s.len(),
{
    if s.len() == 0 {
        s
    } else if escaped {
        seq![s[0]] + quoted_body(s.drop_first(), false)
    } else if s[0] == '\\' {
        seq![s[0]] + quoted_body(s.drop_first(), true)
    } else if s[0] == '"' {
        Seq::empty()
    } else {
        seq![s[0]] + quoted_body(s.drop_first(), false)
    }
}

/// What follows the closing quote of the string that [`quoted_body`] reads.
pub open spec fn after_quoted(s: Seq<char>, escaped: bool) -> Seq<char>
    decreases s.len(),
{
    if s.len() == 0 {
        s
    } else if escaped {
        after_quoted(s.drop_first(), false)
    } else if s[0] == '\\' {
        after_quoted(s.drop_first(), true)
    } else if s[0] == '"' {
        s.drop_first()
    } else {
        after_quoted(s.drop_first(), false)
    }
}

/// `s` without its first character, if it has one.
pub open spec fn skip_one(s: Seq<char>) -> Seq<char> {
    if s.len() == 0 {
        s
    } else {
        s.drop_first()
    }
}

/// The string that starts `s`: a quoted one if `s` starts with `"`, else a
/// bare word; unescaped in both cases.
pub open spec fn string_of(s: Seq<char>) -> Seq<char>
    recommends
        s.len() > 0,
{
    if s[0] == '"' {
        unescape(quoted_body(s.drop_first(), false))
    } else {
        unescape(seq![s[0]] + token_of(s.drop_first()))
    }
}

/// What is left of `s` once the string that starts it is read, with the
/// character that follows a quoted string.
pub open spec fn after_string(s: Seq<char>) -> Seq<char>
    recommends
        s.len() > 0,
{
    if s[0] == '"' {
        skip_one(after_quoted(s.drop_first(), false))
    } else {
        after_token(s.drop_first())
    }
}

/// Returns the next bare (single-word) or quoted (single- or multi-word)
/// string. This does *not* ignore leading whitespace.
///
/// Fails with a parse error that reads `error` when no character is left.
///
/// `chars` is one that `str::chars` made (and that these functions have
/// advanced), which gives it a termination measure.
pub fn next_string(chars: &mut Chars, error: &str) -> (r: Result<String, CueError>)
    requires
        (*old(chars)).decrease() is Some,
    ensures
        (*final(chars)).decrease() is Some,
        match r {
            Ok(v) => {
                &&& (*old(chars)).remaining().len() > 0
                &&& v@ == string_of((*old(chars)).remaining())
                &&& (*final(chars)).remaining() == after_string((*old(chars)).remaining())
            },
            Err(e) => {
                &&& (*old(chars)).remaining().len() == 0
                &&& is_parse_error(e, error@)
                &&& (*final(chars)).remaining() == (*old(chars)).remaining()
            },
        },
{
    let ghost start = (*chars).remaining();
    let first = match chars.next() {
        None => {
            return Err(CueError::Parse(String::from_str(error)));
        },
        Some(c) => c,
    };
    if first == '"' {
        let ghost body_start = (*chars).remaining();
        let mut escaped = false;
        let mut body = String::new();
        loop
            invariant_except_break
                quoted_body(body_start, false) == body@ + quoted_body((*chars).remaining(), escaped),
                after_quoted(body_start, false) == after_quoted((*chars).remaining(), escaped),
            invariant
                start == (*old(chars)).remaining(),
                start.len() > 0,
                start[0] == '"',
                body_start == start.drop_first(),
                (*chars).decrease() is Some,
            ensures
                quoted_body(body_start, false) == body@,
                after_quoted(body_start, false) == (*chars).remaining(),
            decreases (*chars).decrease()->0,
        {
            let ghost rest = (*chars).remaining();
            match chars.next() {
                None => {
                    assert(body@ + Seq::<char>::empty() =~= body@);
                    break ;
                },
                Some(c) => {
                    if !escaped && c == '\\' {
                        escaped = true;
                    } else if escaped {
                        escaped = false;
                    } else if c == '"' {
                        assert(body@ + Seq::<char>::empty() =~= body@);
                        break ;
                    }
                    assert(body@ + (seq![c] + quoted_body((*chars).remaining(), escaped))
                        =~= body@.push(c) + quoted_body((*chars).remaining(), escaped));
                    body.push(c);
                },
            }
        }
        let _ = chars.next();
        Ok(unescape_quotes(body.as_str()))
    } else {
        let mut word = String::new();
        word.push(first);
        let tail = next_token(chars);
        word.append(tail.as_str());
        Ok(unescape_quotes(word.as_str()))
    }
}

/// The characters `0` to `9`.
pub open spec fn is_digit(c: char) -> bool {
    '0' as u32 <= c as u32 <= '9' as u32
}

/// The value of a decimal digit.
pub open spec fn digit_value(c: char) -> nat {
    (c as u32 - '0' as u32) as nat
}

/// `s` has the shape `NN:NN:NN`, each `N` an ASCII digit.
pub open spec fn is_timestamp(s: Seq<char>) -> bool {
    &&& s.len() == 8
    &&& is_digit(s[0]) && is_digit(s[1])
    &&& s[2] == ':'
    &&& is_digit(s[3]) && is_digit(s[4])
    &&& s[5] == ':'
    &&& is_digit(s[6]) && is_digit(s[7])
}

/// The two-digit number at `s[i]`, `s[i + 1]`.
pub open spec fn two_digits(s: Seq<char>, i: int) -> nat {
    digit_value(s[i]) * 10 + digit_value(s[i + 1])
}

/// The span of `minutes:seconds:frames`, 75 frames to the second.
pub open spec fn frames_duration(minutes: nat, seconds: nat, frames: nat) -> Duration {
    Duration {
        secs: (minutes * 60 + seconds + frames / 75) as u64,
        nanos: ((frames % 75) * 1_000_000_000 / 75) as u32,
    }
}

/// The span that a timestamp `MM:SS:FF` stands for.
pub open spec fn timestamp_value(s: Seq<char>) -> Duration {
    frames_duration(two_digits(s, 0), two_digits(s, 3), two_digits(s, 6))
}

/// Reads the two-digit number at `v[i]`, `v[i + 1]`, if both are digits.
fn read_two_digits(v: &Vec<char>, i: usize) -> (r: Option<u64>)
    requires
        i + 1 < v.len(),
    ensures
        match r {
            Some(n) => is_digit(v@[i as int]) && is_digit(v@[i + 1]) && n == two_digits(
                v@,
                i as int,
            ),
            None => !(is_digit(v@[i as int]) && is_digit(v@[i + 1])),
        },
{
    let a = v[i] as u32;
    let b = v[i + 1] as u32;
    if '0' as u32 <= a && a <= '9' as u32 && '0' as u32 <= b && b <= '9' as u32 {
        Some(((a - '0' as u32) * 10 + (b - '0' as u32)) as u64)
    } else {
        None
    }
}

/// Converts a CUE timestamp (`MM:SS:FF`) to a [`Duration`], where each frame
/// `FF` is `1 / 75` of a second.
///
/// Fails if the timestamp is not two ASCII digits for each of its three
/// fields, separated by colons.
pub fn timestamp_to_duration(s: &str) -> (r: Result<Duration, CueError>)
    ensures
        match r {
            Ok(d) => is_timestamp(s@) && d == timestamp_value(s@),
            Err(e) => !is_timestamp(s@) && is_parse_error(e, "invalid timestamp: "@ + s@),
        },
{
    let v = chars_of(s);
    let fields = if v.len() == 8 && v[2] == ':' && v[5] == ':' {
        match (read_two_digits(&v, 0), read_two_digits(&v, 3), read_two_digits(&v, 6)) {
            (Some(m), Some(sec), Some(f)) => Some((m, sec, f)),
            _ => None,
        }
    } else {
        None
    };
    match fields {
        Some((minutes, seconds, frames)) => {
            assert((frames % 75) * 1_000_000_000 < 75 * 1_000_000_000) by (nonlinear_arith)
                requires
                    frames % 75 < 75,
            ;
            let nanos = ((frames % 75) * 1_000_000_000 / 75) as u32;
            Ok(Duration { secs: minutes * 60 + seconds + frames / 75, nanos })
        },
        None => {
            let mut msg = String::from_str("invalid timestamp: ");
            msg.append(s);
            Err(CueError::Parse(msg))
        },
    }
}

/// The character of the decimal digit `n`.
pub open spec fn digit_char(n: nat) -> char
    recommends
        n < 10,
{
    seq!['0', '1', '2', '3', '4', '5', '6', '7', '8', '9'][n as int]
}

/// The timestamp `MM:SS:FF` written with two digits for each field.
pub open spec fn render_timestamp(minutes: nat, seconds: nat, frames: nat) -> Seq<char> {
    seq![
        digit_char(minutes / 10),
        digit_char(minutes % 10),
        ':',
        digit_char(seconds / 10),
        digit_char(seconds % 10),
        ':',
        digit_char(frames / 10),
        digit_char(frames % 10),
    ]
}

proof fn lemma_digit_char(n: nat)
    requires
        n < 10,
    ensures
        is_digit(digit_char(n)),
        digit_value(digit_char(n)) == n,
{
    assert(is_digit(digit_char(n)) && digit_value(digit_char(n)) == n) by {
        if n == 0 {
        } else if n == 1 {
        } else if n == 2 {
        } else if n == 3 {
        } else if n == 4 {
        } else if n == 5 {
        } else if n == 6 {
        } else if n == 7 {
        } else if n == 8 {
        } else {
        }
    }
}

/// Any `mm`, `ss` and `ff` of at most 99, written `mm:ss:ff` with two digits
/// each, are read back as `mm * 60 + ss + ff / 75` seconds (rounded down)
/// and the rest of `ff / 75` in nanoseconds (truncated).
pub proof fn lemma_timestamp_round_trip(mm: nat, ss: nat, ff: nat)
    requires
        mm <= 99,
        ss <= 99,
        ff <= 99,
    ensures
        is_timestamp(render_timestamp(mm, ss, ff)),
        timestamp_value(render_timestamp(mm, ss, ff)).secs == mm * 60 + ss + ff / 75,
        timestamp_value(render_timestamp(mm, ss, ff)).nanos == (ff % 75) * 1_000_000_000 / 75,
{
    lemma_digit_char(mm / 10);
    lemma_digit_char(mm % 10);
    lemma_digit_char(ss / 10);
    lemma_digit_char(ss % 10);
    lemma_digit_char(ff / 10);
    lemma_digit_char(ff % 10);
    let s = render_timestamp(mm, ss, ff);
    assert(two_digits(s, 0) == mm);
    assert(two_digits(s, 3) == ss);
    assert(two_digits(s, 6) == ff);
    assert((ff % 75) * 1_000_000_000 / 75 < 1_000_000_000) by (nonlinear_arith)
        requires
            ff % 75 < 75,
    ;
}

proof fn lemma_no_escapes_kept(s: Seq<char>)
    requires
        forall|i: int| 0 <= i < s.len() - 1 ==> !(s[i] == '\\' && #[trigger] s[i + 1] == '"'),
    ensures
        replace_escaped_quotes(s) == s,
    decreases s.len(),
{
    if s.len() > 0 {
        let t = s.drop_first();
        assert forall|i: int| 0 <= i < t.len() - 1 implies !(t[i] == '\\' && #[trigger] t[i + 1]
            == '"') by {
            assert(t[i] == s[i + 1] && t[i + 1] == s[i + 2]);
        }
        lemma_no_escapes_kept(t);
        if s.len() >= 2 {
            assert(!(s[0] == '\\' && s[1] == '"'));
        }
        assert(seq![s[0]] + t =~= s);
    }
}

/// Unescaping a string that has no pair of surrounding quotes and no `\"`
/// returns it unchanged.
pub proof fn lemma_unescape_plain(s: Seq<char>)
    requires
        !(s.len() >= 2 && s[0] == '"' && s.last() == '"'),
        forall|i: int| 0 <= i < s.len() - 1 ==> !(s[i] == '\\' && #[trigger] s[i + 1] == '"'),
    ensures
        unescape(s) == s,
{
    lemma_no_escapes_kept(s);
}

} // verus!
