use vstd::prelude::*;

verus! {

/// Nanoseconds in one second.
pub const NANOS_PER_SEC: u32 = 1_000_000_000;

/// A span of time: whole seconds and the nanoseconds of the second that
/// follows them.
#[derive(Clone, Copy, Debug, PartialEq, Eq, Structural)]
pub struct Duration {
    /// Whole seconds
    pub secs: u64,
    /// Nanoseconds past `secs`, below one second
    pub nanos: u32,
}

impl Duration {
    /// Constructs a [`Duration`] of `secs` seconds and `nanos` nanoseconds.
    pub fn new(secs: u64, nanos: u32) -> (r: Duration)
        requires
            nanos < NANOS_PER_SEC,
        ensures
            r.secs == secs,
            r.nanos == nanos,
    {
        Duration { secs, nanos }
    }

    /// Whole seconds of the span.
    pub fn as_secs(&self) -> (r: u64)
        ensures
            r == self.secs,
    {
        self.secs
    }

    /// Nanoseconds past the whole seconds.
    pub fn subsec_nanos(&self) -> (r: u32)
        ensures
            r == self.nanos,
    {
        self.nanos
    }
}

/// The view of an optional string.
pub open spec fn opt_view(o: Option<String>) -> Option<Seq<char>> {
    match o {
        Some(s) => Some(s@),
        None => None,
    }
}

/// The views of a list of `(key, value)` comments.
pub open spec fn comments_view(v: Seq<(String, String)>) -> Seq<(Seq<char>, Seq<char>)> {
    v.map_values(|p: (String, String)| (p.0@, p.1@))
}

/// The views of a list of `(index, timestamp)` pairs.
pub open spec fn indices_view(v: Seq<(String, Duration)>) -> Seq<(Seq<char>, Duration)> {
    v.map_values(|p: (String, Duration)| (p.0@, p.1))
}

/// The views of a list of strings.
pub open spec fn lines_view(v: Seq<String>) -> Seq<Seq<char>> {
    v.map_values(|s: String| s@)
}

/// Represents a CUE command in a CUE sheet.
#[derive(Clone, Debug, PartialEq)]
pub enum Command {
    /// ignore comment
    Rem(String, String),
    /// Media Catalog Number (MCN) of the disc
    Catalog(String),
    /// Path to the file containing the CD-Text meta-data of the disc
    CdTextFile(String),
    /// Special sub-code flags for a track
    Flags(Vec<String>),
    /// The International Standard Recording Code for a track, typically CCOOOYYSSSSS
    ///
    /// C: Country code (uppercase alphanumeric)
    /// O: Owner code (uppercase alphanumeric)
    /// Y: Year (numeric)
    /// S: Serial number (numeric)
    Isrc(String),
    /// Songwriter for a disc or a track
    Songwriter(String),
    /// Performer for a disc or a track
    Performer(String),
    /// Title for a disc or a track
    Title(String),
    /// (file name, file type) of a disc, to be used by tracks
    File(String, String),
    /// A track on a disc
    Track(String, String),
    /// Defines the index of a track on the disc
    Index(String, String),
    /// Length of a track's pregap, (mm:ss:ff) where each frame is 1/75 of a second
    Pregap(String),
    /// Length of a track's postgap (mm:ss:ff) where each frame is 1/75 of a second
    Postgap(String),
    /// Unknown command
    Unknown(String),
    /// Not a command
    Empty,
}

/// A [`Command`] with its strings as character sequences.
pub enum CommandView {
    Rem(Seq<char>, Seq<char>),
    Catalog(Seq<char>),
    CdTextFile(Seq<char>),
    Flags(Seq<Seq<char>>),
    Isrc(Seq<char>),
    Songwriter(Seq<char>),
    Performer(Seq<char>),
    Title(Seq<char>),
    File(Seq<char>, Seq<char>),
    Track(Seq<char>, Seq<char>),
    Index(Seq<char>, Seq<char>),
    Pregap(Seq<char>),
    Postgap(Seq<char>),
    Unknown(Seq<char>),
    Empty,
}

impl View for Command {
    type V = CommandView;

    open spec fn view(&self) -> CommandView {
        match self {
            Command::Rem(k, v) => CommandView::Rem(k@, v@),
            Command::Catalog(s) => CommandView::Catalog(s@),
            Command::CdTextFile(s) => CommandView::CdTextFile(s@),
            Command::Flags(v) => CommandView::Flags(lines_view(v@)),
            Command::Isrc(s) => CommandView::Isrc(s@),
            Command::Songwriter(s) => CommandView::Songwriter(s@),
            Command::Performer(s) => CommandView::Performer(s@),
            Command::Title(s) => CommandView::Title(s@),
            Command::File(p, f) => CommandView::File(p@, f@),
            Command::Track(n, m) => CommandView::Track(n@, m@),
            Command::Index(n, t) => CommandView::Index(n@, t@),
            Command::Pregap(s) => CommandView::Pregap(s@),
            Command::Postgap(s) => CommandView::Postgap(s@),
            Command::Unknown(s) => CommandView::Unknown(s@),
            Command::Empty => CommandView::Empty,
        }
    }
}

/// Represents a TRACK in a [`CueFile`].
#[derive(Clone, Debug, PartialEq)]
pub struct Track {
    /// Track number
    pub no: String,
    /// Track format (eg. AUDIO)
    pub format: String,
    /// Title for the track
    pub title: Option<String>,
    /// Performer for the track
    pub performer: Option<String>,
    /// (index, timestamp)
    pub indices: Vec<(String, Duration)>,
    /// Pregap of the track in `Duration`, converted from frames (75 frames = 1s)
    pub pregap: Option<Duration>,
    /// Postgap of the track in `Duration`, converted from frames (75 frames = 1s)
    pub postgap: Option<Duration>,
    /// (key, value)
    pub comments: Vec<(String, String)>,
    /// International Standard Recording Code, typically CCOOOYYSSSSS
    ///
    /// C: Country code (uppercase alphanumeric)
    /// O: Owner code (uppercase alphanumeric)
    /// Y: Year (numeric)
    /// S: Serial number (numeric)
    pub isrc: Option<String>,
    /// Track special sub-code flags (DCP, 4CH, PRE, SCMS)
    pub flags: Vec<String>,
    /// Songwriter for the track
    pub songwriter: Option<String>,
    /// Raw lines from unhandled fields
    pub unknown: Vec<String>,
}

/// The mathematical content of a [`Track`].
pub struct TrackView {
    pub no: Seq<char>,
    pub format: Seq<char>,
    pub title: Option<Seq<char>>,
    pub performer: Option<Seq<char>>,
    pub indices: Seq<(Seq<char>, Duration)>,
    pub pregap: Option<Duration>,
    pub postgap: Option<Duration>,
    pub comments: Seq<(Seq<char>, Seq<char>)>,
    pub isrc: Option<Seq<char>>,
    pub flags: Seq<Seq<char>>,
    pub songwriter: Option<Seq<char>>,
    pub unknown: Seq<Seq<char>>,
}

/// A track numbered `no`, of format `format`, with nothing else set.
pub open spec fn new_track(no: Seq<char>, format: Seq<char>) -> TrackView {
    TrackView {
        no,
        format,
        title: None,
        performer: None,
        indices: Seq::empty(),
        pregap: None,
        postgap: None,
        comments: Seq::empty(),
        isrc: None,
        flags: Seq::empty(),
        songwriter: None,
        unknown: Seq::empty(),
    }
}

impl View for Track {
    type V = TrackView;

    open spec fn view(&self) -> TrackView {
        TrackView {
            no: self.no@,
            format: self.format@,
            title: opt_view(self.title),
            performer: opt_view(self.performer),
            indices: indices_view(self.indices@),
            pregap: self.pregap,
            postgap: self.postgap,
            comments: comments_view(self.comments@),
            isrc: opt_view(self.isrc),
            flags: lines_view(self.flags@),
            songwriter: opt_view(self.songwriter),
            unknown: lines_view(self.unknown@),
        }
    }
}

impl Track {
    /// Constructs a new [`Track`].
    pub fn new(no: &str, format: &str) -> (r: Self)
        ensures
            r@ == new_track(no@, format@),
    {
        let r = Self {
            songwriter: None,
            no: String::from_str(no),
            format: String::from_str(format),
            title: None,
            performer: None,
            pregap: None,
            postgap: None,
            indices: Vec::new(),
            comments: Vec::new(),
            unknown: Vec::new(),
            flags: Vec::new(),
            isrc: None,
        };
        assert(r@.indices =~= Seq::empty());
        assert(r@.comments =~= Seq::empty());
        assert(r@.flags =~= Seq::empty());
        assert(r@.unknown =~= Seq::empty());
        r
    }
}

/// Represents a FILE in a [`Cue`].
#[derive(Clone, Debug, PartialEq)]
pub struct CueFile {
    /// Path to file
    pub file: String,
    /// Format (WAVE, MP3, AIFF, BINARY - little endian, MOTOROLA - big endian)
    /// AIFF, WAVE, MP3 are assumed to be 44.1KHz, 16bit and stereo
    pub format: String,
    /// Tracks in this file
    pub tracks: Vec<Track>,
    /// (key, value)
    pub comments: Vec<(String, String)>,
}

/// The mathematical content of a [`CueFile`].
pub struct CueFileView {
    pub file: Seq<char>,
    pub format: Seq<char>,
    pub tracks: Seq<TrackView>,
    pub comments: Seq<(Seq<char>, Seq<char>)>,
}

/// A file at `file`, of format `format`, with no track and no comment.
pub open spec fn new_file(file: Seq<char>, format: Seq<char>) -> CueFileView {
    CueFileView { file, format, tracks: Seq::empty(), comments: Seq::empty() }
}

/// The views of a list of tracks.
pub open spec fn tracks_view(v: Seq<Track>) -> Seq<TrackView> {
    v.map_values(|t: Track| t@)
}

impl View for CueFile {
    type V = CueFileView;

    open spec fn view(&self) -> CueFileView {
        CueFileView {
            file: self.file@,
            format: self.format@,
            tracks: tracks_view(self.tracks@),
            comments: comments_view(self.comments@),
        }
    }
}

impl CueFile {
    /// Constructs a new [`CueFile`].
    pub fn new(file: &str, format: &str) -> (r: Self)
        ensures
            r@ == new_file(file@, format@),
    {
        let r = Self {
            file: String::from_str(file),
            tracks: Vec::new(),
            format: String::from_str(format),
            comments: Vec::new(),
        };
        assert(r@.tracks =~= Seq::empty());
        assert(r@.comments =~= Seq::empty());
        r
    }
}

/// Represents a CUE sheet.
#[derive(Clone, Debug, Default)]
pub struct Cue {
    /// Path to the data used for the following TRACK commands
    pub files: Vec<CueFile>,
    /// Title for the entire disc
    pub title: Option<String>,
    /// Performer for the entire disc
    pub performer: Option<String>,
    /// Songwriter for the entire disc
    pub songwriter: Option<String>,
    /// Filename containing the CD-Text metadata of the disc
    pub cd_text_file: Option<String>,
    /// Media Catalog Number (13 decimal digits)
    pub catalog: Option<String>,
    /// (key, value)
    pub comments: Vec<(String, String)>,
    /// Unparsed lines
    pub unknown: Vec<String>,
}

/// The mathematical content of a [`Cue`].
pub struct CueView {
    pub files: Seq<CueFileView>,
    pub title: Option<Seq<char>>,
    pub performer: Option<Seq<char>>,
    pub songwriter: Option<Seq<char>>,
    pub cd_text_file: Option<Seq<char>>,
    pub catalog: Option<Seq<char>>,
    pub comments: Seq<(Seq<char>, Seq<char>)>,
    pub unknown: Seq<Seq<char>>,
}

/// A disc with nothing set.
pub open spec fn new_cue() -> CueView {
    CueView {
        files: Seq::empty(),
        title: None,
        performer: None,
        songwriter: None,
        cd_text_file: None,
        catalog: None,
        comments: Seq::empty(),
        unknown: Seq::empty(),
    }
}

/// The views of a list of files.
pub open spec fn files_view(v: Seq<CueFile>) -> Seq<CueFileView> {
    v.map_values(|f: CueFile| f@)
}

impl View for Cue {
    type V = CueView;

    open spec fn view(&self) -> CueView {
        CueView {
            files: files_view(self.files@),
            title: opt_view(self.title),
            performer: opt_view(self.performer),
            songwriter: opt_view(self.songwriter),
            cd_text_file: opt_view(self.cd_text_file),
            catalog: opt_view(self.catalog),
            comments: comments_view(self.comments@),
            unknown: lines_view(self.unknown@),
        }
    }
}

impl Cue {
    /// Constructs a new [`Cue`].
    pub fn new() -> (r: Self)
        ensures
            r@ == new_cue(),
    {
        let r = Self {
            files: Vec::new(),
            songwriter: None,
            cd_text_file: None,
            title: None,
            performer: None,
            catalog: None,
            comments: Vec::new(),
            unknown: Vec::new(),
        };
        assert(r@.files =~= Seq::empty());
        assert(r@.comments =~= Seq::empty());
        assert(r@.unknown =~= Seq::empty());
        r
    }
}

} // verus!
