use vstd::prelude::*;

verus! {

#[verifier::external_type_specification]
#[verifier::external_body]
pub struct ExIoError(std::io::Error);

/// Represents a parsing error.
#[derive(Debug)]
pub enum CueError {
    /// CUE parse error
    Parse(String),
    /// IO error (file could not read)
    Io(std::io::Error),
}

/// `e` is a parse failure whose reason reads `msg`.
pub open spec fn is_parse_error(e: CueError, msg: Seq<char>) -> bool {
    match e {
        CueError::Parse(m) => m@ == msg,
        CueError::Io(_) => false,
    }
}

impl CueError {
    /// The error as a sentence: `Parse error: <reason>`, or `Io error: `
    /// followed by the text of the underlying I/O error.
    pub fn to_string(&self) -> (r: String)
        ensures
            match self {
                CueError::Parse(m) => r@ == "Parse error: "@ + m@,
                CueError::Io(e) => exists|t: String|
                    vstd::string::to_string_from_display_ensures::<std::io::Error>(e, t) && r@
                        == "Io error: "@ + t@,
            },
    {
        match self {
            CueError::Parse(token) => {
                let mut msg = String::from_str("Parse error: ");
                msg.append(token.as_str());
                msg
            },
            CueError::Io(err) => {
                let mut msg = String::from_str("Io error: ");
                let text = err.to_string();
                msg.append(text.as_str());
                msg
            },
        }
    }

    /// The reason of a parse failure, or the text that the I/O error displays
    /// (std deprecates `Error::description` in favour of that text).
    pub fn description(&self) -> (r: String)
        ensures
            match self {
                CueError::Parse(m) => r@ == m@,
                CueError::Io(e) => vstd::string::to_string_from_display_ensures::<std::io::Error>(
                    e,
                    r,
                ),
            },
    {
        match self {
            CueError::Parse(token) => token.clone(),
            CueError::Io(err) => err.to_string(),
        }
    }
}

} // verus!
