//! A reader for CUE sheets: the plain-text files that describe the layout of a
//! CD image (its media files, tracks, indices and metadata).
//!
//! Indentation is not significant: a `REM` line that follows a `TRACK` is
//! attached to that track, whatever its indentation.

/// The disc, file and track records, and the tokenized command of a line
pub mod cue;
/// The error type
pub mod errors;
/// The line tokenizer and the assembler of the disc record
pub mod parser;
/// Token extraction, quote unescaping and timestamp conversion
pub mod util;
