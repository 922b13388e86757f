//! The library's error type and its messages.

use crate::mds::TrackMode;
use crate::text::{append_chars, chars_of, dec, decimal, string_from_chars};
use vstd::prelude::*;

verus! {

#[verifier::external_type_specification]
#[verifier::external_body]
pub struct ExIoError(std::io::Error);

#[verifier::external_type_specification]
#[verifier::external_body]
pub struct ExPathBuf(std::path::PathBuf);

#[derive(Debug)]
pub enum Error {
    Io(std::io::Error),
    Iso9660(String),
    MissingInputFile,
    MultiTrackNotSupported,
    NoDataTracks,
    NoSessions,
    /// The output directory, as text, holds files and `--force` was not given.
    OutputExists(String),
    ParseError,
    PathEscape(String),
    TooManySessions,
    UnknownCueTrackSize(TrackMode, usize),
    UnknownIsoTrackSize(TrackMode, usize),
}

/// How a track mode is named in messages.
pub open spec fn mode_name(m: TrackMode) -> Seq<char> {
    match m {
        TrackMode::Blank => "None"@,
        TrackMode::Audio => "Audio"@,
        TrackMode::Mode1 => "Mode1"@,
        TrackMode::Mode2 => "Mode2"@,
        TrackMode::Mode2Form1 => "Mode2Form1"@,
        TrackMode::Mode2Form2 => "Mode2Form2"@,
    }
}

impl TrackMode {
    /// The mode's name as messages show it.
    pub fn name(&self) -> (r: &'static str)
        ensures
            r@ == mode_name(*self),
    {
        match self {
            TrackMode::Blank => "None",
            TrackMode::Audio => "Audio",
            TrackMode::Mode1 => "Mode1",
            TrackMode::Mode2 => "Mode2",
            TrackMode::Mode2Form1 => "Mode2Form1",
            TrackMode::Mode2Form2 => "Mode2Form2",
        }
    }
}

/// The text of an I/O error (std's `Display` for `io::Error`); it depends on
/// the platform, so nothing is stated of it.
#[verifier::external_body]
fn io_error_text(e: &std::io::Error) -> String {
    format!("{e}")
}

fn concat2(a: &str, b: &str) -> (r: String)
    ensures
        r@ == a@ + b@,
{
    let mut v = chars_of(a);
    let t = chars_of(b);
    append_chars(&mut v, t.as_slice());
    string_from_chars(v.as_slice())
}

fn concat3(a: &str, b: &str, c: &str) -> (r: String)
    ensures
        r@ == a@ + b@ + c@,
{
    let mut v = chars_of(a);
    let t = chars_of(b);
    append_chars(&mut v, t.as_slice());
    let t = chars_of(c);
    append_chars(&mut v, t.as_slice());
    string_from_chars(v.as_slice())
}

fn mode_and_size(prefix: &str, mode: TrackMode, size: usize) -> (r: String)
    ensures
        r@ == prefix@ + mode_name(mode) + " @ "@ + dec(size as nat),
{
    let mut v = chars_of(prefix);
    let t = chars_of(mode.name());
    append_chars(&mut v, t.as_slice());
    let t = chars_of(" @ ");
    append_chars(&mut v, t.as_slice());
    let d = decimal(size as u64);
    append_chars(&mut v, d.as_slice());
    string_from_chars(v.as_slice())
}

impl Error {
    /// The message shown for the error.
    pub fn message(&self) -> (r: String)
        ensures
            self matches Error::Iso9660(m) ==> r@ == "ISO9660: "@ + m@,
            self is MissingInputFile ==> r@ == "No input file provided to read data from"@,
            self is MultiTrackNotSupported ==> r@ == "Multi-track discs are not yet supported"@,
            self is NoDataTracks ==> r@ == "There are no data tracks in this mdf"@,
            self is NoSessions ==> r@ == "There are no sessions in the image"@,
            self matches Error::OutputExists(p) ==> r@ == "Output directory '"@ + p@
                + "' is not empty (pass --force to overwrite)"@,
            self is ParseError ==> r@ == "Error parsing mds file"@,
            self matches Error::PathEscape(n) ==> r@
                == "Refusing to write file with unsafe path component: '"@ + n@ + "'"@,
            self is TooManySessions ==> r@ == "Cannot convert multi-session images"@,
            self matches Error::UnknownCueTrackSize(m, d) ==> r@ == "Unusual track type: "@
                + mode_name(*m) + " @ "@ + dec(*d as nat),
            self matches Error::UnknownIsoTrackSize(m, d) ==> r@
                == "Cannot convert track type to ISO: "@ + mode_name(*m) + " @ "@ + dec(*d as nat),
    {
        match self {
            Error::Io(err) => io_error_text(err),
            Error::Iso9660(msg) => concat2("ISO9660: ", msg.as_str()),
            Error::MissingInputFile => "No input file provided to read data from".to_owned(),
            Error::MultiTrackNotSupported => "Multi-track discs are not yet supported".to_owned(),
            Error::NoDataTracks => "There are no data tracks in this mdf".to_owned(),
            Error::NoSessions => "There are no sessions in the image".to_owned(),
            Error::OutputExists(path) => concat3(
                "Output directory '",
                path.as_str(),
                "' is not empty (pass --force to overwrite)",
            ),
            Error::ParseError => "Error parsing mds file".to_owned(),
            Error::PathEscape(name) => concat3(
                "Refusing to write file with unsafe path component: '",
                name.as_str(),
                "'",
            ),
            Error::TooManySessions => "Cannot convert multi-session images".to_owned(),
            Error::UnknownCueTrackSize(mode, data_size) => mode_and_size(
                "Unusual track type: ",
                *mode,
                *data_size,
            ),
            Error::UnknownIsoTrackSize(mode, data_size) => mode_and_size(
                "Cannot convert track type to ISO: ",
                *mode,
                *data_size,
            ),
        }
    }
}

} // verus!
