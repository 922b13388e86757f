//! The command line: subcommands and their arguments.

use vstd::prelude::*;

verus! {

/// Utilities for reading and converting .mds/.mdf disk image files
#[derive(Debug)]
pub struct Args {
    pub command: Command,
}

#[derive(Debug)]
pub enum Command {
    /// Convert .mdf/.mds files to other formats
    Convert(ConvertArgs),
    /// Extract files directly from an .mdf without producing an intermediate ISO
    Extract(ExtractArgs),
    /// Print metadata contained by .mds files
    Info(InfoArgs),
}

#[derive(Clone, Copy, Debug, PartialEq, Eq, Structural)]
pub enum OutputFormat {
    /// Convert into an .iso file. ISO files can only contain one track.
    Iso,
    /// Convert into .bin and .cue files. This format supports multiple tracks.
    Cue,
}

#[derive(Debug)]
pub struct InfoArgs {
    /// Path to the .mds file to print information about
    pub mds_file: std::path::PathBuf,
}

#[derive(Debug)]
pub struct ConvertArgs {
    /// Path to the .mds file to convert
    pub mds_file: std::path::PathBuf,
    /// The format to convert into
    pub format: OutputFormat,
}

#[derive(Debug)]
pub struct ExtractArgs {
    /// Path to the .mds file to extract from
    pub mds_file: std::path::PathBuf,
    /// Directory to write extracted files to. Defaults to the .mds file's
    /// basename (e.g. `PMagic_8/` for `PMagic_8.mds`).
    pub output: Option<std::path::PathBuf>,
    /// Print the directory tree to stdout without writing any files.
    pub list: bool,
    /// Allow extracting into a non-empty output directory.
    pub force: bool,
}

} // verus!
