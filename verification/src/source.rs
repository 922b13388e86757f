//! Where image bytes come from and where extracted bytes go: random-access
//! byte sources and append-only byte sinks, with in-memory versions.

use crate::error::Error;
use vstd::prelude::*;

verus! {

/// A random-access source of bytes, such as an `.mdf` file or a cooked track.
///
/// `bytes` describes what the source reads only where `modeled` holds: it
/// does for the sources of this crate; a source implemented by code that
/// Verus does not see (a file on disk) keeps the defaults, and then only the
/// length of what a read gives and the error kind are stated of it.
pub trait RawSource {
    /// The bytes that the source reads from; reading does not change them.
    closed spec fn bytes(&self) -> Seq<u8> {
        Seq::empty()
    }

    /// Whether `bytes` describes what the source reads.
    closed spec fn modeled(&self) -> bool {
        false
    }

    /// The source's internal consistency, which reads keep.
    closed spec fn ready(&self) -> bool {
        true
    }

    /// Whether reads within the bytes always succeed (no I/O can fail).
    closed spec fn reliable(&self) -> bool {
        false
    }

    /// Reads exactly `len` bytes starting at offset `pos`. A read may fail
    /// (past the end, or an I/O error); a successful one gives `len` bytes,
    /// for a modeled source the bytes `pos..pos + len`.
    fn read_exact_at(&mut self, pos: u64, len: usize) -> (r: Result<Vec<u8>, Error>)
        requires
            old(self).ready(),
        ensures
            final(self).ready(),
            final(self).bytes() == old(self).bytes(),
            final(self).modeled() == old(self).modeled(),
            final(self).reliable() == old(self).reliable(),
            r matches Ok(v) ==> v@.len() == len,
            old(self).modeled() ==> (r matches Ok(v) ==> pos + len <= old(self).bytes().len() && v@
                == old(self).bytes().subrange(pos as int, pos + len)),
            r matches Err(e) ==> e is Io,
            old(self).reliable() && pos + len <= old(self).bytes().len() ==> r is Ok,
    ;
}

/// An append-only destination for bytes, such as an extracted file. As for
/// `RawSource`, `written` describes what was written only where `modeled`
/// holds, which a sink implemented outside verified code does not claim.
pub trait ByteSink {
    /// Everything written so far.
    closed spec fn written(&self) -> Seq<u8> {
        Seq::empty()
    }

    /// Whether `written` describes what was written.
    closed spec fn modeled(&self) -> bool {
        false
    }

    /// Whether writes always succeed (no I/O can fail).
    closed spec fn reliable(&self) -> bool {
        false
    }

    /// Appends all of `data`.
    fn write_all(&mut self, data: &[u8]) -> (r: Result<(), Error>)
        ensures
            final(self).reliable() == old(self).reliable(),
            final(self).modeled() == old(self).modeled(),
            old(self).modeled() ==> (r is Ok ==> final(self).written() == old(self).written() + data@),
            r matches Err(e) ==> e is Io,
            old(self).reliable() ==> r is Ok,
    ;
}

impl ByteSink for Vec<u8> {
    open spec fn written(&self) -> Seq<u8> {
        self@
    }

    open spec fn modeled(&self) -> bool {
        true
    }

    open spec fn reliable(&self) -> bool {
        true
    }

    fn write_all(&mut self, data: &[u8]) -> (r: Result<(), Error>)
        ensures
            r is Ok,
    {
        self.extend_from_slice(data);
        Ok(())
    }
}

/// A byte source held in memory: reads succeed exactly when they lie within it.
pub struct MemorySource {
    data: Vec<u8>,
}

impl MemorySource {
    pub fn new(data: Vec<u8>) -> (r: MemorySource)
        ensures
            r.bytes() == data@,
            r.modeled(),
            r.ready(),
            r.reliable(),
    {
        MemorySource { data }
    }

    /// The bytes held.
    pub fn contents(&self) -> (r: &[u8])
        ensures
            r@ == self.bytes(),
    {
        self.data.as_slice()
    }
}

impl RawSource for MemorySource {
    closed spec fn bytes(&self) -> Seq<u8> {
        self.data@
    }

    open spec fn modeled(&self) -> bool {
        true
    }

    open spec fn ready(&self) -> bool {
        true
    }

    open spec fn reliable(&self) -> bool {
        true
    }

    fn read_exact_at(&mut self, pos: u64, len: usize) -> (r: Result<Vec<u8>, Error>)
        ensures
            r is Ok <==> pos + len <= old(self).bytes().len(),
    {
        let n = self.data.len();
        if pos > n as u64 || (n as u64 - pos) < len as u64 {
            return Err(Error::Io(unexpected_eof()));
        }
        let start = pos as usize;
        let mut out: Vec<u8> = Vec::new();
        out.extend_from_slice(&self.data.as_slice()[start..start + len]);
        Ok(out)
    }
}

/// An `UnexpectedEof` I/O error (std's `io::Error::from(ErrorKind::UnexpectedEof)`).
#[verifier::external_body]
pub(crate) fn unexpected_eof() -> std::io::Error {
    std::io::Error::from(std::io::ErrorKind::UnexpectedEof)
}

/// An `InvalidInput` I/O error carrying `msg` (std's `io::Error::new`).
#[verifier::external_body]
pub(crate) fn invalid_input(msg: &str) -> std::io::Error {
    std::io::Error::new(std::io::ErrorKind::InvalidInput, msg.to_string())
}

} // verus!
