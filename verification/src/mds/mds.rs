//! A whole `.mds` file: header and sessions.

use super::Fault;
use super::header::{header, spec_header, Header, MediaType, Version};
use super::session::{
    session,
    session_data_tracks,
    spec_session,
    track_ref_views,
    Session,
    SessionView,
    SESSION_SIZE,
};
use super::track::{Track, TrackView};
use crate::error::Error;
use vstd::prelude::*;

verus! {

/// What an `.mds` file says.
pub struct MdsView {
    pub header: Header,
    /// Length of the file in bytes.
    pub num_bytes: nat,
    pub sessions: Seq<SessionView>,
}

#[derive(Debug)]
pub struct Mds {
    header: Header,
    num_bytes: usize,
    sessions: Vec<Session>,
}

pub open spec fn session_views(ss: Seq<Session>) -> Seq<SessionView> {
    ss.map_values(|s: Session| s@)
}

impl View for Mds {
    type V = MdsView;

    closed spec fn view(&self) -> MdsView {
        MdsView {
            header: self.header,
            num_bytes: self.num_bytes as nat,
            sessions: session_views(self.sessions@),
        }
    }
}

/// Session blocks `i..n` of a table of blocks starting at `base`, 0x18 bytes apart.
pub open spec fn spec_sessions(input: Seq<u8>, base: int, i: int, n: int) -> Result<
    Seq<SessionView>,
    Fault,
>
    decreases n - i,
{
    if i >= n {
        Ok(Seq::empty())
    } else {
        match spec_session(input, base + 0x18 * i) {
            Err(f) => Err(f),
            Ok(s) => match spec_sessions(input, base, i + 1, n) {
                Err(f) => Err(f),
                Ok(ss) => Ok(seq![s] + ss),
            },
        }
    }
}

/// The whole file `input`: its header, then as many session blocks as the
/// header counts, one after the other from the header's session offset.
pub open spec fn spec_mds(input: Seq<u8>) -> Result<MdsView, Fault> {
    match spec_header(input) {
        Err(f) => Err(f),
        Ok(h) => match spec_sessions(input, h.session_offset as int, 0, h.num_sessions as int) {
            Err(f) => Err(f),
            Ok(sessions) => Ok(MdsView { header: h, num_bytes: input.len(), sessions }),
        },
    }
}

/// Whether every block offset that `input` holds lies within it, so that
/// reading it either succeeds or finds a malformed block.
pub open spec fn mds_in_bounds(input: Seq<u8>) -> bool {
    !(spec_mds(input) == Err::<MdsView, Fault>(Fault::OutOfRange))
}

/// Whether two errors of choosing a track are the same.
pub open spec fn same_error(a: Error, b: Error) -> bool {
    &&& (a is NoSessions <==> b is NoSessions)
    &&& (a is TooManySessions <==> b is TooManySessions)
    &&& (a is NoDataTracks <==> b is NoDataTracks)
    &&& (a is MultiTrackNotSupported <==> b is MultiTrackNotSupported)
}

/// Outcome of choosing the single data track of an image.
pub open spec fn spec_single_track(m: MdsView) -> Result<TrackView, Error> {
    if m.sessions.len() == 0 {
        Err(Error::NoSessions)
    } else if m.sessions.len() > 1 {
        Err(Error::TooManySessions)
    } else if session_data_tracks(m.sessions[0]).len() == 0 {
        Err(Error::NoDataTracks)
    } else if session_data_tracks(m.sessions[0]).len() > 1 {
        Err(Error::MultiTrackNotSupported)
    } else {
        Ok(session_data_tracks(m.sessions[0])[0])
    }
}

proof fn lemma_sessions_step(
    input: Seq<u8>,
    base: int,
    i: int,
    n: int,
    done: Seq<SessionView>,
    s: SessionView,
)
    requires
        i < n,
        spec_session(input, base + 0x18 * i) == Ok::<SessionView, Fault>(s),
    ensures
        match spec_sessions(input, base, i, n) {
            Ok(ss) => Ok::<Seq<SessionView>, Fault>(done + ss),
            Err(f) => Err(f),
        } == match spec_sessions(input, base, i + 1, n) {
            Ok(ss) => Ok::<Seq<SessionView>, Fault>(done.push(s) + ss),
            Err(f) => Err(f),
        },
{
    if let Ok(ss) = spec_sessions(input, base, i + 1, n) {
        assert(done + (seq![s] + ss) == done.push(s) + ss);
    }
}

/// Reads a whole `.mds` file.
fn mds(input: &[u8]) -> (r: Result<Mds, Fault>)
    ensures
        r matches Ok(m) ==> spec_mds(input@) == Ok::<MdsView, Fault>(m@),
        r matches Err(f) ==> spec_mds(input@) == Err::<MdsView, Fault>(f),
{
    let header = match header(input) {
        Ok(h) => h,
        Err(f) => return Err(f),
    };
    let n = header.num_sessions;
    let base = header.session_offset as u64;
    let mut sessions: Vec<Session> = Vec::new();
    let mut i: u16 = 0;
    while i < n
        invariant
            i <= n,
            spec_header(input@) == Ok::<Header, Fault>(header),
            n == header.num_sessions,
            base == header.session_offset,
            spec_sessions(input@, base as int, 0, n as int) == match spec_sessions(
                input@,
                base as int,
                i as int,
                n as int,
            ) {
                Ok(ss) => Ok(session_views(sessions@) + ss),
                Err(f) => Err(f),
            },
        decreases n - i,
    {
        let s = match session(input, base + (SESSION_SIZE as u64) * (i as u64)) {
            Ok(s) => s,
            Err(f) => {
                assert(spec_sessions(input@, base as int, i as int, n as int) == Err::<
                    Seq<SessionView>,
                    Fault,
                >(f));
                return Err(f);
            },
        };
        let ghost prev = sessions@;
        proof {
            lemma_sessions_step(input@, base as int, i as int, n as int, session_views(prev), s@);
        }
        sessions.push(s);
        assert(session_views(sessions@) == session_views(prev).push(s@));
        i = i + 1;
    }
    assert(session_views(sessions@) + Seq::<SessionView>::empty() == session_views(sessions@));
    Ok(Mds { num_bytes: input.len(), header, sessions })
}

impl Mds {
    /// The image's sessions, in order.
    pub fn sessions(&self) -> (r: &[Session])
        ensures
            session_views(r@) == self@.sessions,
    {
        self.sessions.as_slice()
    }

    /// The image's only session.
    pub fn single_session(&self) -> (r: Result<&Session, Error>)
        ensures
            r matches Ok(s) ==> self@.sessions.len() == 1 && s@ == self@.sessions[0],
            r matches Err(e) ==> (self@.sessions.len() == 0 && e is NoSessions) || (
            self@.sessions.len() > 1 && e is TooManySessions),
    {
        if self.sessions.len() == 0 {
            return Err(Error::NoSessions);
        }
        if self.sessions.len() > 1 {
            return Err(Error::TooManySessions);
        }
        Ok(&self.sessions[0])
    }

    /// The image's only data track: there must be exactly one session, with
    /// exactly one data track.
    pub fn single_track(&self) -> (r: Result<&Track, Error>)
        ensures
            r matches Ok(t) ==> spec_single_track(self@) == Ok::<TrackView, Error>(t@),
            r matches Err(e) ==> (spec_single_track(self@) matches Err(e2) && same_error(e, e2)),
    {
        let session = match self.single_session() {
            Ok(s) => s,
            Err(e) => return Err(e),
        };
        let tracks = session.data_tracks();
        assert(track_ref_views(tracks@).len() == tracks@.len());
        if tracks.len() == 0 {
            return Err(Error::NoDataTracks);
        }
        if tracks.len() > 1 {
            return Err(Error::MultiTrackNotSupported);
        }
        assert(track_ref_views(tracks@)[0] == tracks@[0]@);
        Ok(tracks[0])
    }

    pub fn version(&self) -> (r: Version)
        ensures
            r == self@.header.version,
    {
        self.header.version
    }

    pub fn media_type(&self) -> (r: MediaType)
        ensures
            r == self@.header.media_type,
    {
        self.header.media_type
    }

    /// Length in bytes of the file the image was read from.
    pub fn byte_len(&self) -> (r: usize)
        ensures
            r == self@.num_bytes,
    {
        self.num_bytes
    }

    /// Reads an image from the bytes of its `.mds` file. Any malformed block
    /// gives `ParseError`. Block offsets past the end of the file are left out
    /// (see `from_bytes_checked`).
    pub fn from_bytes(bytes: &[u8]) -> (r: Result<Mds, Error>)
        requires
            mds_in_bounds(bytes@),
        ensures
            r matches Ok(m) ==> spec_mds(bytes@) == Ok::<MdsView, Fault>(m@),
            r matches Err(e) ==> e is ParseError && spec_mds(bytes@) is Err,
    {
        match mds(bytes) {
            Ok(m) => Ok(m),
            Err(_) => Err(Error::ParseError),
        }
    }

    /// Like `from_bytes`, for any bytes: `None` when a block offset points
    /// past the end of the file.
    pub fn from_bytes_checked(bytes: &[u8]) -> (r: Option<Result<Mds, Error>>)
        ensures
            r is None <==> !mds_in_bounds(bytes@),
            r matches Some(Ok(m)) ==> spec_mds(bytes@) == Ok::<MdsView, Fault>(m@),
            r matches Some(Err(e)) ==> e is ParseError && spec_mds(bytes@) == Err::<
                MdsView,
                Fault,
            >(Fault::Malformed),
    {
        match mds(bytes) {
            Ok(m) => Some(Ok(m)),
            Err(Fault::Malformed) => Some(Err(Error::ParseError)),
            Err(Fault::OutOfRange) => None,
        }
    }
}

} // verus!
