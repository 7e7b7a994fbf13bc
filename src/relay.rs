use vstd::prelude::*;
use crate::session::{has_peer, resolve, sessions_ok, PeerAddr, Resolved, SessionTable, Sessions, UpstreamInfo};
use crate::transform::{header_filled, outgoing, Mode, BUFFER_SIZE};

verus! {

/// What the dispatcher does with a datagram from a downstream peer.
#[derive(Clone, Copy, Debug, PartialEq, Eq, Structural)]
pub enum Dispatch {
    /// The datagram is too short to hold the header to strip: it is dropped
    /// and no session is touched.
    Drop,
    /// Send `buf[start..end]` to the upstream address through the socket of
    /// the session `info`; `created` tells that the session is new, and its
    /// upstream reader is to be started before the send.
    Forward { info: UpstreamInfo, created: bool, start: usize, end: usize },
    /// The peer has no session and no identifier is left for a new one.
    Exhausted,
}

/// What happened on a session's upstream-facing socket.
#[derive(Clone, Copy, Debug, PartialEq, Eq, Structural)]
pub enum UpstreamEvent {
    /// A datagram of this many bytes arrived at the reader's receive offset.
    Received(usize),
    /// Nothing arrived within the session's timeout, or the receive failed.
    TimedOut,
    /// Sending to the downstream peer failed.
    SendFailed,
}

/// What a session's upstream reader does next.
#[derive(Clone, Copy, Debug, PartialEq, Eq, Structural)]
pub enum ReaderAction {
    /// Send `buf[start..end]` to the downstream peer `to`, then read again.
    Send { to: PeerAddr, start: usize, end: usize },
    /// The datagram is too short to hold the header to strip: read again.
    Skip,
    /// End the session `id`: remove it from the table and stop reading.
    End { id: u64 },
}

/// The upstream reader of one session: it applies the transform opposite to
/// the relay's mode to what comes back from upstream.
#[derive(Clone, Copy, Debug, PartialEq, Eq, Structural)]
pub struct SessionReader {
    pub info: UpstreamInfo,
    pub mode: Mode,
    pub prepend_size: usize,
}

impl SessionReader {
    /// Where the reader puts what it receives from upstream.
    pub fn receive_offset(&self) -> (r: usize)
        ensures
            r == self.mode.offsets(self.prepend_size as nat).0,
    {
        self.mode.build_begin_position(self.prepend_size).0
    }

    /// The reader's decision on one event of its upstream-facing socket.
    pub fn on_event(&self, event: UpstreamEvent, buf: &mut Vec<u8>) -> (r: ReaderAction)
        requires
            event matches UpstreamEvent::Received(len) ==> self.mode.offsets(self.prepend_size as nat).0 + len
                <= old(buf)@.len(),
        ensures
            match event {
                UpstreamEvent::Received(len) => {
                    let (rp, sp) = self.mode.offsets(self.prepend_size as nat);
                    if rp + len < sp {
                        r == ReaderAction::Skip && final(buf)@ == old(buf)@
                    } else {
                        &&& r == ReaderAction::Send {
                            to: self.info.downstream_addr,
                            start: sp as usize,
                            end: (rp + len) as usize,
                        }
                        &&& final(buf)@ == header_filled(old(buf)@, rp as int, len as int)
                    }
                },
                _ => r == ReaderAction::End { id: self.info.id } && final(buf)@ == old(buf)@,
            },
            event matches UpstreamEvent::Received(len) ==> ({
                let rp = self.mode.offsets(self.prepend_size as nat).0;
                let sent = outgoing(self.mode, self.prepend_size as nat, old(buf)@, old(buf)@.subrange(rp as int, rp + len));
                match r {
                    ReaderAction::Send { start, end, .. } => sent == Some(final(buf)@.subrange(start as int, end as int)),
                    _ => sent is None,
                }
            }),
    {
        match event {
            UpstreamEvent::Received(len) => match self.mode.apply(self.prepend_size, buf, len) {
                Some((start, end)) => ReaderAction::Send { to: self.info.downstream_addr, start, end },
                None => ReaderAction::Skip,
            },
            _ => ReaderAction::End { id: self.info.id },
        }
    }
}

/// The relay: its configuration, read-only once built, and its sessions.
pub struct UdpPrepend {
    prepend_size: usize,
    mode: Mode,
    bind: PeerAddr,
    upstream: PeerAddr,
    upstream_timeout_secs: u64,
    sessions: SessionTable,
}

impl UdpPrepend {
    pub closed spec fn spec_prepend_size(&self) -> usize {
        self.prepend_size
    }

    pub closed spec fn spec_mode(&self) -> Mode {
        self.mode
    }

    pub closed spec fn spec_bind(&self) -> PeerAddr {
        self.bind
    }

    pub closed spec fn spec_upstream(&self) -> PeerAddr {
        self.upstream
    }

    pub closed spec fn spec_upstream_timeout_secs(&self) -> u64 {
        self.upstream_timeout_secs
    }

    /// The live sessions, by identifier.
    pub closed spec fn spec_sessions(&self) -> Sessions {
        self.sessions@
    }

    pub closed spec fn spec_next_id(&self) -> u64 {
        self.sessions.next_id()
    }

    pub closed spec fn wf(&self) -> bool {
        &&& self.sessions.wf()
        &&& self.prepend_size <= BUFFER_SIZE
    }

    /// A well-formed relay holds consistent sessions.
    pub proof fn lemma_sessions_ok(&self)
        requires
            self.wf(),
        ensures
            sessions_ok(self.spec_sessions(), self.spec_next_id()),
    {
        self.sessions.lemma_sessions_ok();
    }

    /// A relay with no session yet. The prefix must fit in the receive buffer.
    pub fn new(prepend_size: usize, mode: Mode, bind: PeerAddr, upstream: PeerAddr, upstream_timeout_secs: u64) -> (r:
        UdpPrepend)
        requires
            prepend_size <= BUFFER_SIZE,
        ensures
            r.wf(),
            r.spec_prepend_size() == prepend_size,
            r.spec_mode() == mode,
            r.spec_bind() == bind,
            r.spec_upstream() == upstream,
            r.spec_upstream_timeout_secs() == upstream_timeout_secs,
            r.spec_sessions() == Sessions::empty(),
            r.spec_next_id() == 0,
    {
        UdpPrepend { prepend_size, mode, bind, upstream, upstream_timeout_secs, sessions: SessionTable::new() }
    }

    pub fn prepend_size(&self) -> (r: usize)
        ensures
            r == self.spec_prepend_size(),
    {
        self.prepend_size
    }

    pub fn mode(&self) -> (r: Mode)
        ensures
            r == self.spec_mode(),
    {
        self.mode
    }

    pub fn bind(&self) -> (r: PeerAddr)
        ensures
            r == self.spec_bind(),
    {
        self.bind
    }

    pub fn upstream(&self) -> (r: PeerAddr)
        ensures
            r == self.spec_upstream(),
    {
        self.upstream
    }

    pub fn upstream_timeout_secs(&self) -> (r: u64)
        ensures
            r == self.spec_upstream_timeout_secs(),
    {
        self.upstream_timeout_secs
    }

    /// The session of a downstream peer, if it has one.
    pub fn find(&self, addr: PeerAddr) -> (r: Option<UpstreamInfo>)
        requires
            self.wf(),
        ensures
            match r {
                Some(info) => {
                    &&& self.spec_sessions().contains_key(info.id)
                    &&& self.spec_sessions()[info.id] == addr
                    &&& info.downstream_addr == addr
                },
                None => !has_peer(self.spec_sessions(), addr),
            },
    {
        self.sessions.find(addr)
    }

    /// The number of live sessions.
    pub fn session_count(&self) -> (r: usize)
        requires
            self.wf(),
        ensures
            r == self.spec_sessions().dom().len(),
    {
        self.sessions.len()
    }

    /// The receive offset of the dispatcher, where the program that reads the
    /// downstream-facing socket puts what it receives.
    pub fn receive_offset(&self) -> (r: usize)
        requires
            self.wf(),
        ensures
            r == self.spec_mode().offsets(self.spec_prepend_size() as nat).0,
            r <= BUFFER_SIZE,
    {
        self.mode.build_begin_position(self.prepend_size).0
    }

    /// The dispatcher's decision on a datagram of `len` bytes from the
    /// downstream peer `from`, received at the dispatcher's receive offset:
    /// transform it, then resolve the peer's session, opening one if needed.
    pub fn dispatch(&mut self, from: PeerAddr, buf: &mut Vec<u8>, len: usize) -> (r: Dispatch)
        requires
            old(self).wf(),
            old(self).spec_mode().offsets(old(self).spec_prepend_size() as nat).0 + len <= old(buf)@.len(),
        ensures
            final(self).wf(),
            final(self).spec_prepend_size() == old(self).spec_prepend_size(),
            final(self).spec_mode() == old(self).spec_mode(),
            final(self).spec_bind() == old(self).spec_bind(),
            final(self).spec_upstream() == old(self).spec_upstream(),
            final(self).spec_upstream_timeout_secs() == old(self).spec_upstream_timeout_secs(),
            ({
                let (rp, sp) = old(self).spec_mode().offsets(old(self).spec_prepend_size() as nat);
                let (m1, n1, res) = resolve(old(self).spec_sessions(), old(self).spec_next_id(), from);
                if rp + len < sp {
                    &&& r == Dispatch::Drop
                    &&& final(buf)@ == old(buf)@
                    &&& final(self).spec_sessions() == old(self).spec_sessions()
                    &&& final(self).spec_next_id() == old(self).spec_next_id()
                } else {
                    &&& final(buf)@ == header_filled(old(buf)@, rp as int, len as int)
                    &&& final(self).spec_sessions() == m1
                    &&& final(self).spec_next_id() == n1
                    &&& r == match res {
                        Resolved::Existing(id) => Dispatch::Forward {
                            info: UpstreamInfo { id, downstream_addr: from },
                            created: false,
                            start: sp as usize,
                            end: (rp + len) as usize,
                        },
                        Resolved::Created(id) => Dispatch::Forward {
                            info: UpstreamInfo { id, downstream_addr: from },
                            created: true,
                            start: sp as usize,
                            end: (rp + len) as usize,
                        },
                        Resolved::Exhausted => Dispatch::Exhausted,
                    }
                }
            }),
            ({
                let rp = old(self).spec_mode().offsets(old(self).spec_prepend_size() as nat).0;
                let sent = outgoing(
                    old(self).spec_mode(),
                    old(self).spec_prepend_size() as nat,
                    old(buf)@,
                    old(buf)@.subrange(rp as int, rp + len),
                );
                match r {
                    Dispatch::Drop => sent is None,
                    Dispatch::Forward { start, end, .. } => sent == Some(final(buf)@.subrange(start as int, end as int)),
                    Dispatch::Exhausted => sent is Some,
                }
            }),
    {
        let (start, end) = match self.mode.apply(self.prepend_size, buf, len) {
            Some(range) => range,
            None => return Dispatch::Drop,
        };
        match self.sessions.insert_if_absent(from) {
            Resolved::Existing(id) => Dispatch::Forward {
                info: UpstreamInfo { id, downstream_addr: from },
                created: false,
                start,
                end,
            },
            Resolved::Created(id) => Dispatch::Forward {
                info: UpstreamInfo { id, downstream_addr: from },
                created: true,
                start,
                end,
            },
            Resolved::Exhausted => Dispatch::Exhausted,
        }
    }

    /// The upstream reader of a session of this relay.
    pub fn session_reader(&self, info: UpstreamInfo) -> (r: SessionReader)
        ensures
            r.info == info,
            r.mode == self.spec_mode().opposite(),
            r.prepend_size == self.spec_prepend_size(),
    {
        SessionReader { info, mode: self.mode.reverse(), prepend_size: self.prepend_size }
    }

    /// Ends the session `id`, as its reader does when it stops. Gives whether
    /// the session was live; ending it twice changes nothing.
    pub fn end_session(&mut self, id: u64) -> (r: bool)
        requires
            old(self).wf(),
        ensures
            final(self).wf(),
            r == old(self).spec_sessions().contains_key(id),
            final(self).spec_sessions() == old(self).spec_sessions().remove(id),
            final(self).spec_next_id() == old(self).spec_next_id(),
            final(self).spec_prepend_size() == old(self).spec_prepend_size(),
            final(self).spec_mode() == old(self).spec_mode(),
            final(self).spec_bind() == old(self).spec_bind(),
            final(self).spec_upstream() == old(self).spec_upstream(),
            final(self).spec_upstream_timeout_secs() == old(self).spec_upstream_timeout_secs(),
    {
        self.sessions.remove(id)
    }
}

} // verus!
