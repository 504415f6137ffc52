//! The byte-copy engine of one relay instance.
//!
//! A relay instance serves one accepted client connection with two
//! independent copy directions, client→target and target→client. Each
//! direction repeatedly reads available bytes into a buffer and writes them
//! to the other side; it ends cleanly when its read side reaches
//! end-of-stream, and fails when either side reports an I/O error. The
//! surrounding process performs the actual socket reads and writes and feeds
//! their outcomes back here; a would-block condition is simply retried there
//! and never reaches this state machine.
//!
//! [`CopyDirection`] carries the ghost history of every byte accepted from
//! its read side and every byte handed to its write side; its invariant
//! makes the relay byte-exact. [`RelaySession`] joins the two directions and
//! decides when the instance as a whole must stop.

use vstd::prelude::*;
use vstd::slice::slice_subrange;

verus! {

/// Where one copy direction stands with respect to its read side.
#[derive(Clone, Copy, PartialEq, Eq, Debug, Structural)]
pub enum DirState {
    /// The read side may still produce bytes.
    Open,
    /// The read side reached end-of-stream (a zero-length read).
    SourceDone,
    /// A read or write on this direction reported an I/O error.
    Failed,
}

/// What the surrounding process should do next for one direction.
#[derive(Clone, Copy, PartialEq, Eq, Debug, Structural)]
pub enum DirAction {
    /// Read more bytes from the source.
    Read,
    /// Write the direction's unsent bytes to the sink.
    Write,
    /// Nothing left: the source closed and every byte was handed on.
    Finish,
    /// The direction failed; tear it down.
    Abort,
}

/// One copy direction: a buffer of bytes read but not yet written, and the
/// ghost history of everything that ever passed through.
pub struct CopyDirection {
    buf: Vec<u8>,
    cursor: usize,
    state: DirState,
    received: Ghost<Seq<u8>>,
    delivered: Ghost<Seq<u8>>,
}

impl CopyDirection {
    /// Every byte this direction ever accepted from its read side.
    pub closed spec fn received(self) -> Seq<u8> {
        self.received@
    }

    /// Every byte this direction ever handed to its write side.
    pub closed spec fn delivered(self) -> Seq<u8> {
        self.delivered@
    }

    /// The bytes read but not yet written.
    pub closed spec fn unsent_bytes(self) -> Seq<u8> {
        self.buf@.skip(self.cursor as int)
    }

    /// The direction's read-side state.
    pub closed spec fn state(self) -> DirState {
        self.state
    }

    /// The direction's invariant: what was delivered, followed by what still
    /// waits in the buffer, is exactly what was received — bytes are handed
    /// on unchanged, in order, without loss or duplication.
    pub closed spec fn wf(self) -> bool {
        self.cursor <= self.buf@.len() && self.delivered@ + self.unsent_bytes() == self.received@
    }

    /// No byte is waiting to be written.
    pub open spec fn drained(self) -> bool {
        self.unsent_bytes().len() == 0
    }

    /// The direction ended cleanly: source closed and everything handed on.
    pub open spec fn complete(self) -> bool {
        self.state() == DirState::SourceDone && self.drained()
    }

    /// The direction failed.
    pub open spec fn failed(self) -> bool {
        self.state() == DirState::Failed
    }

    /// A fresh direction: open, with empty buffer and empty histories.
    pub fn new() -> (d: CopyDirection)
        ensures
            d.wf(),
            d.state() == DirState::Open,
            d.received() == Seq::<u8>::empty(),
            d.delivered() == Seq::<u8>::empty(),
            d.drained(),
    {
        let d = CopyDirection {
            buf: Vec::new(),
            cursor: 0,
            state: DirState::Open,
            received: Ghost(Seq::empty()),
            delivered: Ghost(Seq::empty()),
        };
        proof {
            assert(d.delivered@ + d.unsent_bytes() =~= d.received@);
        }
        d
    }

    /// What to do next: drain the buffer first, then read while the source
    /// is open, finish once it closed, abort once the direction failed.
    pub fn next_action(&self) -> (a: DirAction)
        requires
            self.wf(),
        ensures
            a == (if self.failed() {
                DirAction::Abort
            } else if !self.drained() {
                DirAction::Write
            } else if self.state() == DirState::Open {
                DirAction::Read
            } else {
                DirAction::Finish
            }),
    {
        match self.state {
            DirState::Failed => DirAction::Abort,
            DirState::Open => {
                if self.cursor < self.buf.len() {
                    DirAction::Write
                } else {
                    DirAction::Read
                }
            },
            DirState::SourceDone => {
                if self.cursor < self.buf.len() {
                    DirAction::Write
                } else {
                    DirAction::Finish
                }
            },
        }
    }

    /// Accepts the bytes of one successful, non-empty read.
    pub fn on_read(&mut self, data: Vec<u8>)
        requires
            old(self).wf(),
            old(self).state() == DirState::Open,
            old(self).drained(),
            data@.len() > 0,
        ensures
            final(self).wf(),
            final(self).state() == DirState::Open,
            final(self).received() == old(self).received() + data@,
            final(self).delivered() == old(self).delivered(),
            final(self).unsent_bytes() == data@,
    {
        proof {
            assert(old(self).delivered@ =~= old(self).received@);
        }
        let ghost new_received = self.received@ + data@;
        self.buf = data;
        self.cursor = 0;
        self.received = Ghost(new_received);
        proof {
            assert(self.unsent_bytes() =~= self.buf@);
            assert(self.delivered@ + self.unsent_bytes() =~= self.received@);
        }
    }

    /// Records the end-of-stream signal: a zero-length read is a normal
    /// close of the read side, not an error.
    pub fn on_read_eof(&mut self)
        requires
            old(self).wf(),
            old(self).state() == DirState::Open,
            old(self).drained(),
        ensures
            final(self).wf(),
            final(self).complete(),
            final(self).received() == old(self).received(),
            final(self).delivered() == old(self).delivered(),
    {
        self.state = DirState::SourceDone;
    }

    /// Records an I/O error on either side of this direction.
    pub fn on_error(&mut self)
        requires
            old(self).wf(),
        ensures
            final(self).wf(),
            final(self).failed(),
            final(self).received() == old(self).received(),
            final(self).delivered() == old(self).delivered(),
            final(self).unsent_bytes() == old(self).unsent_bytes(),
    {
        self.state = DirState::Failed;
    }

    /// Records that the sink accepted the first `n` unsent bytes (a partial
    /// write is allowed; the rest stays queued).
    pub fn on_write(&mut self, n: usize)
        requires
            old(self).wf(),
            n <= old(self).unsent_bytes().len(),
        ensures
            final(self).wf(),
            final(self).state() == old(self).state(),
            final(self).received() == old(self).received(),
            final(self).delivered() == old(self).delivered() + old(self).unsent_bytes().take(n as int),
            final(self).unsent_bytes() == old(self).unsent_bytes().skip(n as int),
    {
        let ghost sent = self.unsent_bytes().take(n as int);
        let ghost new_delivered = self.delivered@ + sent;
        proof {
            assert(self.buf.len() == self.buf@.len());
            assert(old(self).unsent_bytes().len() == self.buf@.len() - self.cursor);
        }
        self.cursor = self.cursor + n;
        self.delivered = Ghost(new_delivered);
        proof {
            assert(old(self).unsent_bytes() =~= sent + self.unsent_bytes());
            assert(self.delivered@ + self.unsent_bytes() =~= self.received@);
        }
    }

    /// The bytes read but not yet written, as the surrounding process sees
    /// them for its next write call.
    pub fn unsent(&self) -> (r: &[u8])
        requires
            self.wf(),
        ensures
            r@ == self.unsent_bytes(),
    {
        slice_subrange(self.buf.as_slice(), self.cursor, self.buf.len())
    }

    /// Whether the direction ended cleanly.
    pub fn is_complete(&self) -> (r: bool)
        requires
            self.wf(),
        ensures
            r == self.complete(),
    {
        match self.state {
            DirState::SourceDone => self.cursor >= self.buf.len(),
            _ => false,
        }
    }

    /// Whether the direction failed.
    pub fn has_failed(&self) -> (r: bool)
        ensures
            r == self.failed(),
    {
        match self.state {
            DirState::Failed => true,
            _ => false,
        }
    }

    /// Whether every received byte has been handed on.
    pub fn is_drained(&self) -> (r: bool)
        requires
            self.wf(),
        ensures
            r == self.drained(),
    {
        self.cursor >= self.buf.len()
    }
}

/// Bytes pass through a direction unchanged and in order: what it has
/// delivered is always a prefix of what it has received, and once drained
/// the two streams are equal.
pub proof fn lemma_delivered_prefix(d: CopyDirection)
    requires
        d.wf(),
    ensures
        d.delivered().is_prefix_of(d.received()),
        d.drained() ==> d.delivered() == d.received(),
{
    assert(d.delivered() =~= d.received().take(d.delivered().len() as int));
    if d.drained() {
        assert(d.delivered() =~= d.received());
    }
}

/// What a relay instance should do as a whole.
#[derive(Clone, Copy, PartialEq, Eq, Debug, Structural)]
pub enum SessionVerdict {
    /// At least one direction still has work: keep driving both.
    Continue,
    /// One side closed cleanly and every byte was handed on: close both
    /// directions together.
    CloseClean,
    /// A direction failed: tear both directions down together at once.
    Abort,
}

/// One relay instance: the client→target and target→client directions,
/// driven concurrently by the surrounding process and torn down together.
pub struct RelaySession {
    pub client_to_target: CopyDirection,
    pub target_to_client: CopyDirection,
}

impl RelaySession {
    /// Both directions satisfy their invariant.
    pub open spec fn wf(self) -> bool {
        self.client_to_target.wf() && self.target_to_client.wf()
    }

    /// The teardown rule: abort as soon as either direction failed; close
    /// cleanly once either read side finished and both buffers are drained
    /// (so everything received — in particular anything the target sent back
    /// after a client half-close — has been delivered); otherwise continue.
    pub open spec fn spec_verdict(self) -> SessionVerdict {
        if self.client_to_target.failed() || self.target_to_client.failed() {
            SessionVerdict::Abort
        } else if (self.client_to_target.complete() || self.target_to_client.complete())
            && self.client_to_target.drained() && self.target_to_client.drained() {
            SessionVerdict::CloseClean
        } else {
            SessionVerdict::Continue
        }
    }

    /// A fresh session: both directions open and empty.
    pub fn new() -> (s: RelaySession)
        ensures
            s.wf(),
            s.spec_verdict() == SessionVerdict::Continue,
            s.client_to_target.received() == Seq::<u8>::empty(),
            s.target_to_client.received() == Seq::<u8>::empty(),
            s.client_to_target.delivered() == Seq::<u8>::empty(),
            s.target_to_client.delivered() == Seq::<u8>::empty(),
    {
        RelaySession { client_to_target: CopyDirection::new(), target_to_client: CopyDirection::new() }
    }

    /// Decides whether the instance keeps running, closes cleanly, or aborts.
    pub fn verdict(&self) -> (v: SessionVerdict)
        requires
            self.wf(),
        ensures
            v == self.spec_verdict(),
    {
        if self.client_to_target.has_failed() || self.target_to_client.has_failed() {
            SessionVerdict::Abort
        } else if (self.client_to_target.is_complete() || self.target_to_client.is_complete())
            && self.client_to_target.is_drained() && self.target_to_client.is_drained() {
            SessionVerdict::CloseClean
        } else {
            SessionVerdict::Continue
        }
    }
}

/// Byte-exact relay: at every moment, each direction has delivered exactly a
/// prefix of what it received — no byte is altered, reordered, dropped or
/// invented on the way through.
pub proof fn lemma_relay_byte_exact(s: RelaySession)
    requires
        s.wf(),
    ensures
        s.client_to_target.delivered().is_prefix_of(s.client_to_target.received()),
        s.target_to_client.delivered().is_prefix_of(s.target_to_client.received()),
{
    lemma_delivered_prefix(s.client_to_target);
    lemma_delivered_prefix(s.target_to_client);
}

/// Half-close and clean close deliver everything: when the session closes
/// cleanly, every byte either direction received has been delivered to its
/// peer — in particular, data the target sent back after the client closed
/// its write side is handed to the client before the instance terminates.
pub proof fn lemma_clean_close_delivers_all(s: RelaySession)
    requires
        s.wf(),
        s.spec_verdict() == SessionVerdict::CloseClean,
    ensures
        s.client_to_target.delivered() == s.client_to_target.received(),
        s.target_to_client.delivered() == s.target_to_client.received(),
{
    lemma_delivered_prefix(s.client_to_target);
    lemma_delivered_prefix(s.target_to_client);
}

/// The round trip through an echoing target: when the target has sent back
/// exactly the bytes the relay delivered to it, a cleanly closed session has
/// handed the client back exactly the bytes the client wrote — unchanged and
/// in order.
pub proof fn lemma_echo_round_trip(s: RelaySession)
    requires
        s.wf(),
        s.spec_verdict() == SessionVerdict::CloseClean,
        s.target_to_client.received() == s.client_to_target.delivered(),
    ensures
        s.target_to_client.delivered() == s.client_to_target.received(),
{
    lemma_clean_close_delivers_all(s);
}

} // verus!
