//! One relay direction of the forwarder: the decision taken after every
//! socket observation, and the proof that the relayed stream is the source
//! stream, verbatim and in order.

use vstd::prelude::*;

verus! {

/// What one relay direction observed on its pair of sockets.
pub enum RelayEvent {
    /// A non-empty chunk was read from the source socket.
    ChunkRead(Vec<u8>),
    /// The source reached end-of-stream: a read returned zero bytes.
    SourceClosed,
    /// A read on the source socket failed.
    ReadFailed,
    /// Writing the previous chunk to the destination socket failed.
    WriteFailed,
}

/// What the relay does next.
pub enum RelayAction {
    /// Write exactly these bytes to the destination socket.
    Forward(Vec<u8>),
    /// This direction is over; it stops without touching the other one.
    Stop,
}

/// The decision a relay direction takes on one event: a chunk is forwarded
/// verbatim, anything else ends the direction.
pub open spec fn relay_decision(ev: RelayEvent) -> RelayAction {
    match ev {
        RelayEvent::ChunkRead(c) => RelayAction::Forward(c),
        RelayEvent::SourceClosed => RelayAction::Stop,
        RelayEvent::ReadFailed => RelayAction::Stop,
        RelayEvent::WriteFailed => RelayAction::Stop,
    }
}

/// Addition capped at the largest machine count, for the running byte
/// total, which is diagnostic and must never overflow.
pub open spec fn saturating_sum(a: nat, b: nat) -> nat {
    if a + b <= usize::MAX {
        a + b
    } else {
        usize::MAX as nat
    }
}

/// Progress of one relay direction: how many bytes it has moved and
/// whether it has reached its own natural end.
pub struct RelayProgress {
    pub total_bytes: usize,
    pub finished: bool,
}

impl RelayProgress {
    /// A direction that has not started: nothing moved, not finished.
    pub fn new() -> (r: RelayProgress)
        ensures
            r.total_bytes == 0,
            !r.finished,
    {
        RelayProgress { total_bytes: 0, finished: false }
    }

    /// One decision of the relay loop. A chunk read from the source is
    /// ordered written to the destination byte for byte; end-of-stream or
    /// a failed read or write ends this direction and nothing more is
    /// forwarded. The byte total grows by the chunk's length, capped.
    pub fn step(&mut self, ev: RelayEvent) -> (a: RelayAction)
        requires
            !old(self).finished,
            ev matches RelayEvent::ChunkRead(c) ==> c@.len() > 0,
        ensures
            a == relay_decision(ev),
            ev matches RelayEvent::ChunkRead(c) ==> !final(self).finished && final(self).total_bytes == saturating_sum(old(self).total_bytes as nat, c@.len()),
            !(ev matches RelayEvent::ChunkRead(c)) ==> final(self).finished && final(self).total_bytes == old(self).total_bytes,
    {
        match ev {
            RelayEvent::ChunkRead(chunk) => {
                let len = chunk.len();
                if self.total_bytes <= usize::MAX - len {
                    self.total_bytes = self.total_bytes + len;
                } else {
                    self.total_bytes = usize::MAX;
                }
                RelayAction::Forward(chunk)
            },
            _ => {
                self.finished = true;
                RelayAction::Stop
            },
        }
    }
}

/// The bytes a relay direction has read: the chunk payloads concatenated
/// in order, up to the first event that ends the direction.
pub open spec fn source_bytes(evs: Seq<RelayEvent>) -> Seq<u8>
    decreases evs.len(),
{
    if evs.len() == 0 {
        Seq::empty()
    } else {
        match evs[0] {
            RelayEvent::ChunkRead(c) => c@ + source_bytes(evs.drop_first()),
            _ => Seq::empty(),
        }
    }
}

/// The bytes a relay direction orders written, under its decisions, over
/// the same run of events.
pub open spec fn forwarded_bytes(evs: Seq<RelayEvent>) -> Seq<u8>
    decreases evs.len(),
{
    if evs.len() == 0 {
        Seq::empty()
    } else {
        match relay_decision(evs[0]) {
            RelayAction::Forward(c) => c@ + forwarded_bytes(evs.drop_first()),
            RelayAction::Stop => Seq::empty(),
        }
    }
}

/// Verbatim relay: over any run of events — chunks of any sizes, a close
/// or failure at any point — the direction forwards exactly the bytes it
/// read, byte-identical and in order.
pub proof fn lemma_relay_verbatim(evs: Seq<RelayEvent>)
    ensures
        forwarded_bytes(evs) == source_bytes(evs),
    decreases evs.len(),
{
    if evs.len() > 0 {
        lemma_relay_verbatim(evs.drop_first());
    }
}

} // verus!
