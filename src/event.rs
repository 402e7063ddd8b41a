//! Decisions of the I/O loop that do not need a socket: what one read
//! result means for the run being collected, and what a Play frame asks
//! for.
use vstd::prelude::*;
use crate::data_reader::DataReader;
use crate::framing::RawPacket;
use crate::packet::{decodable, decodes_as, ConnectionState, Packet};

verus! {

/// What one non-blocking read returned.
#[derive(Debug, Clone, Copy, PartialEq, Eq, Structural)]
pub enum ReadOutcome {
    /// This many bytes (zero at end of stream).
    Bytes(usize),
    /// Nothing more for now.
    WouldBlock,
    /// A signal cut the call short.
    Interrupted,
    /// Any other error, end of file included.
    Failed,
}

/// What to do next with the run being collected.
#[derive(Debug, Clone, Copy, PartialEq, Eq, Structural)]
pub enum ReadStep {
    /// Keep the bytes and read again.
    Append(usize),
    /// The run is complete.
    Done,
    /// Read again.
    Retry,
    /// The peer is gone: tear the connection down.
    PeerGone,
}

/// A zero-length read ends the connection only as the first read of a
/// wakeup; later it just ends the run.
pub fn read_step(first_read: bool, outcome: ReadOutcome) -> (r: ReadStep)
    ensures
        r == match outcome {
            ReadOutcome::Bytes(n) => if n == 0 {
                if first_read {
                    ReadStep::PeerGone
                } else {
                    ReadStep::Done
                }
            } else {
                ReadStep::Append(n)
            },
            ReadOutcome::WouldBlock => ReadStep::Done,
            ReadOutcome::Interrupted => ReadStep::Retry,
            ReadOutcome::Failed => ReadStep::PeerGone,
        },
{
    match outcome {
        ReadOutcome::Bytes(0) => if first_read {
            ReadStep::PeerGone
        } else {
            ReadStep::Done
        },
        ReadOutcome::Bytes(n) => ReadStep::Append(n),
        ReadOutcome::WouldBlock => ReadStep::Done,
        ReadOutcome::Interrupted => ReadStep::Retry,
        ReadOutcome::Failed => ReadStep::PeerGone,
    }
}

/// What the I/O thread does with one frame from a Play connection.
#[derive(Debug)]
pub enum PlayAction {
    /// A keep-alive answer: refresh the connection's timestamp.
    Refresh,
    /// Hand the packet to the simulation thread.
    Forward(Packet),
    /// Not a Play packet that decodes: pass over it.
    Ignore,
}

/// A keep-alive refreshes the liveness timestamp; every other Play packet
/// goes to the simulation thread.
pub fn play_action(raw: &RawPacket) -> (r: PlayAction)
    ensures
        r is Ignore <==> !decodable(ConnectionState::Play, raw.id, raw.data@),
        r is Refresh <==> decodable(ConnectionState::Play, raw.id, raw.data@) && raw.id == 0,
        r matches PlayAction::Forward(p) ==> raw.id != 0 && decodes_as(
            ConnectionState::Play,
            raw.id,
            raw.data@,
            p,
        ),
{
    let mut reader = DataReader::new(raw.data);
    match Packet::read(raw.id, &mut reader, ConnectionState::Play) {
        Some(Packet::KeepAlive { .. }) => PlayAction::Refresh,
        Some(packet) => PlayAction::Forward(packet),
        None => PlayAction::Ignore,
    }
}

/// Whether a keep-alive sweep is due at `now`: `interval` or more since the
/// last one (a clock that went back counts as no time passed).
pub fn keep_alive_due(now: u64, last: u64, interval: u64) -> (r: bool)
    ensures
        r == ((if now >= last {
            now - last
        } else {
            0
        }) >= interval),
{
    let elapsed = if now >= last {
        now - last
    } else {
        0
    };
    elapsed >= interval
}

} // verus!
