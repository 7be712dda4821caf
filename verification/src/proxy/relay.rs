use vstd::prelude::*;

use crate::codec::dec::{io_error_kind, DecodeError, IoKind};
use crate::codec::enc::{lemma_peer_gone, EncodeError};
use crate::data::packet::{
    lemma_frame_in_round_trip, parse_frame_in, Packet, PacketView, ReadPacket, WritePacket,
};
use crate::proxy::error::{Error, Fault};

verus! {

/// A direction of the relay.
#[derive(Debug, Clone, Copy, PartialEq, Eq, Structural)]
pub enum Relay {
    ClientToServer,
    ServerToClient,
}

/// What relaying a stretch of input comes to.
pub struct Relayed {
    /// The frames written, one after the other.
    pub sent: Seq<u8>,
    /// The input that was not relayed.
    pub rest: Seq<u8>,
    /// Why relaying stopped before the end of the input, if it did.
    pub fault: Option<Fault>,
}

/// Relays `bytes` frame by frame in one framing: each frame is read as a
/// packet and written again, until the input is used up or a frame cannot be
/// read or written. A write that fails because the other end has gone ends
/// the relay there without a fault.
#[verifier::opaque]
pub open spec fn relayed(bytes: Seq<u8>, mode: Option<usize>) -> Relayed
    decreases bytes.len(),
{
    if bytes.len() == 0 {
        Relayed { sent: Seq::empty(), rest: bytes, fault: None }
    } else {
        match parse_frame_in(bytes, mode is Some) {
            Ok((packet, taken)) => match packet.framed_in(mode) {
                Ok(frame) => if 0 < taken <= bytes.len() {
                    let more = relayed(bytes.skip(taken as int), mode);
                    Relayed { sent: frame + more.sent, rest: more.rest, fault: more.fault }
                } else {
                    Relayed { sent: Seq::empty(), rest: bytes, fault: None }
                },
                Err(fault) => Relayed {
                    sent: Seq::empty(),
                    rest: bytes,
                    fault: if fault.peer_gone() {
                        None
                    } else {
                        Some(Fault::Encode(fault))
                    },
                },
            },
            Err(fault) => Relayed {
                sent: Seq::empty(),
                rest: bytes,
                fault: Some(Fault::Decode(fault)),
            },
        }
    }
}

/// What relaying comes to after `sent` has been written already.
pub open spec fn relayed_after(sent: Seq<u8>, more: Relayed) -> Relayed {
    Relayed { sent: sent + more.sent, rest: more.rest, fault: more.fault }
}

/// Relays what has arrived in one direction: every frame from the one end
/// is read as a packet and written to the other end, in the framing that
/// `min_compression` fixes, until the input is used up.
///
/// `client_in` and `server_in` hold what arrived from each end, `client_out`
/// and `server_out` take what goes to each. The pair of the other direction
/// is left alone. A frame that cannot be read or written stays in the input
/// and stops the relay: with the failure, or without one where the write
/// failed because the other end has gone. What a writer of frames wrote in
/// the same framing is passed on byte for byte.
pub fn relay(
    direction: Relay,
    client_in: &mut &[u8],
    server_in: &mut &[u8],
    client_out: &mut Vec<u8>,
    server_out: &mut Vec<u8>,
    min_compression: Option<usize>,
) -> (r: Result<(), Error>)
    ensures
        match direction {
            Relay::ClientToServer => relay_ensures(
                old(client_in)@,
                final(client_in)@,
                old(server_out)@,
                final(server_out)@,
                min_compression,
                r,
            ) && relay_passes(
                old(client_in)@,
                final(client_in)@,
                old(server_out)@,
                final(server_out)@,
                min_compression,
                r,
            ) && final(server_in)@ == old(server_in)@ && final(client_out)@ == old(client_out)@,
            Relay::ServerToClient => relay_ensures(
                old(server_in)@,
                final(server_in)@,
                old(client_out)@,
                final(client_out)@,
                min_compression,
                r,
            ) && relay_passes(
                old(server_in)@,
                final(server_in)@,
                old(client_out)@,
                final(client_out)@,
                min_compression,
                r,
            ) && final(client_in)@ == old(client_in)@ && final(server_out)@ == old(server_out)@,
        },
{
    match direction {
        Relay::ClientToServer => pump(client_in, server_out, min_compression),
        Relay::ServerToClient => pump(server_in, client_out, min_compression),
    }
}

/// What `relay` owes in its direction: the outcome that `relayed` gives.
/// It stops at the first frame that cannot be read or written, after the
/// frames before that one, and the input is left at it; it fails exactly
/// where the outcome holds a fault, with that fault.
pub open spec fn relay_ensures(
    input: Seq<u8>,
    input_after: Seq<u8>,
    output: Seq<u8>,
    output_after: Seq<u8>,
    mode: Option<usize>,
    r: Result<(), Error>,
) -> bool {
    let outcome = relayed(input, mode);
    &&& input_after == outcome.rest
    &&& output_after == output + outcome.sent
    &&& match r {
        Ok(_) => outcome.fault is None,
        Err(e) => outcome.fault == Some(e@),
    }
}

/// The frames of packets one after the other, in one framing.
pub open spec fn frames(packets: Seq<PacketView>, mode: Option<usize>) -> Seq<u8>
    decreases packets.len(),
{
    if packets.len() == 0 {
        Seq::empty()
    } else {
        packets[0].frame_in(mode) + frames(packets.drop_first(), mode)
    }
}

/// Whether `input` is what a writer of frames wrote of the packets in this
/// framing: every packet has a frame, and `input` is the frames one after
/// the other.
pub open spec fn written_as(packets: Seq<PacketView>, mode: Option<usize>, input: Seq<u8>) -> bool {
    &&& forall|i: int| 0 <= i < packets.len() ==> (#[trigger] packets[i]).framed_in(mode) is Ok
    &&& input == frames(packets, mode)
}

/// What `relay` owes on input that a writer of frames wrote in the same
/// framing, with compression or without: all of it is passed on byte for
/// byte, nothing is left unread, and the relay succeeds.
pub open spec fn relay_passes(
    input: Seq<u8>,
    input_after: Seq<u8>,
    output: Seq<u8>,
    output_after: Seq<u8>,
    mode: Option<usize>,
    r: Result<(), Error>,
) -> bool {
    forall|packets: Seq<PacketView>| #[trigger]
        written_as(packets, mode, input) ==> r is Ok && output_after == output + input
            && input_after.len() == 0
}

/// Whether a relay of the frames of `packets` stands before the frame of
/// packet `k`: `unread` is what the packets from there on were written as,
/// and `sent` and `unread` together are the whole input.
pub open spec fn relayed_up_to(
    packets: Seq<PacketView>,
    mode: Option<usize>,
    k: int,
    sent: Seq<u8>,
    unread: Seq<u8>,
    whole: Seq<u8>,
) -> bool {
    &&& 0 <= k <= packets.len()
    &&& unread == frames(packets.skip(k), mode)
    &&& sent + unread == whole
}

/// Whether a relay that has sent `sent` and not yet read `unread` is on its
/// way through `whole`, whatever packets `whole` was written of.
pub open spec fn on_its_way(
    mode: Option<usize>,
    sent: Seq<u8>,
    unread: Seq<u8>,
    whole: Seq<u8>,
) -> bool {
    forall|packets: Seq<PacketView>| #[trigger]
        written_as(packets, mode, whole) ==> exists|k: int| #[trigger]
            relayed_up_to(packets, mode, k, sent, unread, whole)
}

/// Whether reading at `start` gave what the frame at its front was written
/// of, where a writer of this framing wrote that frame.
pub open spec fn reads_head(
    mode: Option<usize>,
    start: Seq<u8>,
    read: Result<Packet, DecodeError>,
    after: Seq<u8>,
) -> bool {
    forall|packet: PacketView|
        #![trigger packet.framed_in(mode)]
        packet.framed_in(mode) is Ok && packet.frame_in(mode).is_prefix_of(start) ==> (
        read matches Ok(p) && p@ == packet) && after == start.skip(
            packet.frame_in(mode).len() as int,
        )
}

/// A relay starts on its way.
proof fn lemma_relay_starts(mode: Option<usize>, whole: Seq<u8>)
    ensures
        on_its_way(mode, Seq::empty(), whole, whole),
{
    assert forall|packets: Seq<PacketView>| #[trigger]
        written_as(packets, mode, whole) implies exists|k: int| #[trigger]
        relayed_up_to(packets, mode, k, Seq::empty(), whole, whole) by {
        assert(packets.skip(0) == packets);
        assert(Seq::<u8>::empty() + whole == whole);
        assert(relayed_up_to(packets, mode, 0, Seq::empty(), whole, whole));
    }
}

/// A relay on its way that has nothing left to read has sent the whole.
proof fn lemma_relay_ends(mode: Option<usize>, sent: Seq<u8>, whole: Seq<u8>, packets: Seq<PacketView>)
    requires
        on_its_way(mode, sent, Seq::empty(), whole),
        written_as(packets, mode, whole),
    ensures
        sent == whole,
{
    let k = choose|k: int| #[trigger] relayed_up_to(packets, mode, k, sent, Seq::empty(), whole);
    assert(sent + Seq::<u8>::empty() == sent);
}

/// A relay on its way that has something left to read stands before a
/// frame: reading gives the packet of that frame, which can be written
/// again as the same frame, and the relay is on its way after it.
proof fn lemma_relay_goes_on(
    mode: Option<usize>,
    sent: Seq<u8>,
    start: Seq<u8>,
    whole: Seq<u8>,
    read: Result<Packet, DecodeError>,
    after: Seq<u8>,
    packets: Seq<PacketView>,
)
    requires
        on_its_way(mode, sent, start, whole),
        written_as(packets, mode, whole),
        start.len() > 0,
        reads_head(mode, start, read, after),
    ensures
        read matches Ok(p) && p@.framed_in(mode) is Ok && start == p@.frame_in(mode) + after
            && exists|k: int| #[trigger]
            relayed_up_to(packets, mode, k, sent + p@.frame_in(mode), after, whole),
{
    let k = choose|k: int| #[trigger] relayed_up_to(packets, mode, k, sent, start, whole);
    lemma_frames_from(packets, mode, k);
    let frame = packets[k].frame_in(mode);
    let rest = frames(packets.skip(k + 1), mode);
    assert(packets[k].framed_in(mode) is Ok);
    assert(frame.is_prefix_of(start));
    assert((frame + rest).skip(frame.len() as int) == rest);
    assert(sent + frame + rest == sent + (frame + rest));
    assert(relayed_up_to(packets, mode, k + 1, sent + frame, after, whole));
}

/// The frames from packet `k` on are the frame of that packet and then the
/// frames after it.
proof fn lemma_frames_from(packets: Seq<PacketView>, mode: Option<usize>, k: int)
    requires
        0 <= k <= packets.len(),
    ensures
        k < packets.len() ==> frames(packets.skip(k), mode) == packets[k].frame_in(mode) + frames(
            packets.skip(k + 1),
            mode,
        ),
        k == packets.len() ==> frames(packets.skip(k), mode) == Seq::<u8>::empty(),
{
    let from = packets.skip(k);
    if k < packets.len() {
        assert(from[0] == packets[k]);
        assert(from.drop_first() == packets.skip(k + 1));
    }
}

/// Relays the frames of `from` to `to`, as [`relay`] does in its direction.
pub fn pump(from: &mut &[u8], to: &mut Vec<u8>, min_compression: Option<usize>) -> (r: Result<
    (),
    Error,
>)
    ensures
        relay_ensures(old(from)@, final(from)@, old(to)@, final(to)@, min_compression, r),
        relay_passes(old(from)@, final(from)@, old(to)@, final(to)@, min_compression, r),
{
    let ghost mut sent: Seq<u8> = Seq::empty();
    proof {
        reveal(relayed);
        let all = relayed(from@, min_compression);
        assert(sent + all.sent == all.sent);
        lemma_relay_starts(min_compression, from@);
    }
    loop
        invariant
            to@ == old(to)@ + sent,
            relayed(old(from)@, min_compression) == relayed_after(
                sent,
                relayed(from@, min_compression),
            ),
            on_its_way(min_compression, sent, from@, old(from)@),
        decreases from@.len(),
    {
        proof {
            reveal(relayed);
        }
        // Check if EOF has been reached
        if from.len() == 0 {
            proof {
                assert(sent + Seq::<u8>::empty() == sent);
                assert(from@ == Seq::<u8>::empty());
                assert forall|packets: Seq<PacketView>| #[trigger]
                    written_as(packets, min_compression, old(from)@) implies to@ == old(to)@ + old(
                    from,
                )@ by {
                    lemma_relay_ends(min_compression, sent, old(from)@, packets);
                }
            }
            return Ok(());
        }
        let start: &[u8] = *from;
        let ghost sent_before = sent;
        let read = from.read_packet(min_compression.is_some());
        assert(reads_head(min_compression, start@, read, from@));
        let packet = match read {
            Ok(packet) => packet,
            Err(err) => {
                proof {
                    assert(sent + Seq::<u8>::empty() == sent);
                    assert forall|packets: Seq<PacketView>| #[trigger]
                        written_as(packets, min_compression, old(from)@) implies false by {
                        lemma_relay_goes_on(
                            min_compression,
                            sent,
                            start@,
                            old(from)@,
                            read,
                            from@,
                            packets,
                        );
                    }
                }
                return Err(Error::Decode(err));
            },
        };
        let ghost unread = from@;
        match to.write_packet(&packet, min_compression) {
            Ok(_) => {
                proof {
                    let frame = packet@.framed_in(min_compression)->Ok_0;
                    let more = relayed(from@, min_compression);
                    assert(sent + (frame + more.sent) == sent + frame + more.sent);
                    assert(old(to)@ + sent + frame == old(to)@ + (sent + frame));
                    assert(start@.len() > from@.len()) by {
                        crate::data::packet::lemma_frame_taken(start@, min_compression is Some);
                    }
                    sent = sent + frame;
                    assert forall|packets: Seq<PacketView>| #[trigger]
                        written_as(packets, min_compression, old(from)@) implies exists|k: int|
                     #[trigger]
                        relayed_up_to(packets, min_compression, k, sent, from@, old(from)@) by {
                        lemma_relay_goes_on(
                            min_compression,
                            sent_before,
                            start@,
                            old(from)@,
                            read,
                            from@,
                            packets,
                        );
                    }
                }
            },
            Err(err) => {
                *from = start;
                proof {
                    assert(sent + Seq::<u8>::empty() == sent);
                    assert forall|packets: Seq<PacketView>| #[trigger]
                        written_as(packets, min_compression, old(from)@) implies false by {
                        lemma_relay_goes_on(
                            min_compression,
                            sent,
                            start@,
                            old(from)@,
                            read,
                            unread,
                            packets,
                        );
                    }
                }
                return end_on_write_failure(err);
            },
        }
    }
}

/// Whether every one of the packets has a frame in this framing whose
/// content can be taken out again.
pub open spec fn all_framed(packets: Seq<PacketView>, mode: Option<usize>) -> bool {
    forall|i: int|
        0 <= i < packets.len() ==> (#[trigger] packets[i]).framed_in(mode) is Ok
            && packets[i].reads_back(mode)
}

/// The relay passes on what a writer of frames wrote in the same framing,
/// byte for byte, and leaves nothing unread.
pub proof fn lemma_relay_is_verbatim(packets: Seq<PacketView>, mode: Option<usize>)
    requires
        all_framed(packets, mode),
    ensures
        relayed(frames(packets, mode), mode) == (Relayed {
            sent: frames(packets, mode),
            rest: Seq::empty(),
            fault: None,
        }),
    decreases packets.len(),
{
    reveal(relayed);
    if packets.len() > 0 {
        let first = packets[0];
        let others = packets.drop_first();
        let rest = frames(others, mode);
        assert(first.framed_in(mode) is Ok && first.reads_back(mode));
        assert forall|i: int| 0 <= i < others.len() implies (#[trigger] others[i]).framed_in(
            mode,
        ) is Ok && others[i].reads_back(mode) by {
            assert(packets[i + 1].framed_in(mode) is Ok);
        }
        lemma_frame_in_round_trip(first, mode, rest);
        crate::data::packet::lemma_frame_taken(first.frame_in(mode) + rest, mode is Some);
        lemma_relay_is_verbatim(others, mode);
    }
}

/// Packets that all stay under the threshold of a framing with compression
/// have frames whose content can be taken out again: the relay passes such
/// frames on byte for byte.
pub proof fn lemma_relay_is_verbatim_under_threshold(packets: Seq<PacketView>, threshold: usize)
    requires
        forall|i: int|
            0 <= i < packets.len() ==> (#[trigger] packets[i]).raw().len() < threshold
                && packets[i].raw().len() < i32::MAX,
    ensures
        all_framed(packets, Some(threshold)),
        relayed(frames(packets, Some(threshold)), Some(threshold)) == (Relayed {
            sent: frames(packets, Some(threshold)),
            rest: Seq::empty(),
            fault: None,
        }),
{
    assert forall|i: int| 0 <= i < packets.len() implies (#[trigger] packets[i]).framed_in(
        Some(threshold),
    ) is Ok && packets[i].reads_back(Some(threshold)) by {
        assert(packets[i].raw().len() < threshold);
    }
    lemma_relay_is_verbatim(packets, Some(threshold));
}

/// How a relay ends on a write that failed: without an error where the
/// other end has gone away, which only closes the relay, and with the
/// failure otherwise.
pub fn end_on_write_failure(error: EncodeError) -> (r: Result<(), Error>)
    ensures
        r == if error@.peer_gone() {
            Ok::<(), Error>(())
        } else {
            Err::<(), Error>(Error::Encode(error))
        },
{
    proof {
        lemma_peer_gone(error);
    }
    let gone = match error.get_io_error() {
        Some(err) => match io_error_kind(err) {
            IoKind::BrokenPipe => true,
            _ => false,
        },
        None => false,
    };
    if gone {
        Ok(())
    } else {
        Err(Error::Encode(error))
    }
}

} // verus!
