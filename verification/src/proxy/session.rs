//! A whole connection over what both ends have sent.
//!
//! A proxy on sockets reads, decides and writes in turn. Where all that the
//! two ends will send is there from the start, the same decisions fix from
//! the start what each end is sent. That is stated here, and done.

use vstd::prelude::*;

use crate::codec::dec::Decode;
use crate::codec::enc::EncodeFault;
use crate::data::model::{Handshake, Intent};
use crate::data::packet::{
    lemma_frame_round_trip, lemma_frame_taken, parse_frame_in, PacketView, ReadPacket,
    WritePacket,
};
use crate::proxy::connection::{
    handle_packet, ConnectionStage, ConnectionState, ForwardView, Peer, ReactionView, StatusStep,
};
use crate::proxy::utils::status_injected;
use crate::proxy::error::{Error, Fault};
use crate::proxy::relay::{pump, relayed};

verus! {

/// What a connection, or a stretch of one, comes to.
pub struct Outcome {
    /// The state that the connection is left in.
    pub state: ConnectionState,
    /// The bytes sent to the client.
    pub to_client: Seq<u8>,
    /// The bytes sent to the server.
    pub to_server: Seq<u8>,
    /// What the client sent and the proxy did not read.
    pub client_rest: Seq<u8>,
    /// What the server sent and the proxy did not read.
    pub server_rest: Seq<u8>,
    /// Why the proxy gave up, if it did.
    pub fault: Option<Fault>,
}

impl Outcome {
    /// Nothing is read and nothing sent.
    pub open spec fn idle(state: ConnectionState, client: Seq<u8>, server: Seq<u8>) -> Outcome {
        Outcome {
            state,
            to_client: Seq::empty(),
            to_server: Seq::empty(),
            client_rest: client,
            server_rest: server,
            fault: None,
        }
    }

    /// Nothing more is read or sent, because of `fault`.
    pub open spec fn failed(
        state: ConnectionState,
        client: Seq<u8>,
        server: Seq<u8>,
        fault: Fault,
    ) -> Outcome {
        Outcome { fault: Some(fault), ..Outcome::idle(state, client, server) }
    }

    /// This outcome, after `to_client` and `to_server` have been sent
    /// before it.
    pub open spec fn after(self, to_client: Seq<u8>, to_server: Seq<u8>) -> Outcome {
        Outcome {
            to_client: to_client + self.to_client,
            to_server: to_server + self.to_server,
            ..self
        }
    }

    /// This outcome, after `frame` has been sent to `to` before it.
    pub open spec fn after_frame(self, to: Peer, frame: Seq<u8>) -> Outcome {
        match to {
            Peer::Client => self.after(frame, Seq::empty()),
            Peer::Server => self.after(Seq::empty(), frame),
        }
    }
}

/// The frame of what is sent on, and to whom, or nothing where nothing is
/// sent on.
#[verifier::opaque]
pub open spec fn forward_frame(forward: Option<ForwardView>) -> Result<
    Option<(Peer, Seq<u8>)>,
    EncodeFault,
> {
    match forward {
        Some(found) => match found.packet.framed_in(found.min_compression) {
            Ok(frame) => Ok(Some((found.to, frame))),
            Err(fault) => Err(fault),
        },
        None => Ok(None),
    }
}

/// What the stages that the proxy interprets come to, from `state` on: the
/// end that is due is read, what the state machine says is sent on, and so
/// on until the relay is due, the connection is done, or something fails.
#[verifier::opaque]
pub open spec fn interpreted(state: ConnectionState, client: Seq<u8>, server: Seq<u8>) -> Outcome
    decreases client.len() + server.len(),
{
    match state.stage.spec_source() {
        None => Outcome::idle(state, client, server),
        Some(source) => {
            let input = match source {
                Peer::Client => client,
                Peer::Server => server,
            };
            match parse_frame_in(input, state.packet_min_compression is Some) {
                Ok((packet, taken)) => {
                    let (next, reaction) = state.after(packet);
                    let (client_rest, server_rest) = unread(source, client, server, taken);
                    match forward_frame(reaction.forward) {
                        Ok(sent) => {
                            let rest = match reaction.result {
                                Ok(_) => if 0 < taken <= input.len() {
                                    interpreted(next, client_rest, server_rest)
                                } else {
                                    Outcome::idle(next, client_rest, server_rest)
                                },
                                Err(fault) => Outcome::failed(
                                    next,
                                    client_rest,
                                    server_rest,
                                    fault,
                                ),
                            };
                            match sent {
                                Some((to, frame)) => rest.after_frame(to, frame),
                                None => rest,
                            }
                        },
                        Err(fault) => Outcome::failed(
                            next,
                            client_rest,
                            server_rest,
                            Fault::Encode(fault),
                        ),
                    }
                },
                Err(fault) => Outcome::failed(state, client, server, Fault::Decode(fault)),
            }
        },
    }
}

/// What the relay comes to in both directions, in the framing of `state`.
/// Of two directions that fail, the fault of the one towards the server is
/// kept.
pub open spec fn relayed_both(state: ConnectionState, client: Seq<u8>, server: Seq<u8>) -> Outcome {
    let up = relayed(client, state.packet_min_compression);
    let down = relayed(server, state.packet_min_compression);
    Outcome {
        state,
        to_client: down.sent,
        to_server: up.sent,
        client_rest: up.rest,
        server_rest: down.rest,
        fault: if up.fault is Some {
            up.fault
        } else {
            down.fault
        },
    }
}

/// What a connection comes to on what the client and the server send: the
/// stages that the proxy interprets, and after them, unless the connection is
/// done or has failed, the relay of what is left in both directions.
pub open spec fn proxied(client: Seq<u8>, server: Seq<u8>) -> Outcome {
    let first = interpreted(
        ConnectionState { stage: ConnectionStage::Handshake, packet_min_compression: None },
        client,
        server,
    );
    if first.fault is Some || first.state.stage == ConnectionStage::End {
        first
    } else {
        relayed_both(first.state, first.client_rest, first.server_rest).after(
            first.to_client,
            first.to_server,
        )
    }
}

/// What running a stretch of a connection owes: the outcome that is stated
/// for it. The inputs are left where the outcome leaves them, what it sends
/// is appended to what each end was sent before, and the run fails exactly
/// where the outcome holds a fault, with that fault.
pub open spec fn runs_as(
    outcome: Outcome,
    client_in: Seq<u8>,
    server_in: Seq<u8>,
    client_before: Seq<u8>,
    client_out: Seq<u8>,
    server_before: Seq<u8>,
    server_out: Seq<u8>,
    r: Result<(), Error>,
) -> bool {
    &&& client_in == outcome.client_rest
    &&& server_in == outcome.server_rest
    &&& client_out == client_before + outcome.to_client
    &&& server_out == server_before + outcome.to_server
    &&& match r {
        Ok(_) => outcome.fault is None,
        Err(e) => outcome.fault == Some(e@),
    }
}

/// What is left of the two inputs after `taken` bytes of the one from
/// `source` have been read.
pub open spec fn unread(source: Peer, client: Seq<u8>, server: Seq<u8>, taken: nat) -> (
    Seq<u8>,
    Seq<u8>,
) {
    match source {
        Peer::Client => (client.skip(taken as int), server),
        Peer::Server => (client, server.skip(taken as int)),
    }
}

/// Where no end is due, nothing is done.
proof fn lemma_interpreted_idle(state: ConnectionState, client: Seq<u8>, server: Seq<u8>)
    requires
        state.stage.spec_source() is None,
    ensures
        interpreted(state, client, server) == Outcome::idle(state, client, server),
{
    reveal(interpreted);
}

/// Where the end that is due has no whole frame, the connection fails as it
/// stands.
proof fn lemma_interpreted_unread(
    state: ConnectionState,
    client: Seq<u8>,
    server: Seq<u8>,
    source: Peer,
    input: Seq<u8>,
)
    requires
        state.stage.spec_source() == Some(source),
        input == match source {
            Peer::Client => client,
            Peer::Server => server,
        },
        parse_frame_in(input, state.packet_min_compression is Some) is Err,
    ensures
        interpreted(state, client, server) == Outcome::failed(
            state,
            client,
            server,
            Fault::Decode(parse_frame_in(input, state.packet_min_compression is Some)->Err_0),
        ),
{
    reveal(interpreted);
}

/// Where the end that is due has a frame, the packet in it is taken, what
/// the state machine says about it is sent on, and the connection goes on
/// from there unless that failed.
proof fn lemma_interpreted_step(
    state: ConnectionState,
    client: Seq<u8>,
    server: Seq<u8>,
    source: Peer,
    input: Seq<u8>,
)
    requires
        state.stage.spec_source() == Some(source),
        input == match source {
            Peer::Client => client,
            Peer::Server => server,
        },
        parse_frame_in(input, state.packet_min_compression is Some) is Ok,
    ensures
        ({
            let (packet, taken) = parse_frame_in(input, state.packet_min_compression is Some)->Ok_0;
            let (next, reaction) = state.after(packet);
            let (client_rest, server_rest) = unread(source, client, server, taken);
            interpreted(state, client, server) == match forward_frame(reaction.forward) {
                Ok(sent) => {
                    let rest = match reaction.result {
                        Ok(_) => interpreted(next, client_rest, server_rest),
                        Err(fault) => Outcome::failed(next, client_rest, server_rest, fault),
                    };
                    match sent {
                        Some((to, frame)) => rest.after_frame(to, frame),
                        None => rest,
                    }
                },
                Err(fault) => Outcome::failed(next, client_rest, server_rest, Fault::Encode(fault)),
            }
        }),
{
    reveal(interpreted);
    lemma_frame_taken(input, state.packet_min_compression is Some);
}

/// What is sent before an outcome adds up.
proof fn lemma_after_after(
    outcome: Outcome,
    to_client: Seq<u8>,
    to_server: Seq<u8>,
    to: Peer,
    frame: Seq<u8>,
)
    ensures
        outcome.after_frame(to, frame).after(to_client, to_server) == match to {
            Peer::Client => outcome.after(to_client + frame, to_server),
            Peer::Server => outcome.after(to_client, to_server + frame),
        },
        outcome.after(Seq::empty(), Seq::empty()) == outcome,
{
    assert(to_client + (frame + outcome.to_client) == (to_client + frame) + outcome.to_client);
    assert(to_server + (frame + outcome.to_server) == (to_server + frame) + outcome.to_server);
    assert(to_client + (Seq::<u8>::empty() + outcome.to_client) == to_client + outcome.to_client);
    assert(to_server + (Seq::<u8>::empty() + outcome.to_server) == to_server + outcome.to_server);
    assert(Seq::<u8>::empty() + outcome.to_client == outcome.to_client);
    assert(Seq::<u8>::empty() + outcome.to_server == outcome.to_server);
}

/// The frame of what is sent on.
proof fn lemma_forward_frame(forward: Option<ForwardView>)
    ensures
        forward_frame(forward) == match forward {
            Some(found) => match found.packet.framed_in(found.min_compression) {
                Ok(frame) => Ok::<Option<(Peer, Seq<u8>)>, EncodeFault>(Some((found.to, frame))),
                Err(fault) => Err(fault),
            },
            None => Ok(None),
        },
{
    reveal(forward_frame);
}

/// Takes a connection through the stages that the proxy interprets.
///
/// `client_in` and `server_in` hold what each end sends, `client_out` and
/// `server_out` take what each end is sent.
pub fn interpret(
    state: &mut ConnectionState,
    client_in: &mut &[u8],
    server_in: &mut &[u8],
    client_out: &mut Vec<u8>,
    server_out: &mut Vec<u8>,
) -> (r: Result<(), Error>)
    ensures
        runs_as(
            interpreted(*old(state), old(client_in)@, old(server_in)@),
            final(client_in)@,
            final(server_in)@,
            old(client_out)@,
            final(client_out)@,
            old(server_out)@,
            final(server_out)@,
            r,
        ),
        *final(state) == interpreted(*old(state), old(client_in)@, old(server_in)@).state,
{
    let ghost whole = interpreted(*state, client_in@, server_in@);
    let ghost mut to_client: Seq<u8> = Seq::empty();
    let ghost mut to_server: Seq<u8> = Seq::empty();
    proof {
        lemma_after_after(whole, to_client, to_server, Peer::Client, Seq::empty());
    }
    loop
        invariant
            client_out@ == old(client_out)@ + to_client,
            server_out@ == old(server_out)@ + to_server,
            whole == interpreted(*state, client_in@, server_in@).after(to_client, to_server),
            whole == interpreted(*old(state), old(client_in)@, old(server_in)@),
        decreases client_in@.len() + server_in@.len(),
    {
        let ghost before = *state;
        let ghost client_here = client_in@;
        let ghost server_here = server_in@;
        let source = match state.source() {
            Some(source) => source,
            None => {
                proof {
                    lemma_interpreted_idle(before, client_here, server_here);
                    assert(to_client + Seq::<u8>::empty() == to_client);
                    assert(to_server + Seq::<u8>::empty() == to_server);
                }
                return Ok(());
            },
        };
        let is_compressed = state.packet_min_compression.is_some();
        let ghost input = match source {
            Peer::Client => client_here,
            Peer::Server => server_here,
        };
        let read = match source {
            Peer::Client => client_in.read_packet(is_compressed),
            Peer::Server => server_in.read_packet(is_compressed),
        };
        let packet = match read {
            Ok(packet) => packet,
            Err(err) => {
                proof {
                    lemma_interpreted_unread(before, client_here, server_here, source, input);
                    assert(to_client + Seq::<u8>::empty() == to_client);
                    assert(to_server + Seq::<u8>::empty() == to_server);
                }
                return Err(Error::Decode(err));
            },
        };
        let reaction = handle_packet(state, packet);
        let ghost sent = forward_frame(reaction@.forward);
        let ghost rest = match reaction@.result {
            Ok(_) => interpreted(*state, client_in@, server_in@),
            Err(fault) => Outcome::failed(*state, client_in@, server_in@, fault),
        };
        proof {
            lemma_interpreted_step(before, client_here, server_here, source, input);
            lemma_frame_taken(input, is_compressed);
            lemma_forward_frame(reaction@.forward);
        }
        if let Some(forward) = reaction.forward {
            let written = match forward.to {
                Peer::Client => client_out.write_packet(&forward.packet, forward.min_compression),
                Peer::Server => server_out.write_packet(&forward.packet, forward.min_compression),
            };
            match written {
                Ok(_) => {
                    proof {
                        let frame = sent->Ok_0->Some_0.1;
                        lemma_after_after(rest, to_client, to_server, forward.to, frame);
                        match forward.to {
                            Peer::Client => {
                                assert(old(client_out)@ + to_client + frame == old(client_out)@
                                    + (to_client + frame));
                                to_client = to_client + frame;
                            },
                            Peer::Server => {
                                assert(old(server_out)@ + to_server + frame == old(server_out)@
                                    + (to_server + frame));
                                to_server = to_server + frame;
                            },
                        }
                    }
                },
                Err(err) => {
                    proof {
                        assert(to_client + Seq::<u8>::empty() == to_client);
                        assert(to_server + Seq::<u8>::empty() == to_server);
                    }
                    return Err(Error::Encode(err));
                },
            }
        }
        match reaction.result {
            Ok(_) => {},
            Err(err) => {
                proof {
                    assert(to_client + Seq::<u8>::empty() == to_client);
                    assert(to_server + Seq::<u8>::empty() == to_server);
                }
                return Err(err);
            },
        }
    }
}

/// Relays what is left of both ends in both directions. Where both fail,
/// the failure of the direction towards the server is reported.
pub fn relay_both(
    state: &ConnectionState,
    client_in: &mut &[u8],
    server_in: &mut &[u8],
    client_out: &mut Vec<u8>,
    server_out: &mut Vec<u8>,
) -> (r: Result<(), Error>)
    ensures
        runs_as(
            relayed_both(*state, old(client_in)@, old(server_in)@),
            final(client_in)@,
            final(server_in)@,
            old(client_out)@,
            final(client_out)@,
            old(server_out)@,
            final(server_out)@,
            r,
        ),
{
    let min_compression = state.packet_min_compression;
    let up = pump(client_in, server_out, min_compression);
    let down = pump(server_in, client_out, min_compression);
    match up {
        Ok(_) => down,
        Err(err) => Err(err),
    }
}

/// Takes a whole connection from the handshake on: through the stages that
/// the proxy interprets and, unless the connection is done after them, on
/// through the relay in both directions.
///
/// `client_in` and `server_in` hold what each end sends, `client_out` and
/// `server_out` take what each end is sent.
pub fn handle_connection(
    client_in: &mut &[u8],
    server_in: &mut &[u8],
    client_out: &mut Vec<u8>,
    server_out: &mut Vec<u8>,
) -> (r: Result<(), Error>)
    ensures
        runs_as(
            proxied(old(client_in)@, old(server_in)@),
            final(client_in)@,
            final(server_in)@,
            old(client_out)@,
            final(client_out)@,
            old(server_out)@,
            final(server_out)@,
            r,
        ),
{
    let mut connection_state = ConnectionState::new();
    let ghost first = interpreted(connection_state, client_in@, server_in@);
    match interpret(&mut connection_state, client_in, server_in, client_out, server_out) {
        Ok(_) => {},
        Err(err) => {
            return Err(err);
        },
    }
    match connection_state.stage {
        ConnectionStage::End => {
            return Ok(());
        },
        _ => {},
    }
    // Pump remaining data between client and server
    let ghost rest = relayed_both(connection_state, client_in@, server_in@);
    let r = relay_both(&connection_state, client_in, server_in, client_out, server_out);
    proof {
        assert(old(client_out)@ + first.to_client + rest.to_client == old(client_out)@ + (
        first.to_client + rest.to_client));
        assert(old(server_out)@ + first.to_server + rest.to_server == old(server_out)@ + (
        first.to_server + rest.to_server));
    }
    r
}

/// One step of a connection without compression: where the end that is due
/// sent the frame of `packet` and then `rest`, and the state machine sends
/// `sent` on to `to` and goes on, the connection sends the frame of `sent` and
/// goes on after the frame of `packet`.
proof fn lemma_plain_step(
    state: ConnectionState,
    client: Seq<u8>,
    server: Seq<u8>,
    packet: PacketView,
    rest: Seq<u8>,
    next: ConnectionState,
    to: Peer,
    sent: PacketView,
)
    requires
        state.packet_min_compression is None,
        packet.framed() is Ok,
        sent.framed() is Ok,
        state.stage.spec_source() is Some,
        match state.stage.spec_source()->Some_0 {
            Peer::Client => client == packet.frame() + rest,
            Peer::Server => server == packet.frame() + rest,
        },
        state.after(packet) == (next, ReactionView::pass(state, to, sent)),
    ensures
        interpreted(state, client, server) == (match state.stage.spec_source()->Some_0 {
            Peer::Client => interpreted(next, rest, server),
            Peer::Server => interpreted(next, client, rest),
        }).after_frame(to, sent.frame()),
{
    let source = state.stage.spec_source()->Some_0;
    let input = packet.frame() + rest;
    lemma_frame_round_trip(packet, rest);
    lemma_interpreted_step(state, client, server, source, input);
    lemma_forward_frame(ReactionView::pass(state, to, sent).forward);
}

/// A status exchange from end to end, for every handshake that asks for
/// status and every response that can be marked: the server is sent what
/// the client sent, the client is sent the response with the marker and then
/// the pong as it was, and the connection is done.
pub proof fn lemma_status_connection(
    handshake: PacketView,
    request: PacketView,
    response: PacketView,
    ping: PacketView,
    pong: PacketView,
)
    requires
        Handshake::parse(handshake.data) matches Ok((found, _)) && found.intent == Intent::Status,
        status_injected(response) matches Ok(marked) && marked.framed() is Ok,
        handshake.framed() is Ok,
        request.framed() is Ok,
        response.framed() is Ok,
        ping.framed() is Ok,
        pong.framed() is Ok,
    ensures
        ({
            let client = handshake.frame() + request.frame() + ping.frame();
            let server = response.frame() + pong.frame();
            let outcome = proxied(client, server);
            &&& outcome.fault is None
            &&& outcome.state.stage == ConnectionStage::End
            &&& outcome.to_server == client
            &&& outcome.to_client == status_injected(response)->Ok_0.frame() + pong.frame()
            &&& outcome.client_rest.len() == 0
            &&& outcome.server_rest.len() == 0
        }),
{
    reveal(ConnectionState::after);
    let marked = status_injected(response)->Ok_0;
    let start = ConnectionState { stage: ConnectionStage::Handshake, packet_min_compression: None };
    let s1 = ConnectionState { stage: ConnectionStage::Status(StatusStep::Request), ..start };
    let s2 = ConnectionState { stage: ConnectionStage::Status(StatusStep::Response), ..start };
    let s3 = ConnectionState { stage: ConnectionStage::Status(StatusStep::Ping), ..start };
    let s4 = ConnectionState { stage: ConnectionStage::Status(StatusStep::Pong), ..start };
    let s5 = ConnectionState { stage: ConnectionStage::End, ..start };
    let empty = Seq::<u8>::empty();
    let c0 = handshake.frame() + request.frame() + ping.frame();
    let c1 = request.frame() + ping.frame();
    let c2 = ping.frame();
    let v0 = response.frame() + pong.frame();
    let v1 = pong.frame();
    assert(c0 == handshake.frame() + c1);
    assert(c2 == ping.frame() + empty);
    assert(v1 == pong.frame() + empty);

    lemma_plain_step(start, c0, v0, handshake, c1, s1, Peer::Server, handshake);
    lemma_plain_step(s1, c1, v0, request, c2, s2, Peer::Server, request);
    lemma_plain_step(s2, c2, v0, response, v1, s3, Peer::Client, marked);
    lemma_plain_step(s3, c2, v1, ping, empty, s4, Peer::Server, ping);
    lemma_plain_step(s4, empty, v1, pong, empty, s5, Peer::Client, pong);
    lemma_interpreted_idle(s5, empty, empty);

    let o5 = Outcome::idle(s5, empty, empty);
    let o4 = o5.after_frame(Peer::Client, pong.frame());
    let o3 = o4.after_frame(Peer::Server, ping.frame());
    let o2 = o3.after_frame(Peer::Client, marked.frame());
    let o1 = o2.after_frame(Peer::Server, request.frame());
    let o0 = o1.after_frame(Peer::Server, handshake.frame());
    assert(interpreted(start, c0, v0) == o0);
    assert(o0.to_client =~= marked.frame() + pong.frame());
    assert(o0.to_server =~= c0);
}

/// A run of a status exchange from end to end succeeds: whatever a run of
/// the whole connection on these inputs leaves behind, it has sent the
/// server what the client sent, sent the client the response with the marker
/// and then the pong as it was, read both inputs to their ends, and reports
/// no error.
pub proof fn lemma_status_connection_runs(
    handshake: PacketView,
    request: PacketView,
    response: PacketView,
    ping: PacketView,
    pong: PacketView,
    client_in: Seq<u8>,
    server_in: Seq<u8>,
    client_before: Seq<u8>,
    client_out: Seq<u8>,
    server_before: Seq<u8>,
    server_out: Seq<u8>,
    r: Result<(), Error>,
)
    requires
        Handshake::parse(handshake.data) matches Ok((found, _)) && found.intent == Intent::Status,
        status_injected(response) matches Ok(marked) && marked.framed() is Ok,
        handshake.framed() is Ok,
        request.framed() is Ok,
        response.framed() is Ok,
        ping.framed() is Ok,
        pong.framed() is Ok,
        runs_as(
            proxied(
                handshake.frame() + request.frame() + ping.frame(),
                response.frame() + pong.frame(),
            ),
            client_in,
            server_in,
            client_before,
            client_out,
            server_before,
            server_out,
            r,
        ),
    ensures
        r is Ok,
        server_out == server_before + (handshake.frame() + request.frame() + ping.frame()),
        client_out == client_before + (status_injected(response)->Ok_0.frame() + pong.frame()),
        client_in.len() == 0,
        server_in.len() == 0,
{
    lemma_status_connection(handshake, request, response, ping, pong);
}

} // verus!
