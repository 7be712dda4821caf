use vstd::prelude::*;

use crate::codec::dec::Decode;
use crate::data::model::{Handshake, Hello, Intent, LoginCompression};
use crate::data::packet::{Packet, PacketView};
use crate::proxy::error::{Error, Fault};
use crate::proxy::utils::{inject_status_description_message, status_injected};

verus! {

/// One end of a proxied connection.
#[derive(Debug, Clone, Copy, PartialEq, Eq, Structural)]
pub enum Peer {
    Client,
    Server,
}

/// The packet that the status exchange waits for.
#[derive(Debug, Clone, Copy, PartialEq, Eq, Structural)]
pub enum StatusStep {
    /// The client's status request.
    Request,
    /// The server's status response.
    Response,
    /// The client's ping.
    Ping,
    /// The server's pong.
    Pong,
}

/// The packet that the login exchange waits for.
#[derive(Debug, Clone, Copy, PartialEq, Eq, Structural)]
pub enum LoginStep {
    /// The client's hello.
    Hello,
    /// The server's next login packet.
    Server,
    /// The client's answer to an encryption request, a custom query or a
    /// cookie request.
    Answer,
    /// The client's acknowledgement that login is finished.
    Acknowledged,
}

/// Where a connection stands.
#[derive(Debug, Clone, Copy, PartialEq, Eq, Structural)]
pub enum ConnectionStage {
    Handshake,
    Status(StatusStep),
    Login(LoginStep),
    Configuration,
    Play,
    End,
}

/// What the proxy knows of a connection: its stage, and the least size of
/// id and payload at which frames are compressed, if compression is on.
#[derive(Debug, Clone, Copy, PartialEq, Eq, Structural)]
pub struct ConnectionState {
    pub stage: ConnectionStage,
    pub packet_min_compression: Option<usize>,
}

/// A packet to send on, to whom, and in which framing.
#[derive(Debug)]
pub struct Forward {
    pub to: Peer,
    pub packet: Packet,
    pub min_compression: Option<usize>,
}

/// What the proxy does about a packet it has read: the packet to send on,
/// if any, and whether the connection goes on after that.
#[derive(Debug)]
pub struct Reaction {
    pub forward: Option<Forward>,
    pub result: Result<(), Error>,
}

/// The mathematical content of a [`Forward`].
pub struct ForwardView {
    pub to: Peer,
    pub packet: PacketView,
    pub min_compression: Option<usize>,
}

/// The mathematical content of a [`Reaction`].
pub struct ReactionView {
    pub forward: Option<ForwardView>,
    pub result: Result<(), Fault>,
}

impl View for Forward {
    type V = ForwardView;

    open spec fn view(&self) -> ForwardView {
        ForwardView { to: self.to, packet: self.packet@, min_compression: self.min_compression }
    }
}

impl View for Reaction {
    type V = ReactionView;

    open spec fn view(&self) -> ReactionView {
        ReactionView {
            forward: match self.forward {
                Some(forward) => Some(forward@),
                None => None,
            },
            result: match self.result {
                Ok(_) => Ok(()),
                Err(err) => Err(err@),
            },
        }
    }
}

impl ConnectionStage {
    /// The end that the next packet is read from, in the stages in which
    /// the proxy reads packets one by one.
    pub open spec fn spec_source(self) -> Option<Peer> {
        match self {
            ConnectionStage::Handshake => Some(Peer::Client),
            ConnectionStage::Status(step) => match step {
                StatusStep::Request | StatusStep::Ping => Some(Peer::Client),
                StatusStep::Response | StatusStep::Pong => Some(Peer::Server),
            },
            ConnectionStage::Login(step) => match step {
                LoginStep::Server => Some(Peer::Server),
                _ => Some(Peer::Client),
            },
            _ => None,
        }
    }

    /// The stage that follows a handshake of this intent. A transfer is a
    /// login.
    pub open spec fn after_intent(intent: Intent) -> ConnectionStage {
        match intent {
            Intent::Status => ConnectionStage::Status(StatusStep::Request),
            Intent::Login | Intent::Transfer => ConnectionStage::Login(LoginStep::Hello),
        }
    }

    /// The stage that follows a login packet of the server with this id, or
    /// none where the id is not known.
    pub open spec fn after_login_packet(id: i32) -> Option<ConnectionStage> {
        if id == 0x00 {
            Some(ConnectionStage::End)
        } else if id == 0x01 || id == 0x04 || id == 0x05 {
            Some(ConnectionStage::Login(LoginStep::Answer))
        } else if id == 0x02 {
            Some(ConnectionStage::Login(LoginStep::Acknowledged))
        } else if id == 0x03 {
            Some(ConnectionStage::Login(LoginStep::Server))
        } else {
            None
        }
    }
}

/// The framing that a login compression message of this size asks for.
pub open spec fn compression_of(size: i32) -> Option<usize> {
    if size >= 0 {
        Some(size as usize)
    } else {
        None
    }
}

impl ReactionView {
    /// Sending `packet` on to `to` in the framing of `state`, and going on.
    pub open spec fn pass(state: ConnectionState, to: Peer, packet: PacketView) -> ReactionView {
        ReactionView {
            forward: Some(
                ForwardView { to, packet, min_compression: state.packet_min_compression },
            ),
            result: Ok(()),
        }
    }

    /// Sending `packet` on to `to` in the framing of `state`, and giving up
    /// after that.
    pub open spec fn pass_and_fail(
        state: ConnectionState,
        to: Peer,
        packet: PacketView,
        fault: Fault,
    ) -> ReactionView {
        ReactionView {
            forward: Some(
                ForwardView { to, packet, min_compression: state.packet_min_compression },
            ),
            result: Err(fault),
        }
    }
}

impl ConnectionState {
    /// The state after `packet` has been read in the handshake stage, and
    /// what is done about the packet: it goes to the server, and its intent
    /// decides the next stage. One that is no handshake still goes to the
    /// server, and ends the connection.
    pub open spec fn after_handshake(self, packet: PacketView) -> (ConnectionState, ReactionView) {
        match Handshake::parse(packet.data) {
            Ok((handshake, _)) => (
                ConnectionState { stage: ConnectionStage::after_intent(handshake.intent), ..self },
                ReactionView::pass(self, Peer::Server, packet),
            ),
            Err(fault) => (
                self,
                ReactionView::pass_and_fail(self, Peer::Server, packet, Fault::Decode(fault)),
            ),
        }
    }

    /// The state after `packet` has been read at `step` of the status
    /// exchange, and what is done about the packet: each goes to the other
    /// end, the server's response with the marker added, and after the
    /// server's pong the connection is done. A response that cannot be marked
    /// goes nowhere, and ends the connection.
    pub open spec fn after_status(self, step: StatusStep, packet: PacketView) -> (
        ConnectionState,
        ReactionView,
    ) {
        match step {
            StatusStep::Request => (
                ConnectionState { stage: ConnectionStage::Status(StatusStep::Response), ..self },
                ReactionView::pass(self, Peer::Server, packet),
            ),
            StatusStep::Response => match status_injected(packet) {
                Ok(marked) => (
                    ConnectionState { stage: ConnectionStage::Status(StatusStep::Ping), ..self },
                    ReactionView::pass(self, Peer::Client, marked),
                ),
                Err(fault) => (self, ReactionView { forward: None, result: Err(fault) }),
            },
            StatusStep::Ping => (
                ConnectionState { stage: ConnectionStage::Status(StatusStep::Pong), ..self },
                ReactionView::pass(self, Peer::Server, packet),
            ),
            StatusStep::Pong => (
                ConnectionState { stage: ConnectionStage::End, ..self },
                ReactionView::pass(self, Peer::Client, packet),
            ),
        }
    }

    /// The state after `packet` has been read at `step` of the login
    /// exchange, and what is done about the packet. Each goes to the other
    /// end in the framing that held when it was read. The id of a packet of
    /// the server decides what comes next, and its compression message sets
    /// the framing of every frame after it.
    pub open spec fn after_login(self, step: LoginStep, packet: PacketView) -> (
        ConnectionState,
        ReactionView,
    ) {
        match step {
            LoginStep::Hello => match Hello::parse(packet.data) {
                Ok(_) => (
                    ConnectionState { stage: ConnectionStage::Login(LoginStep::Server), ..self },
                    ReactionView::pass(self, Peer::Server, packet),
                ),
                Err(fault) => (
                    self,
                    ReactionView::pass_and_fail(self, Peer::Server, packet, Fault::Decode(fault)),
                ),
            },
            LoginStep::Server => match ConnectionStage::after_login_packet(packet.id) {
                Some(stage) => if packet.id == 0x03 {
                    match LoginCompression::parse(packet.data) {
                        Ok((compression, _)) => (
                            ConnectionState {
                                stage,
                                packet_min_compression: compression_of(compression.size),
                            },
                            ReactionView::pass(self, Peer::Client, packet),
                        ),
                        Err(fault) => (
                            self,
                            ReactionView::pass_and_fail(
                                self,
                                Peer::Client,
                                packet,
                                Fault::Decode(fault),
                            ),
                        ),
                    }
                } else {
                    (
                        ConnectionState { stage, ..self },
                        ReactionView::pass(self, Peer::Client, packet),
                    )
                },
                None => (
                    self,
                    ReactionView::pass_and_fail(
                        self,
                        Peer::Client,
                        packet,
                        Fault::UnknownPacketId(packet.id),
                    ),
                ),
            },
            LoginStep::Answer => (
                ConnectionState { stage: ConnectionStage::Login(LoginStep::Server), ..self },
                ReactionView::pass(self, Peer::Server, packet),
            ),
            LoginStep::Acknowledged => (
                ConnectionState { stage: ConnectionStage::Configuration, ..self },
                ReactionView::pass(self, Peer::Server, packet),
            ),
        }
    }

    /// The state after `packet` has been read, and what is done about the
    /// packet. In the stages that the proxy does not interpret nothing is
    /// done here: their packets belong to the relay.
    #[verifier::opaque]
    pub open spec fn after(self, packet: PacketView) -> (ConnectionState, ReactionView) {
        match self.stage {
            ConnectionStage::Handshake => self.after_handshake(packet),
            ConnectionStage::Status(step) => self.after_status(step, packet),
            ConnectionStage::Login(step) => self.after_login(step, packet),
            _ => (self, ReactionView { forward: None, result: Ok(()) }),
        }
    }

    /// The state of a connection that was just accepted.
    #[must_use]
    pub fn new() -> (r: Self)
        ensures
            r == (ConnectionState {
                stage: ConnectionStage::Handshake,
                packet_min_compression: None,
            }),
    {
        ConnectionState { stage: ConnectionStage::Handshake, packet_min_compression: None }
    }

    /// The end to read the next packet from, or none where the proxy reads
    /// no more packets one by one: in `Configuration` and `Play` the relay
    /// takes over, at `End` the connection is done.
    #[must_use]
    pub fn source(&self) -> (r: Option<Peer>)
        ensures
            r == self.stage.spec_source(),
    {
        match self.stage {
            ConnectionStage::Handshake => Some(Peer::Client),
            ConnectionStage::Status(step) => match step {
                StatusStep::Request | StatusStep::Ping => Some(Peer::Client),
                StatusStep::Response | StatusStep::Pong => Some(Peer::Server),
            },
            ConnectionStage::Login(step) => match step {
                LoginStep::Server => Some(Peer::Server),
                _ => Some(Peer::Client),
            },
            _ => None,
        }
    }
}

/// Sends a packet on in the framing of `state`.
fn pass(state: &ConnectionState, to: Peer, packet: Packet) -> (r: Reaction)
    ensures
        r@ == ReactionView::pass(*state, to, packet@),
{
    Reaction {
        forward: Some(Forward { to, packet, min_compression: state.packet_min_compression }),
        result: Ok(()),
    }
}

/// Sends a packet on in the framing of `state`, and gives up after that.
fn pass_and_fail(state: &ConnectionState, to: Peer, packet: Packet, error: Error) -> (r: Reaction)
    ensures
        r@ == ReactionView::pass_and_fail(*state, to, packet@, error@),
{
    Reaction {
        forward: Some(Forward { to, packet, min_compression: state.packet_min_compression }),
        result: Err(error),
    }
}

/// Takes the client's handshake: it goes to the server, and its intent
/// decides the next stage.
pub fn handle_handshake(state: &mut ConnectionState, packet: Packet) -> (r: Reaction)
    ensures
        (*final(state), r@) == old(state).after_handshake(packet@),
{
    // 0x00 intention
    let mut data: &[u8] = packet.data.as_slice();
    match Handshake::decode(&mut data) {
        Ok(handshake) => {
            let before = *state;
            match handshake.intent {
                Intent::Status => state.stage = ConnectionStage::Status(StatusStep::Request),
                Intent::Login => state.stage = ConnectionStage::Login(LoginStep::Hello),
                Intent::Transfer => {
                    // a transfer out of a later stage arrives as a handshake, and a
                    // login follows it
                    state.stage = ConnectionStage::Login(LoginStep::Hello);
                },
            }
            pass(&before, Peer::Server, packet)
        },
        Err(err) => pass_and_fail(state, Peer::Server, packet, Error::Decode(err)),
    }
}

/// Takes the next packet of the status exchange.
pub fn handle_status(state: &mut ConnectionState, step: StatusStep, packet: Packet) -> (r: Reaction)
    ensures
        (*final(state), r@) == old(state).after_status(step, packet@),
{
    let before = *state;
    match step {
        // 0x00 status_request
        StatusStep::Request => {
            state.stage = ConnectionStage::Status(StatusStep::Response);
            pass(&before, Peer::Server, packet)
        },
        // 0x00 status_response
        StatusStep::Response => match inject_status_description_message(&packet) {
            Ok(packet) => {
                state.stage = ConnectionStage::Status(StatusStep::Ping);
                pass(&before, Peer::Client, packet)
            },
            Err(err) => Reaction { forward: None, result: Err(err) },
        },
        // 0x01 ping_request
        StatusStep::Ping => {
            state.stage = ConnectionStage::Status(StatusStep::Pong);
            pass(&before, Peer::Server, packet)
        },
        // 0x01 pong_response
        StatusStep::Pong => {
            state.stage = ConnectionStage::End;
            pass(&before, Peer::Client, packet)
        },
    }
}

/// Takes the next packet of the login exchange.
pub fn handle_login(state: &mut ConnectionState, step: LoginStep, packet: Packet) -> (r: Reaction)
    ensures
        (*final(state), r@) == old(state).after_login(step, packet@),
{
    let before = *state;
    match step {
        // 0x00 hello
        LoginStep::Hello => {
            let mut data: &[u8] = packet.data.as_slice();
            match Hello::decode(&mut data) {
                Ok(_) => {
                    state.stage = ConnectionStage::Login(LoginStep::Server);
                    pass(&before, Peer::Server, packet)
                },
                Err(err) => pass_and_fail(&before, Peer::Server, packet, Error::Decode(err)),
            }
        },
        LoginStep::Server => {
            match packet.id {
                // 0x00 login_disconnect
                0x00 => {
                    state.stage = ConnectionStage::End;
                },
                // 0x01 hello (set encryption), answered by 0x01 key
                0x01 => {
                    state.stage = ConnectionStage::Login(LoginStep::Answer);
                },
                // 0x02 login_finished, answered by 0x03 login_acknowledged
                0x02 => {
                    state.stage = ConnectionStage::Login(LoginStep::Acknowledged);
                },
                // 0x03 login_compression (set compression)
                0x03 => {
                    let mut data: &[u8] = packet.data.as_slice();
                    match LoginCompression::decode(&mut data) {
                        Ok(login_compression) => {
                            state.stage = ConnectionStage::Login(LoginStep::Server);
                            if login_compression.size >= 0 {
                                let min_packet_compression = login_compression.size as usize;
                                state.packet_min_compression = Some(min_packet_compression);
                            } else {
                                state.packet_min_compression = None;
                            }
                        },
                        Err(err) => {
                            return pass_and_fail(
                                &before,
                                Peer::Client,
                                packet,
                                Error::Decode(err),
                            );
                        },
                    }
                },
                // 0x04 custom_query, answered by 0x02 custom_query_answer
                0x04 => {
                    state.stage = ConnectionStage::Login(LoginStep::Answer);
                },
                // 0x05 cookie_request, answered by 0x04 cookie_response
                0x05 => {
                    state.stage = ConnectionStage::Login(LoginStep::Answer);
                },
                _ => {
                    let id = packet.id;
                    return pass_and_fail(&before, Peer::Client, packet, Error::UnknownPacketId(id));
                },
            }
            pass(&before, Peer::Client, packet)
        },
        LoginStep::Answer => {
            state.stage = ConnectionStage::Login(LoginStep::Server);
            pass(&before, Peer::Server, packet)
        },
        LoginStep::Acknowledged => {
            state.stage = ConnectionStage::Configuration;
            pass(&before, Peer::Server, packet)
        },
    }
}

/// Takes the next packet of a connection, whatever its stage.
pub fn handle_packet(state: &mut ConnectionState, packet: Packet) -> (r: Reaction)
    ensures
        (*final(state), r@) == old(state).after(packet@),
{
    proof {
        reveal(ConnectionState::after);
    }
    match state.stage {
        ConnectionStage::Handshake => handle_handshake(state, packet),
        ConnectionStage::Status(step) => handle_status(state, step, packet),
        ConnectionStage::Login(step) => handle_login(state, step, packet),
        // the relay takes these
        ConnectionStage::Configuration | ConnectionStage::Play | ConnectionStage::End => Reaction {
            forward: None,
            result: Ok(()),
        },
    }
}

/// Compression is turned on and off by the server's compression message
/// and by nothing else.
pub proof fn lemma_compression_changes_by_its_message(state: ConnectionState, packet: PacketView)
    ensures
        state.after(packet).0.packet_min_compression != state.packet_min_compression ==> {
            &&& state.stage == ConnectionStage::Login(LoginStep::Server)
            &&& packet.id == 0x03
            &&& LoginCompression::parse(packet.data) is Ok
        },
{
    reveal(ConnectionState::after);
}

/// After the server's compression message every frame is framed as the
/// message says, the message itself still as before.
pub proof fn lemma_compression_message(state: ConnectionState, packet: PacketView)
    requires
        state.stage == ConnectionStage::Login(LoginStep::Server),
        packet.id == 0x03,
        LoginCompression::parse(packet.data) is Ok,
    ensures
        state.after(packet).0.packet_min_compression == compression_of(
            LoginCompression::parse(packet.data)->Ok_0.0.size,
        ),
        state.after(packet).0.stage == state.stage,
        state.after(packet).1 == ReactionView::pass(state, Peer::Client, packet),
{
    reveal(ConnectionState::after);
}

/// What is sent on goes to the end that it did not come from, in the
/// framing that held when it was read.
pub proof fn lemma_forward_crosses(state: ConnectionState, packet: PacketView)
    ensures
        state.after(packet).1.forward matches Some(forward) ==> {
            &&& state.stage.spec_source() matches Some(source)
            &&& forward.to != source
            &&& forward.min_compression == state.packet_min_compression
        },
{
    reveal(ConnectionState::after);
}

/// Only the server's status response is changed on its way. Every other
/// packet that is sent on is the packet that was read.
pub proof fn lemma_forward_is_verbatim(state: ConnectionState, packet: PacketView)
    requires
        state.stage != ConnectionStage::Status(StatusStep::Response),
    ensures
        state.after(packet).1.forward matches Some(forward) ==> forward.packet == packet,
{
    reveal(ConnectionState::after);
}

/// A packet that ends the connection with an error leaves the state as it
/// was.
pub proof fn lemma_failure_keeps_state(state: ConnectionState, packet: PacketView)
    ensures
        state.after(packet).1.result is Err ==> state.after(packet).0 == state,
{
    reveal(ConnectionState::after);
}

/// The stages that the proxy does not interpret are not left, and nothing
/// is sent on in them.
pub proof fn lemma_relay_stages_stay(state: ConnectionState, packet: PacketView)
    requires
        state.stage.spec_source() is None,
    ensures
        state.after(packet) == (state, ReactionView { forward: None, result: Ok(()) }),
{
    reveal(ConnectionState::after);
}

/// The status exchange: four packets go through in turn, the second of
/// them marked, and then the connection is done.
pub proof fn lemma_status_exchange(
    state: ConnectionState,
    request: PacketView,
    response: PacketView,
    ping: PacketView,
    pong: PacketView,
)
    requires
        state.stage == ConnectionStage::Status(StatusStep::Request),
        status_injected(response) is Ok,
    ensures
        ({
            let (s1, r1) = state.after(request);
            let (s2, r2) = s1.after(response);
            let (s3, r3) = s2.after(ping);
            let (s4, r4) = s3.after(pong);
            &&& r1 == ReactionView::pass(state, Peer::Server, request)
            &&& r2 == ReactionView::pass(state, Peer::Client, status_injected(response)->Ok_0)
            &&& r3 == ReactionView::pass(state, Peer::Server, ping)
            &&& r4 == ReactionView::pass(state, Peer::Client, pong)
            &&& s4 == (ConnectionState { stage: ConnectionStage::End, ..state })
        }),
{
    reveal(ConnectionState::after);
}

} // verus!
