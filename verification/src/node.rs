//! The client session state machine. A Node listens until the channel is
//! quiet and a Link is known, negotiates a session, sends one signed request
//! as a stop-and-wait transfer, collects the response the same way, and
//! reports its progress through plain events. While it is listening, idle or
//! negotiating it never puts a Data packet on the air.

use vstd::prelude::*;
use vstd::pervasive::unreached;
use vstd::string::StringSliceAdditionalSpecFns;

use crate::buffers::{bytes_eq, copy_range, sat_add, sat_add_spec, ByteReader, FrameSink};
use crate::packet::{
    decode, encode, lemma_encoded_not_data, lemma_plain_data_round_trip, lemma_plain_round_trip,
    spec_data_capacity, spec_data_frame_under, spec_encoded, spec_encoded_data_frame,
    spec_fec_bytes, spec_frame_is_data, spec_frame_of, spec_packet_eq, AckPacket, BroadcastPacket,
    ControlPacket, ControlType, DataPacket, Packet,
};
use crate::recv_block::{spec_ack_frame, spec_effective_idx};
use crate::packet::{spec_chunks_codewords, spec_chunks_data, spec_is_data_packet_with};
use crate::recv_block::{RecvBlock, RecvError, RecvResult};
use crate::request_response::ResponseReceiver;
use crate::send_block::{spec_calc_delay, RetryConfig, SendBlock, SendError, SendResult};

verus! {

/// With nothing heard for this long, the channel counts as idle.
pub const LISTEN_TIMEOUT: usize = 10_000;

/// With no session activity for this long, the session counts as gone.
pub const IDLE_TIMEOUT: usize = 2_000;

/// What a Node has learned about a Link from its beacon.
#[derive(Debug, Clone, PartialEq)]
pub struct LinkConfig {
    pub fec_enabled: bool,
    pub retry_enabled: bool,
    pub major_ver: u8,
    pub minor_ver: u8,
    pub link_width: u16,
    pub callsign: Vec<u8>,
}

/// The parity parameter a Node sends requests with.
pub open spec fn spec_node_fec(c: LinkConfig) -> Option<u8> {
    if c.fec_enabled {
        Some(0u8)
    } else {
        None
    }
}

impl LinkConfig {
    /// A learned configuration the Node will act on: the callsign fits a
    /// control frame and the width leaves room for payload.
    pub open spec fn wf(&self) -> bool {
        &&& 1 <= self.callsign@.len() <= 40
        &&& self.link_width <= 256
        &&& spec_data_capacity(spec_node_fec(*self), self.link_width as int) >= 1
    }
}

/// The session states, as the owner sees them.
#[derive(Debug, Clone, Copy, PartialEq, Eq, Structural)]
pub enum ClientState {
    Listening,
    Idle,
    Negotiating,
    Established,
    Sending,
    Receiving,
}

/// What a Node reports to its owner.
#[derive(Debug, Clone, Copy, PartialEq, Eq, Structural)]
pub enum ClientEvent {
    Connected,
    ConnectionFailed,
    Disconnected,
    StateChange(ClientState, ClientState),
    SendProgress(usize, usize),
    RecvProgress(usize),
    ResponseComplete,
}

/// An event fed to a state that does not handle it.
#[derive(Debug, Clone, Copy, PartialEq, Eq, Structural)]
pub enum NodeError {
    InvalidEvent,
    TooLarge,
}

/// The session states with their working data.
pub enum State {
    Listening { idle: usize },
    Idle,
    Negotiating { retry_count: usize, last_attempt: usize },
    Established { idle: usize },
    SendingRequest { send: SendBlock },
    ReceivingResponse { recv: RecvBlock },
}

/// The owner's name of a state.
pub open spec fn spec_translate(s: State) -> ClientState {
    match s {
        State::Listening { .. } => ClientState::Listening,
        State::Idle => ClientState::Idle,
        State::Negotiating { .. } => ClientState::Negotiating,
        State::Established { .. } => ClientState::Established,
        State::SendingRequest { .. } => ClientState::Sending,
        State::ReceivingResponse { .. } => ClientState::Receiving,
    }
}

/// Length of an encoded control frame carrying the two callsigns, used to
/// derive the negotiation retry delay.
pub open spec fn spec_ctrl_bytes(source_len: int, dest_len: int, fec: bool) -> int {
    let inner = 2 + source_len + dest_len;
    if fec {
        3 * inner + 6
    } else {
        inner
    }
}

/// Length of an encoded control frame carrying the two callsigns.
pub fn calc_ctrl_bytes(source: &Vec<u8>, dest: &Vec<u8>, fec: bool) -> (r: usize)
    requires
        source@.len() <= 40,
        dest@.len() <= 40,
    ensures
        r == spec_ctrl_bytes(source@.len() as int, dest@.len() as int, fec),
{
    let inner = 2 + source.len() + dest.len();
    if fec {
        3 * inner + 6
    } else {
        inner
    }
}

/// The send machine of a sending state.
pub open spec fn spec_state_send(s: State) -> SendBlock {
    match s {
        State::SendingRequest { send } => send,
        _ => arbitrary(),
    }
}

/// The receive machine of a receiving state.
pub open spec fn spec_state_recv(s: State) -> RecvBlock {
    match s {
        State::ReceivingResponse { recv } => recv,
        _ => arbitrary(),
    }
}

/// A beacon whose values the Node will act on: the callsign fits a control
/// frame and the width leaves room for payload within one coding block.
pub open spec fn spec_sane_beacon(b: BroadcastPacket) -> bool {
    &&& 1 <= b.callsign@.len() <= 40
    &&& b.link_width <= 256
    &&& b.link_width >= 4 + (if b.fec_enabled {
        8int
    } else {
        0int
    })
}

/// The configuration a beacon teaches.
pub open spec fn spec_learned_config(c: LinkConfig, b: BroadcastPacket) -> bool {
    &&& c.fec_enabled == b.fec_enabled
    &&& c.retry_enabled == b.retry_enabled
    &&& c.major_ver == b.major_ver
    &&& c.minor_ver == b.minor_ver
    &&& c.link_width == b.link_width
    &&& c.callsign@ == b.callsign@
}

/// The coding under which incoming bytes are read: the learned one or, while
/// none is known, the coded attempt that is tried first. (While no coding is
/// known a plain frame could in principle also satisfy the coded attempt, so
/// only the coded shape is pinned then.)
pub open spec fn spec_rx_fec(n: Node) -> bool {
    match n.config {
        Some(c) => c.fec_enabled,
        None => true,
    }
}

/// The bytes are the frame of this packet under the Node's receive coding.
pub open spec fn spec_hears(n: Node, data: Seq<u8>, p: Packet) -> bool {
    spec_frame_of(data, p, spec_rx_fec(n))
}

/// The bytes are the frame of this Data packet, with this payload body, under
/// the Node's receive coding.
pub open spec fn spec_hears_data(n: Node, data: Seq<u8>, h: DataPacket, body: Seq<u8>) -> bool {
    spec_data_frame_under(data, h, body, spec_rx_fec(n))
}

/// The client endpoint.
pub struct Node {
    pub state: State,
    pub callsign: Vec<u8>,
    pub config: Option<LinkConfig>,
    pub retry_config: RetryConfig,
}

impl Node {
    /// Well-formed: the name and retry bounds are sane, every state past
    /// Listening knows a Link, and a running transfer's machine is sound.
    pub open spec fn wf(&self) -> bool {
        &&& 1 <= self.callsign@.len() <= 40
        &&& self.retry_config.wf()
        &&& (self.config matches Some(c) ==> c.wf())
        &&& match self.state {
            State::Listening { .. } => true,
            State::Idle => self.config is Some,
            State::Negotiating { .. } => self.config is Some,
            State::Established { .. } => self.config is Some,
            State::SendingRequest { send } => self.config is Some && send.wf()
                && send.stats.packets_sent >= 1,
            State::ReceivingResponse { recv } => self.config is Some && recv.wf() && recv.fec
                == self.config.unwrap().fec_enabled,
        }
    }

    /// A Node that is listening, idle or negotiating has no transfer: these
    /// are the states in which it never emits a Data frame.
    pub open spec fn spec_quiet_state(s: State) -> bool {
        (s is Listening) || (s is Idle) || (s is Negotiating)
    }

    /// Opens a client under its own callsign, listening; the Link may be
    /// known already or learned from its beacon.
    pub fn new(callsign: &str, config: Option<LinkConfig>, retry_config: RetryConfig) -> (r: Node)
        requires
            1 <= callsign.spec_bytes().len() <= 40,
            retry_config.wf(),
            (config matches Some(c) ==> c.wf()),
        ensures
            r.wf(),
            r.state matches State::Listening { idle } && idle == 0,
            r.config == config,
            r.retry_config == retry_config,
            r.callsign@ == callsign.spec_bytes(),
    {
        let callsign = vstd::string::StrSliceExecFns::as_bytes_vec(callsign);
        Node { state: State::Listening { idle: 0 }, callsign, config, retry_config }
    }

    /// The owner's name of the current state.
    pub fn get_state(&self) -> (r: ClientState)
        ensures
            r == spec_translate(self.state),
    {
        match &self.state {
            State::Listening { .. } => ClientState::Listening,
            State::Idle => ClientState::Idle,
            State::Negotiating { .. } => ClientState::Negotiating,
            State::Established { .. } => ClientState::Established,
            State::SendingRequest { .. } => ClientState::Sending,
            State::ReceivingResponse { .. } => ClientState::Receiving,
        }
    }

    /// What the Node knows about the Link.
    pub fn get_link(&self) -> (r: &Option<LinkConfig>)
        ensures
            *r == self.config,
    {
        &self.config
    }

    /// Ships a LinkRequest control frame toward the known Link.
    fn send_negotiation_request(&self, packet_writer: &mut FrameSink)
        requires
            self.wf(),
            self.config is Some,
        ensures
            final(packet_writer)@ == old(packet_writer)@.push(
                spec_encoded(
                    Packet::Control(
                        ControlPacket {
                            ctrl_type: ControlType::LinkRequest,
                            source_callsign: self.callsign,
                            dest_callsign: self.config.unwrap().callsign,
                        },
                    ),
                    self.config.unwrap().fec_enabled,
                ),
            ),
            !spec_frame_is_data(final(packet_writer)@.last()),
    {
        let config = match &self.config {
            Some(c) => c,
            None => {
                proof {
                    assert(false);
                }
                unreached()
            },
        };
        let packet = Packet::Control(
            ControlPacket {
                ctrl_type: ControlType::LinkRequest,
                source_callsign: copy_range(self.callsign.as_slice(), 0, self.callsign.len()),
                dest_callsign: copy_range(config.callsign.as_slice(), 0, config.callsign.len()),
            },
        );
        proof {
            assert(self.callsign@.subrange(0, self.callsign@.len() as int) =~= self.callsign@);
            assert(config.callsign@.subrange(0, config.callsign@.len() as int)
                =~= config.callsign@);
            lemma_encoded_not_data(packet, config.fec_enabled);
        }
        let mut frame: Vec<u8> = Vec::new();
        encode(&packet, config.fec_enabled, &mut frame);
        packet_writer.write_frame(&frame);
    }

    /// Asks the Node to open a session. Only meaningful while idle: it ships
    /// a LinkRequest and starts negotiating.
    pub fn connect(&mut self, packet_writer: &mut FrameSink, events: &mut Vec<ClientEvent>) -> (r:
        Result<(), NodeError>)
        requires
            old(self).wf(),
        ensures
            final(self).wf(),
            final(self).callsign@ == old(self).callsign@,
            final(self).config == old(self).config,
            old(events)@.is_prefix_of(final(events)@),
            old(self).state is Idle ==> {
                &&& r is Ok
                &&& final(self).state matches State::Negotiating { retry_count, last_attempt }
                    && retry_count == 0 && last_attempt == 0
                &&& final(packet_writer)@ == old(packet_writer)@.push(
                    spec_encoded(
                        Packet::Control(
                            ControlPacket {
                                ctrl_type: ControlType::LinkRequest,
                                source_callsign: old(self).callsign,
                                dest_callsign: old(self).config.unwrap().callsign,
                            },
                        ),
                        old(self).config.unwrap().fec_enabled,
                    ),
                )
                &&& final(events)@ == old(events)@.push(
                    ClientEvent::StateChange(ClientState::Idle, ClientState::Negotiating),
                )
            },
            !(old(self).state is Idle) ==> r == Err::<(), NodeError>(NodeError::InvalidEvent)
                && *final(self) == *old(self) && final(packet_writer)@ == old(packet_writer)@
                && final(events)@ == old(events)@,
            spec_quiet_frames(old(self).state, old(packet_writer)@, final(packet_writer)@),
    {
        match &self.state {
            State::Idle => {
                self.send_negotiation_request(packet_writer);
                self.state = State::Negotiating { retry_count: 0, last_attempt: 0 };
                events.push(ClientEvent::StateChange(ClientState::Idle, ClientState::Negotiating));
                Ok(())
            },
            _ => Err(NodeError::InvalidEvent),
        }
    }

    /// Asks the Node to close the session: it ships a LinkClose and stays in
    /// the session until the Link clears it. Only meaningful established.
    pub fn disconnect(
        &mut self,
        packet_writer: &mut FrameSink,
        events: &mut Vec<ClientEvent>,
    ) -> (r: Result<(), NodeError>)
        requires
            old(self).wf(),
        ensures
            final(self).wf(),
            final(self).callsign@ == old(self).callsign@,
            final(self).config == old(self).config,
            final(events)@ == old(events)@,
            old(self).state matches State::Established { idle } ==> {
                &&& r is Ok
                &&& final(self).state == old(self).state
                &&& final(packet_writer)@ == old(packet_writer)@.push(
                    spec_encoded(
                        Packet::Control(
                            ControlPacket {
                                ctrl_type: ControlType::LinkClose,
                                source_callsign: old(self).callsign,
                                dest_callsign: old(self).config.unwrap().callsign,
                            },
                        ),
                        old(self).config.unwrap().fec_enabled,
                    ),
                )
            },
            !(old(self).state is Established) ==> r == Err::<(), NodeError>(
                NodeError::InvalidEvent,
            ) && *final(self) == *old(self) && final(packet_writer)@ == old(packet_writer)@,
            spec_quiet_frames(old(self).state, old(packet_writer)@, final(packet_writer)@),
    {
        match &self.state {
            State::Established { .. } => {
                let config = match &self.config {
                    Some(c) => c,
                    None => {
                        proof {
                            assert(false);
                        }
                        unreached()
                    },
                };
                let packet = Packet::Control(
                    ControlPacket {
                        ctrl_type: ControlType::LinkClose,
                        source_callsign: copy_range(
                            self.callsign.as_slice(),
                            0,
                            self.callsign.len(),
                        ),
                        dest_callsign: copy_range(
                            config.callsign.as_slice(),
                            0,
                            config.callsign.len(),
                        ),
                    },
                );
                proof {
                    assert(self.callsign@.subrange(0, self.callsign@.len() as int)
                        =~= self.callsign@);
                    assert(config.callsign@.subrange(0, config.callsign@.len() as int)
                        =~= config.callsign@);
                }
                let mut frame: Vec<u8> = Vec::new();
                encode(&packet, config.fec_enabled, &mut frame);
                packet_writer.write_frame(&frame);
                Ok(())
            },
            _ => Err(NodeError::InvalidEvent),
        }
    }

    /// Submits one encoded request of `data_size` bytes for sending. Only
    /// meaningful established; a request that cannot fit the index space of
    /// one transfer is refused.
    pub fn start_request(
        &mut self,
        request_reader: &mut ByteReader,
        data_size: usize,
        packet_writer: &mut FrameSink,
        events: &mut Vec<ClientEvent>,
    ) -> (r: Result<(), NodeError>)
        requires
            old(self).wf(),
            old(request_reader).wf(),
            old(request_reader).remaining_seq().len() == data_size,
        ensures
            final(self).wf(),
            final(self).callsign@ == old(self).callsign@,
            final(self).config == old(self).config,
            !(old(self).state is Established) ==> r == Err::<(), NodeError>(
                NodeError::InvalidEvent,
            ) && *final(self) == *old(self) && final(packet_writer)@ == old(packet_writer)@,
            r is Ok ==> old(self).state is Established && final(self).state is SendingRequest
                && final(packet_writer)@.len() == old(packet_writer)@.len() + 1,
            r is Ok ==> (final(self).state matches State::SendingRequest { send }
                && send.data_size == data_size && final(request_reader).wf() && final(request_reader).remaining_seq().len() == send.data_size - send.stats.bytes_sent),
            old(self).state is Established ==> ({
                let c = old(self).config.unwrap();
                let bpp = spec_data_capacity(spec_node_fec(c), c.link_width as int);
                let end = data_size <= bpp;
                &&& (data_size > 16382 * bpp ==> r == Err::<(), NodeError>(NodeError::TooLarge)
                    && *final(self) == *old(self) && final(packet_writer)@ == old(packet_writer)@
                    && final(events)@ == old(events)@)
                &&& (data_size <= 16382 * bpp ==> ({
                    &&& r is Ok
                    &&& final(packet_writer)@ == old(packet_writer)@.push(
                        spec_encoded_data_frame(
                            DataPacket {
                                packet_idx: 0,
                                fec_bytes: 0,
                                start_flag: true,
                                end_flag: end,
                            },
                            old(request_reader).remaining_seq(),
                            c.fec_enabled,
                            c.link_width as int,
                        ),
                    )
                    &&& final(events)@ == old(events)@.push(
                        ClientEvent::StateChange(ClientState::Established, ClientState::Sending),
                    )
                    &&& final(self).state matches State::SendingRequest { send }
                        && send.packet_idx == 0 && send.stats.packets_sent == 1 && send.eof == end
                }))
            }),
            spec_quiet_frames(old(self).state, old(packet_writer)@, final(packet_writer)@),
    {
        match &self.state {
            State::Established { .. } => {
                let config = match &self.config {
                    Some(c) => c,
                    None => {
                        proof {
                            assert(false);
                        }
                        unreached()
                    },
                };
                let fec = if config.fec_enabled {
                    Some(0u8)
                } else {
                    None
                };
                let bpp = crate::packet::data_bytes_per_packet(
                    fec,
                    config.link_width as usize,
                );
                if data_size > 16382 * bpp {
                    return Err(NodeError::TooLarge);
                }
                let mut send = SendBlock::new(
                    data_size,
                    config.link_width,
                    fec,
                    config.retry_enabled,
                    self.retry_config,
                );
                send.send(packet_writer, request_reader);
                events.push(
                    ClientEvent::StateChange(ClientState::Established, ClientState::Sending),
                );
                self.state = State::SendingRequest { send };
                Ok(())
            },
            _ => Err(NodeError::InvalidEvent),
        }
    }

    /// Folds a send outcome into the session: completion without a response
    /// ends the exchange, completion with one opens the receiving transfer,
    /// and a timeout falls back to listening.
    fn after_send(
        &mut self,
        res: Result<SendResult, SendError>,
        events: &mut Vec<ClientEvent>,
    )
        requires
            old(self).wf(),
            old(self).state is SendingRequest,
        ensures
            final(self).wf(),
            final(self).callsign@ == old(self).callsign@,
            final(self).config == old(self).config,
            old(events)@.is_prefix_of(final(events)@),
            (final(self).state is SendingRequest) ==> final(self).state == old(self).state,
            (res == Ok::<SendResult, SendError>(SendResult::Active) || res == Ok::<
                SendResult,
                SendError,
            >(SendResult::PendingResponse)) ==> *final(self) == *old(self) && final(events)@
                == old(events)@,
            res == Ok::<SendResult, SendError>(SendResult::CompleteResponse) ==> ({
                &&& final(self).state matches State::ReceivingResponse { recv } && recv.packet_idx
                    == 0 && !recv.waiting_for_response && recv.response is None && recv.fec == old(
                    self,
                ).config.unwrap().fec_enabled
                &&& final(events)@ == old(events)@.push(
                    ClientEvent::StateChange(ClientState::Sending, ClientState::Receiving),
                )
            }),
            res == Ok::<SendResult, SendError>(SendResult::CompleteNoResponse) ==> ({
                &&& final(self).state matches State::Established { idle } && idle == 0
                &&& final(events)@ == old(events)@.push(ClientEvent::ResponseComplete).push(
                    ClientEvent::StateChange(ClientState::Sending, ClientState::Established),
                )
            }),
            res == Err::<SendResult, SendError>(SendError::TimeOut) ==> ({
                &&& final(self).state matches State::Listening { idle } && idle == 0
                &&& final(events)@ == old(events)@.push(
                    ClientEvent::StateChange(ClientState::Sending, ClientState::Listening),
                )
            }),
    {
        match res {
            Ok(SendResult::CompleteResponse) => {
                let fec = match &self.config {
                    Some(c) => c.fec_enabled,
                    None => false,
                };
                events.push(
                    ClientEvent::StateChange(ClientState::Sending, ClientState::Receiving),
                );
                self.state = State::ReceivingResponse { recv: RecvBlock::new(fec) };
            },
            Ok(SendResult::CompleteNoResponse) => {
                events.push(ClientEvent::ResponseComplete);
                events.push(
                    ClientEvent::StateChange(ClientState::Sending, ClientState::Established),
                );
                self.state = State::Established { idle: 0 };
            },
            Ok(SendResult::Active) | Ok(SendResult::PendingResponse) => {},
            Err(SendError::TimeOut) => {
                events.push(
                    ClientEvent::StateChange(ClientState::Sending, ClientState::Listening),
                );
                self.state = State::Listening { idle: 0 };
            },
        }
    }

    /// Feeds received bytes to the Node. They are decoded under the learned
    /// coding, or under both codings while none is known; bytes that decode
    /// under neither count as foreign traffic, which only an idle Node
    /// tolerates. The decoded packet then drives the current state. While
    /// listening, idle or negotiating, nothing put on the air is a Data
    /// frame.
    #[verifier::rlimit(50)]
    pub fn on_data(
        &mut self,
        data: &[u8],
        packet_writer: &mut FrameSink,
        response_writer: &mut ResponseReceiver,
        request_reader: &mut ByteReader,
        events: &mut Vec<ClientEvent>,
    ) -> (r: Result<(), NodeError>)
        requires
            old(self).wf(),
            old(request_reader).wf(),
            old(self).state matches State::SendingRequest { send } ==> old(request_reader).remaining_seq().len() == send.data_size - send.stats.bytes_sent,
        ensures
            final(self).wf(),
            final(self).callsign@ == old(self).callsign@,
            old(events)@.is_prefix_of(final(events)@),
            final(request_reader).wf(),
            final(self).state matches State::SendingRequest { send } ==> final(request_reader).remaining_seq().len() == send.data_size - send.stats.bytes_sent,
            spec_quiet_frames(old(self).state, old(packet_writer)@, final(packet_writer)@),
            old(self).state is Listening ==> forall|b: BroadcastPacket|
                #[trigger] spec_hears(*old(self), data@, Packet::Broadcast(b)) && spec_sane_beacon(
                    b,
                ) ==> ({
                    &&& r is Ok
                    &&& (final(self).config matches Some(c2) && spec_learned_config(c2, b))
                    &&& final(self).state is Idle
                    &&& final(events)@ == old(events)@.push(
                        ClientEvent::StateChange(ClientState::Listening, ClientState::Idle),
                    )
                    &&& final(packet_writer)@ == old(packet_writer)@
                }),
            old(self).state is Negotiating ==> forall|c: ControlPacket|
                #[trigger] spec_hears(*old(self), data@, Packet::Control(c)) && c.ctrl_type
                    == ControlType::LinkOpened && c.source_callsign@ == old(
                    self,
                ).config.unwrap().callsign@ && c.dest_callsign@ == old(self).callsign@ ==> ({
                    &&& r is Ok
                    &&& final(self).state matches State::Established { idle } && idle == 0
                    &&& final(events)@ == old(events)@.push(ClientEvent::Connected).push(
                        ClientEvent::StateChange(
                            ClientState::Negotiating,
                            ClientState::Established,
                        ),
                    )
                    &&& final(packet_writer)@ == old(packet_writer)@
                }),
            old(self).state is Established ==> forall|c: ControlPacket|
                #[trigger] spec_hears(*old(self), data@, Packet::Control(c)) && c.ctrl_type
                    == ControlType::LinkClear && c.source_callsign@ == old(
                    self,
                ).config.unwrap().callsign@ && c.dest_callsign@ == old(self).callsign@ ==> ({
                    &&& r is Ok
                    &&& final(self).state is Idle
                    &&& final(events)@ == old(events)@.push(ClientEvent::Disconnected).push(
                        ClientEvent::StateChange(ClientState::Established, ClientState::Idle),
                    )
                    &&& final(packet_writer)@ == old(packet_writer)@
                }),
            old(self).state is SendingRequest ==> forall|a: AckPacket|
                #[trigger] spec_hears(*old(self), data@, Packet::Ack(a)) ==> ({
                    let send = spec_state_send(old(self).state);
                    &&& r is Ok
                    &&& (a.packet_idx == send.packet_idx && !a.nack && !a.pending_response && !(
                    send.pending_response || send.eof) ==> ({
                        let next = (send.packet_idx + 1) as u16;
                        let end = send.data_size - send.stats.bytes_sent <= send.spec_bpp();
                        &&& final(self).state matches State::SendingRequest { send: s2 }
                            && s2.packet_idx == next
                        &&& final(packet_writer)@ == old(packet_writer)@.push(
                            send.spec_next_frame(
                                old(request_reader).remaining_seq(),
                                next,
                                end,
                            ),
                        )
                        &&& final(events)@ == old(events)@
                    }))
                    &&& (a.packet_idx == send.packet_idx && !a.nack && !a.pending_response && (
                    send.pending_response || send.eof) && !a.response ==> ({
                        &&& final(self).state matches State::Established { idle } && idle == 0
                        &&& final(events)@ == old(events)@.push(
                            ClientEvent::ResponseComplete,
                        ).push(
                            ClientEvent::StateChange(
                                ClientState::Sending,
                                ClientState::Established,
                            ),
                        )
                    }))
                    &&& (a.packet_idx == send.packet_idx && !a.nack && !a.pending_response && (
                    send.pending_response || send.eof) && a.response ==> ({
                        &&& final(self).state matches State::ReceivingResponse { recv }
                            && recv.packet_idx == 0 && !recv.waiting_for_response
                        &&& final(events)@ == old(events)@.push(
                            ClientEvent::StateChange(
                                ClientState::Sending,
                                ClientState::Receiving,
                            ),
                        )
                    }))
                }),
            old(self).state is ReceivingResponse ==> forall|h: DataPacket, body: Seq<u8>|
                #[trigger] spec_hears_data(*old(self), data@, h, body) ==> ({
                    let recv = spec_state_recv(old(self).state);
                    &&& r is Ok
                    &&& (spec_effective_idx(h) == recv.packet_idx && (!recv.fec
                        || spec_chunks_codewords(body, spec_fec_bytes(h.fec_bytes)))
                        && !h.end_flag && !recv.waiting_for_response ==> ({
                        let block = if recv.fec {
                            spec_chunks_data(body, spec_fec_bytes(h.fec_bytes))
                        } else {
                            body
                        };
                        &&& final(self).state matches State::ReceivingResponse { recv: r2 }
                            && r2.packet_idx == recv.packet_idx + 1
                        &&& final(response_writer)@ == old(response_writer)@ + block
                        &&& final(packet_writer)@ == old(packet_writer)@.push(
                            spec_ack_frame(
                                spec_effective_idx(h),
                                false,
                                false,
                                false,
                                0u16,
                                recv.fec,
                            ),
                        )
                        &&& final(events)@ == old(events)@
                    }))
                }),
            old(self).state is ReceivingResponse ==> forall|a: AckPacket|
                #[trigger] spec_hears(*old(self), data@, Packet::Ack(a)) ==> ({
                    let recv = spec_state_recv(old(self).state);
                    &&& r is Ok
                    &&& (recv.waiting_for_response && a.packet_idx == recv.packet_idx ==> ({
                        &&& final(self).state matches State::Established { idle } && idle == 0
                        &&& final(events)@ == old(events)@.push(ClientEvent::ResponseComplete).push(
                            ClientEvent::StateChange(
                                ClientState::Receiving,
                                ClientState::Established,
                            ),
                        )
                        &&& final(packet_writer)@ == old(packet_writer)@
                    }))
                }),
    {
        let fec_known: Option<bool> = match &self.config {
            Some(c) => Some(c.fec_enabled),
            None => None,
        };
        match fec_known {
            Some(fec) => {
                match decode(data, fec) {
                    Ok(d) => {
                        proof {
                            assert forall|p: Packet|
                                crate::packet::spec_frame_of(data@, p, fec) implies (
                            spec_packet_eq(p, d.0) && d.1 == 0) by {
                                if fec {
                                    assert(data@ == crate::packet::spec_encode_fec(p));
                                } else {
                                    lemma_plain_round_trip(p);
                                }
                            }
                            assert forall|hh: DataPacket, body: Seq<u8>|
                                spec_data_frame_under(data@, hh, body, fec) implies (
                            spec_is_data_packet_with(d.0, hh, body) && d.1 == 0) by {
                                if fec {
                                    assert(data@ == crate::packet::spec_data_frame_bytes(
                                        hh,
                                        body,
                                    ));
                                } else {
                                    lemma_plain_data_round_trip(hh, body);
                                }
                            }
                        }
                        let res = self.on_packet(
                            &d,
                            packet_writer,
                            response_writer,
                            request_reader,
                            events,
                        );
                        proof {
                            if old(self).state is Listening {
                                assert forall|b: BroadcastPacket|
                                    spec_hears(*old(self), data@, Packet::Broadcast(b))
                                        && spec_sane_beacon(b) implies (res is Ok && (
                                self.config matches Some(c2) && spec_learned_config(c2, b))
                                    && self.state is Idle && events@ == old(events)@.push(
                                    ClientEvent::StateChange(
                                        ClientState::Listening,
                                        ClientState::Idle,
                                    ),
                                ) && packet_writer@ == old(packet_writer)@) by {
                                    assert(crate::packet::spec_frame_of(
                                        data@,
                                        Packet::Broadcast(b),
                                        fec,
                                    ));
                                    assert(spec_packet_eq(Packet::Broadcast(b), d.0) && d.1
                                        == 0);
                                }
                            }
                            if old(self).state is Negotiating {
                                assert forall|c: ControlPacket|
                                    spec_hears(*old(self), data@, Packet::Control(c))
                                        && c.ctrl_type == ControlType::LinkOpened
                                        && c.source_callsign@ == old(
                                        self,
                                    ).config.unwrap().callsign@ && c.dest_callsign@ == old(
                                        self,
                                    ).callsign@ implies (res is Ok && (self.state matches
                                    State::Established { idle } && idle == 0) && events@ == old(
                                    events,
                                )@.push(ClientEvent::Connected).push(
                                    ClientEvent::StateChange(
                                        ClientState::Negotiating,
                                        ClientState::Established,
                                    ),
                                ) && packet_writer@ == old(packet_writer)@) by {
                                    assert(crate::packet::spec_frame_of(
                                        data@,
                                        Packet::Control(c),
                                        fec,
                                    ));
                                    assert(spec_packet_eq(Packet::Control(c), d.0) && d.1 == 0);
                                }
                            }
                            if old(self).state is Established {
                                assert forall|c: ControlPacket|
                                    spec_hears(*old(self), data@, Packet::Control(c))
                                        && c.ctrl_type == ControlType::LinkClear
                                        && c.source_callsign@ == old(
                                        self,
                                    ).config.unwrap().callsign@ && c.dest_callsign@ == old(
                                        self,
                                    ).callsign@ implies (res is Ok && self.state is Idle
                                    && events@ == old(events)@.push(
                                    ClientEvent::Disconnected,
                                ).push(
                                    ClientEvent::StateChange(
                                        ClientState::Established,
                                        ClientState::Idle,
                                    ),
                                ) && packet_writer@ == old(packet_writer)@) by {
                                    assert(crate::packet::spec_frame_of(
                                        data@,
                                        Packet::Control(c),
                                        fec,
                                    ));
                                    assert(spec_packet_eq(Packet::Control(c), d.0) && d.1 == 0);
                                }
                            }
                        }
                        res
                    },
                    Err(_e) => {
                        proof {
                            assert forall|p: Packet| !crate::packet::spec_frame_of(
                                data@,
                                p,
                                fec,
                            ) by {
                                if crate::packet::spec_frame_of(data@, p, fec) {
                                    if fec {
                                        assert(data@ == crate::packet::spec_encode_fec(p));
                                    } else {
                                        lemma_plain_round_trip(p);
                                    }
                                }
                            }
                            assert forall|hh: DataPacket, body: Seq<u8>|
                                !spec_data_frame_under(data@, hh, body, fec) by {
                                if spec_data_frame_under(data@, hh, body, fec) {
                                    if fec {
                                        assert(data@ == crate::packet::spec_data_frame_bytes(
                                            hh,
                                            body,
                                        ));
                                    } else {
                                        lemma_plain_data_round_trip(hh, body);
                                    }
                                }
                            }
                        }
                        self.on_other_data(events)
                    },
                }
            },
            None => {
                match decode(data, true) {
                    Ok(d) => {
                        proof {
                            assert forall|p: Packet|
                                crate::packet::spec_frame_of(data@, p, true) implies (
                            spec_packet_eq(p, d.0) && d.1 == 0) by {
                                if true {
                                    assert(data@ == crate::packet::spec_encode_fec(p));
                                } else {
                                    lemma_plain_round_trip(p);
                                }
                            }
                            assert forall|hh: DataPacket, body: Seq<u8>|
                                spec_data_frame_under(data@, hh, body, true) implies (
                            spec_is_data_packet_with(d.0, hh, body) && d.1 == 0) by {
                                if true {
                                    assert(data@ == crate::packet::spec_data_frame_bytes(
                                        hh,
                                        body,
                                    ));
                                } else {
                                    lemma_plain_data_round_trip(hh, body);
                                }
                            }
                        }
                        let res = self.on_packet(
                            &d,
                            packet_writer,
                            response_writer,
                            request_reader,
                            events,
                        );
                        proof {
                            if old(self).state is Listening {
                                assert forall|b: BroadcastPacket|
                                    spec_hears(*old(self), data@, Packet::Broadcast(b))
                                        && spec_sane_beacon(b) implies (res is Ok && (
                                self.config matches Some(c2) && spec_learned_config(c2, b))
                                    && self.state is Idle && events@ == old(events)@.push(
                                    ClientEvent::StateChange(
                                        ClientState::Listening,
                                        ClientState::Idle,
                                    ),
                                ) && packet_writer@ == old(packet_writer)@) by {
                                    assert(crate::packet::spec_frame_of(
                                        data@,
                                        Packet::Broadcast(b),
                                        true,
                                    ));
                                    assert(spec_packet_eq(Packet::Broadcast(b), d.0) && d.1
                                        == 0);
                                }
                            }
                            if old(self).state is Negotiating {
                                assert forall|c: ControlPacket|
                                    spec_hears(*old(self), data@, Packet::Control(c))
                                        && c.ctrl_type == ControlType::LinkOpened
                                        && c.source_callsign@ == old(
                                        self,
                                    ).config.unwrap().callsign@ && c.dest_callsign@ == old(
                                        self,
                                    ).callsign@ implies (res is Ok && (self.state matches
                                    State::Established { idle } && idle == 0) && events@ == old(
                                    events,
                                )@.push(ClientEvent::Connected).push(
                                    ClientEvent::StateChange(
                                        ClientState::Negotiating,
                                        ClientState::Established,
                                    ),
                                ) && packet_writer@ == old(packet_writer)@) by {
                                    assert(crate::packet::spec_frame_of(
                                        data@,
                                        Packet::Control(c),
                                        true,
                                    ));
                                    assert(spec_packet_eq(Packet::Control(c), d.0) && d.1 == 0);
                                }
                            }
                            if old(self).state is Established {
                                assert forall|c: ControlPacket|
                                    spec_hears(*old(self), data@, Packet::Control(c))
                                        && c.ctrl_type == ControlType::LinkClear
                                        && c.source_callsign@ == old(
                                        self,
                                    ).config.unwrap().callsign@ && c.dest_callsign@ == old(
                                        self,
                                    ).callsign@ implies (res is Ok && self.state is Idle
                                    && events@ == old(events)@.push(
                                    ClientEvent::Disconnected,
                                ).push(
                                    ClientEvent::StateChange(
                                        ClientState::Established,
                                        ClientState::Idle,
                                    ),
                                ) && packet_writer@ == old(packet_writer)@) by {
                                    assert(crate::packet::spec_frame_of(
                                        data@,
                                        Packet::Control(c),
                                        true,
                                    ));
                                    assert(spec_packet_eq(Packet::Control(c), d.0) && d.1 == 0);
                                }
                            }
                        }
                        res
                    },
                    Err(_e) => {
                        proof {
                            assert forall|p: Packet| !crate::packet::spec_frame_of(
                                data@,
                                p,
                                true,
                            ) by {
                                if crate::packet::spec_frame_of(data@, p, true) {
                                    if true {
                                        assert(data@ == crate::packet::spec_encode_fec(p));
                                    } else {
                                        lemma_plain_round_trip(p);
                                    }
                                }
                            }
                            assert forall|hh: DataPacket, body: Seq<u8>|
                                !spec_data_frame_under(data@, hh, body, true) by {
                                if spec_data_frame_under(data@, hh, body, true) {
                                    if true {
                                        assert(data@ == crate::packet::spec_data_frame_bytes(
                                            hh,
                                            body,
                                        ));
                                    } else {
                                        lemma_plain_data_round_trip(hh, body);
                                    }
                                }
                            }
                        }
                        match decode(data, false) {
                            Ok(d) => self.on_packet(
                                &d,
                                packet_writer,
                                response_writer,
                                request_reader,
                                events,
                            ),
                            Err(_e2) => self.on_other_data(events),
                        }
                    },
                }
            },
        }
    }

    /// Foreign traffic: it keeps a listening Node listening with a fresh
    /// idle clock, sends an idle Node back to listening, and is an error to
    /// every state past that.
    fn on_other_data(&mut self, events: &mut Vec<ClientEvent>) -> (r: Result<(), NodeError>)
        requires
            old(self).wf(),
        ensures
            final(self).wf(),
            final(self).callsign@ == old(self).callsign@,
            final(self).config == old(self).config,
            old(events)@.is_prefix_of(final(events)@),
            old(self).state is Listening ==> ({
                &&& r is Ok
                &&& final(self).state matches State::Listening { idle } && idle == 0
                &&& final(events)@ == old(events)@
            }),
            old(self).state is Idle ==> ({
                &&& r is Ok
                &&& final(self).state matches State::Listening { idle } && idle == 0
                &&& final(events)@ == old(events)@.push(
                    ClientEvent::StateChange(ClientState::Idle, ClientState::Listening),
                )
            }),
            !(old(self).state is Idle) && !(old(self).state is Listening) ==> r == Err::<
                (),
                NodeError,
            >(NodeError::InvalidEvent) && final(self).state == old(self).state && final(events)@
                == old(events)@,
    {
        match &self.state {
            State::Listening { .. } => {
                // The channel is busy: keep listening from a fresh clock.
                self.state = State::Listening { idle: 0 };
                Ok(())
            },
            State::Idle => {
                events.push(ClientEvent::StateChange(ClientState::Idle, ClientState::Listening));
                self.state = State::Listening { idle: 0 };
                Ok(())
            },
            _ => Err(NodeError::InvalidEvent),
        }
    }

    /// Accepts a beacon's configuration when its values are usable: the
    /// callsign fits a control frame and the width leaves room for payload.
    fn learn_config(&mut self, b: &BroadcastPacket)
        requires
            old(self).wf(),
            !(old(self).state is SendingRequest),
            !(old(self).state is ReceivingResponse),
        ensures
            final(self).wf(),
            final(self).state == old(self).state,
            final(self).callsign@ == old(self).callsign@,
            spec_sane_beacon(*b) ==> (final(self).config matches Some(c) && spec_learned_config(
                c,
                *b,
            )),
            !spec_sane_beacon(*b) ==> final(self).config == old(self).config,
    {
        let sane = b.callsign.len() >= 1 && b.callsign.len() <= 40 && b.link_width <= 256
            && b.link_width as usize >= 4 + (if b.fec_enabled {
            8usize
        } else {
            0usize
        });
        if sane {
            proof {
                assert(b.callsign@.subrange(0, b.callsign@.len() as int) =~= b.callsign@);
            }
            self.config = Some(
                LinkConfig {
                    fec_enabled: b.fec_enabled,
                    retry_enabled: b.retry_enabled,
                    major_ver: b.major_ver,
                    minor_ver: b.minor_ver,
                    link_width: b.link_width,
                    callsign: copy_range(b.callsign.as_slice(), 0, b.callsign.len()),
                },
            );
        }
    }

    /// One decoded packet drives the current state.
    fn on_packet(
        &mut self,
        packet: &(Packet, usize),
        packet_writer: &mut FrameSink,
        response_writer: &mut ResponseReceiver,
        request_reader: &mut ByteReader,
        events: &mut Vec<ClientEvent>,
    ) -> (r: Result<(), NodeError>)
        requires
            old(self).wf(),
            packet.1 <= 4095,
            packet.0 matches Packet::Data(h, _) ==> crate::packet::spec_valid_header(h),
            old(request_reader).wf(),
            old(self).state matches State::SendingRequest { send } ==> old(request_reader).remaining_seq().len() == send.data_size - send.stats.bytes_sent,
        ensures
            final(self).wf(),
            final(self).callsign@ == old(self).callsign@,
            old(events)@.is_prefix_of(final(events)@),
            final(request_reader).wf(),
            final(self).state matches State::SendingRequest { send } ==> final(request_reader).remaining_seq().len() == send.data_size - send.stats.bytes_sent,
            spec_quiet_frames(old(self).state, old(packet_writer)@, final(packet_writer)@),
            packet.0 matches Packet::Broadcast(b) ==> {
                &&& (old(self).state is Listening ==> r is Ok && final(packet_writer)@ == old(packet_writer)@)
                &&& (old(self).state is Listening && spec_sane_beacon(b) ==> ({
                    &&& final(self).config matches Some(c2) && spec_learned_config(c2, b)
                    &&& final(self).state is Idle
                    &&& final(events)@ == old(events)@.push(
                        ClientEvent::StateChange(ClientState::Listening, ClientState::Idle),
                    )
                }))
            },
            packet.0 matches Packet::Control(c) ==> {
                &&& (old(self).state is Negotiating ==> r is Ok && final(packet_writer)@ == old(packet_writer)@ && final(self).config == old(self).config)
                &&& (old(self).state is Negotiating && c.ctrl_type == ControlType::LinkOpened
                    && c.source_callsign@ == old(self).config.unwrap().callsign@
                    && c.dest_callsign@ == old(self).callsign@ ==> ({
                    &&& final(self).state matches State::Established { idle } && idle == 0
                    &&& final(events)@ == old(events)@.push(ClientEvent::Connected).push(
                        ClientEvent::StateChange(
                            ClientState::Negotiating,
                            ClientState::Established,
                        ),
                    )
                }))
                &&& (old(self).state is Established ==> r is Ok && final(packet_writer)@ == old(packet_writer)@ && final(self).config == old(self).config)
                &&& (old(self).state is Established && c.ctrl_type == ControlType::LinkClear
                    && c.source_callsign@ == old(self).config.unwrap().callsign@
                    && c.dest_callsign@ == old(self).callsign@ ==> ({
                    &&& final(self).state is Idle
                    &&& final(events)@ == old(events)@.push(ClientEvent::Disconnected).push(
                        ClientEvent::StateChange(ClientState::Established, ClientState::Idle),
                    )
                }))
            },
            old(self).state is SendingRequest ==> ({
                let send = spec_state_send(old(self).state);
                let m = send.spec_matching_ack(packet.0);
                &&& r is Ok
                &&& (m is Some && !m.unwrap().nack && !m.unwrap().pending_response && !(
                send.pending_response || send.eof) ==> ({
                    let next = (send.packet_idx + 1) as u16;
                    let end = send.data_size - send.stats.bytes_sent <= send.spec_bpp();
                    &&& final(self).state matches State::SendingRequest { send: s2 }
                        && s2.packet_idx == next
                    &&& final(packet_writer)@ == old(packet_writer)@.push(
                        send.spec_next_frame(old(request_reader).remaining_seq(), next, end),
                    )
                    &&& final(events)@ == old(events)@
                }))
                &&& (m is Some && !m.unwrap().nack && !m.unwrap().pending_response && (
                send.pending_response || send.eof) ==> ({
                    &&& final(packet_writer)@ == old(packet_writer)@.push(
                        spec_encoded(
                            Packet::Ack(
                                AckPacket {
                                    packet_idx: send.packet_idx,
                                    nack: false,
                                    response: false,
                                    pending_response: false,
                                    corrected_errors: 0,
                                },
                            ),
                            send.fec is Some,
                        ),
                    )
                    &&& (m.unwrap().response ==> (final(self).state matches
                    State::ReceivingResponse { recv } && recv.packet_idx == 0
                        && !recv.waiting_for_response) && final(events)@ == old(events)@.push(
                        ClientEvent::StateChange(ClientState::Sending, ClientState::Receiving),
                    ))
                    &&& (!m.unwrap().response ==> (final(self).state matches State::Established {
                        idle,
                    } && idle == 0) && final(events)@ == old(events)@.push(
                        ClientEvent::ResponseComplete,
                    ).push(
                        ClientEvent::StateChange(ClientState::Sending, ClientState::Established),
                    ))
                }))
            }),
            packet.0 matches Packet::Data(h, payload) ==> {
                &&& (old(self).state is ReceivingResponse ==> ({
                    let recv = spec_state_recv(old(self).state);
                    &&& r is Ok
                    &&& (spec_effective_idx(h) == recv.packet_idx && (!recv.fec
                        || spec_chunks_codewords(payload@, spec_fec_bytes(h.fec_bytes)))
                        && !h.end_flag && !recv.waiting_for_response ==> ({
                        let block = if recv.fec {
                            spec_chunks_data(payload@, spec_fec_bytes(h.fec_bytes))
                        } else {
                            payload@
                        };
                        &&& final(self).state matches State::ReceivingResponse { recv: r2 }
                            && r2.packet_idx == recv.packet_idx + 1
                        &&& final(response_writer)@ == old(response_writer)@ + block
                        &&& final(packet_writer)@ == old(packet_writer)@.push(
                            spec_ack_frame(
                                spec_effective_idx(h),
                                false,
                                false,
                                false,
                                packet.1 as u16,
                                recv.fec,
                            ),
                        )
                        &&& final(events)@ == old(events)@
                    }))
                }))
            },
            packet.0 matches Packet::Ack(a) ==> {
                &&& (old(self).state is ReceivingResponse ==> ({
                    let recv = spec_state_recv(old(self).state);
                    &&& r is Ok
                    &&& (recv.waiting_for_response && a.packet_idx == recv.packet_idx ==> ({
                        &&& final(self).state matches State::Established { idle } && idle == 0
                        &&& final(events)@ == old(events)@.push(ClientEvent::ResponseComplete).push(
                            ClientEvent::StateChange(
                                ClientState::Receiving,
                                ClientState::Established,
                            ),
                        )
                        &&& final(packet_writer)@ == old(packet_writer)@
                    }))
                }))
            },
    {
        let mut st = State::Idle;
        core::mem::swap(&mut st, &mut self.state);
        match st {
            State::Listening { idle } => {
                self.state = State::Listening { idle };
                match &packet.0 {
                    Packet::Broadcast(b) => {
                        self.learn_config(b);
                        if self.config.is_some() {
                            events.push(
                                ClientEvent::StateChange(
                                    ClientState::Listening,
                                    ClientState::Idle,
                                ),
                            );
                            self.state = State::Idle;
                        } else {
                            self.state = State::Listening { idle: 0 };
                        }
                    },
                    Packet::Control(ctrl) => {
                        if matches!(ctrl.ctrl_type, ControlType::LinkClear)
                            && self.config.is_some() {
                            events.push(
                                ClientEvent::StateChange(
                                    ClientState::Listening,
                                    ClientState::Idle,
                                ),
                            );
                            self.state = State::Idle;
                        } else {
                            self.state = State::Listening { idle: 0 };
                        }
                    },
                    _ => {
                        self.state = State::Listening { idle: 0 };
                    },
                }
                Ok(())
            },
            State::Idle => {
                self.state = State::Idle;
                match &packet.0 {
                    Packet::Broadcast(b) => {
                        self.learn_config(b);
                    },
                    _ => {
                        events.push(
                            ClientEvent::StateChange(ClientState::Idle, ClientState::Listening),
                        );
                        self.state = State::Listening { idle: 0 };
                    },
                }
                Ok(())
            },
            State::Negotiating { retry_count, last_attempt } => {
                self.state = State::Negotiating { retry_count, last_attempt };
                match &packet.0 {
                    Packet::Control(ctrl) => {
                        if matches!(ctrl.ctrl_type, ControlType::LinkOpened) {
                            events.push(ClientEvent::Connected);
                            events.push(
                                ClientEvent::StateChange(
                                    ClientState::Negotiating,
                                    ClientState::Established,
                                ),
                            );
                            self.state = State::Established { idle: 0 };
                        }
                    },
                    _ => {},
                }
                Ok(())
            },
            State::Established { idle } => {
                self.state = State::Established { idle };
                match &packet.0 {
                    Packet::Control(ctrl) => {
                        let config = match &self.config {
                            Some(c) => c,
                            None => {
                                proof {
                                    assert(false);
                                }
                                unreached()
                            },
                        };
                        if bytes_eq(ctrl.dest_callsign.as_slice(), self.callsign.as_slice())
                            && bytes_eq(
                            ctrl.source_callsign.as_slice(),
                            config.callsign.as_slice(),
                        ) && matches!(ctrl.ctrl_type, ControlType::LinkClear) {
                            events.push(ClientEvent::Disconnected);
                            events.push(
                                ClientEvent::StateChange(
                                    ClientState::Established,
                                    ClientState::Idle,
                                ),
                            );
                            self.state = State::Idle;
                        }
                    },
                    _ => {},
                }
                Ok(())
            },
            State::SendingRequest { mut send } => {
                let res = send.on_packet(&packet.0, packet_writer, request_reader);
                self.state = State::SendingRequest { send };
                self.after_send(res, events);
                Ok(())
            },
            State::ReceivingResponse { mut recv } => {
                let res = recv.on_packet(packet, packet_writer, response_writer.sink_mut());
                match res {
                    Ok(RecvResult::Complete) => {
                        events.push(ClientEvent::ResponseComplete);
                        events.push(
                            ClientEvent::StateChange(
                                ClientState::Receiving,
                                ClientState::Established,
                            ),
                        );
                        self.state = State::Established { idle: 0 };
                    },
                    Ok(RecvResult::CompleteSendResponse) => {
                        recv.send_response(false, packet_writer);
                        self.state = State::ReceivingResponse { recv };
                    },
                    Ok(RecvResult::Active) => {
                        self.state = State::ReceivingResponse { recv };
                    },
                    Err(RecvError::TimedOut) | Err(RecvError::NotResponding) => {
                        events.push(
                            ClientEvent::StateChange(
                                ClientState::Receiving,
                                ClientState::Listening,
                            ),
                        );
                        self.state = State::Listening { idle: 0 };
                    },
                    Err(RecvError::Decode(_)) => {
                        self.state = State::ReceivingResponse { recv };
                    },
                }
                Ok(())
            },
        }
    }

    /// Advances the Node's clock: a quiet channel ends listening, a silent
    /// session ends it, a pending negotiation retries and eventually gives
    /// up, and a running send drives its own retries. While listening, idle
    /// or negotiating, nothing put on the air is a Data frame.
    pub fn tick(
        &mut self,
        ms: usize,
        packet_writer: &mut FrameSink,
        events: &mut Vec<ClientEvent>,
    ) -> (r: Result<(), NodeError>)
        requires
            old(self).wf(),
        ensures
            final(self).wf(),
            final(self).callsign@ == old(self).callsign@,
            final(self).config == old(self).config,
            old(events)@.is_prefix_of(final(events)@),
            old(self).state matches State::Listening { idle } ==> {
                let waited = sat_add_spec(idle as int, ms as int);
                &&& r is Ok
                &&& final(packet_writer)@ == old(packet_writer)@
                &&& (waited >= LISTEN_TIMEOUT && old(self).config is Some ==> final(self).state
                    is Idle && final(events)@ == old(events)@.push(
                    ClientEvent::StateChange(ClientState::Listening, ClientState::Idle),
                ))
                &&& (!(waited >= LISTEN_TIMEOUT && old(self).config is Some) ==> ({
                    &&& final(self).state matches State::Listening { idle: i2 } && i2 == waited
                    &&& final(events)@ == old(events)@
                }))
            },
            old(self).state is Idle ==> r is Ok && *final(self) == *old(self) && final(packet_writer)@ == old(packet_writer)@ && final(events)@ == old(events)@,
            old(self).state matches State::Established { idle } ==> {
                let waited = sat_add_spec(idle as int, ms as int);
                &&& r is Ok
                &&& final(packet_writer)@ == old(packet_writer)@
                &&& (waited >= IDLE_TIMEOUT ==> final(self).state is Idle && final(events)@ == old(events)@.push(ClientEvent::Disconnected).push(
                    ClientEvent::StateChange(ClientState::Established, ClientState::Idle),
                ))
                &&& (waited < IDLE_TIMEOUT ==> ({
                    &&& final(self).state matches State::Established { idle: i2 } && i2 == waited
                    &&& final(events)@ == old(events)@
                }))
            },
            old(self).state matches State::Negotiating { retry_count, last_attempt } ==> ({
                let cfg = old(self).config.unwrap();
                let cb = spec_ctrl_bytes(
                    old(self).callsign@.len() as int,
                    cfg.callsign@.len() as int,
                    cfg.fec_enabled,
                );
                let waited = sat_add_spec(last_attempt as int, ms as int);
                let next_resend = spec_calc_delay(old(self).retry_config, cb, cb);
                &&& r is Ok
                &&& (waited < next_resend ==> (final(self).state matches State::Negotiating {
                    retry_count: rc2,
                    last_attempt: la2,
                } && rc2 == retry_count && la2 == waited) && final(packet_writer)@ == old(packet_writer)@ && final(events)@ == old(events)@)
                &&& (waited >= next_resend && retry_count >= old(self).retry_config.retry_attempts
                    ==> (final(self).state matches State::Listening { idle } && idle == 0)
                    && final(events)@ == old(events)@.push(ClientEvent::ConnectionFailed).push(
                    ClientEvent::StateChange(ClientState::Negotiating, ClientState::Listening),
                ) && final(packet_writer)@ == old(packet_writer)@)
                &&& (waited >= next_resend && retry_count < old(self).retry_config.retry_attempts
                    ==> (final(self).state matches State::Negotiating {
                    retry_count: rc2,
                    last_attempt: la2,
                } && rc2 == sat_add_spec(retry_count as int, 1) && la2 == 0) && final(packet_writer)@ == old(packet_writer)@.push(
                    spec_encoded(
                        Packet::Control(
                            ControlPacket {
                                ctrl_type: ControlType::LinkRequest,
                                source_callsign: old(self).callsign,
                                dest_callsign: cfg.callsign,
                            },
                        ),
                        cfg.fec_enabled,
                    ),
                ) && final(events)@ == old(events)@)
            }),
            spec_quiet_frames(old(self).state, old(packet_writer)@, final(packet_writer)@),
    {
        let mut st = State::Idle;
        core::mem::swap(&mut st, &mut self.state);
        match st {
            State::Listening { idle } => {
                let waited = sat_add(idle, ms);
                if waited >= LISTEN_TIMEOUT && self.config.is_some() {
                    events.push(
                        ClientEvent::StateChange(ClientState::Listening, ClientState::Idle),
                    );
                    self.state = State::Idle;
                } else {
                    self.state = State::Listening { idle: waited };
                }
                Ok(())
            },
            State::Idle => {
                self.state = State::Idle;
                Ok(())
            },
            State::Negotiating { retry_count, last_attempt } => {
                let config = match &self.config {
                    Some(c) => c,
                    None => {
                        proof {
                            assert(false);
                        }
                        unreached()
                    },
                };
                let waited = sat_add(last_attempt, ms);
                let ctrl_bytes = calc_ctrl_bytes(
                    &self.callsign,
                    &config.callsign,
                    config.fec_enabled,
                );
                let next_resend = self.retry_config.calc_delay(ctrl_bytes, ctrl_bytes);
                if waited >= next_resend {
                    if retry_count >= self.retry_config.retry_attempts {
                        events.push(ClientEvent::ConnectionFailed);
                        events.push(
                            ClientEvent::StateChange(
                                ClientState::Negotiating,
                                ClientState::Listening,
                            ),
                        );
                        self.state = State::Listening { idle: 0 };
                    } else {
                        self.send_negotiation_request(packet_writer);
                        self.state = State::Negotiating {
                            retry_count: sat_add(retry_count, 1),
                            last_attempt: 0,
                        };
                    }
                } else {
                    self.state = State::Negotiating { retry_count, last_attempt: waited };
                }
                Ok(())
            },
            State::Established { idle } => {
                let waited = sat_add(idle, ms);
                if waited >= IDLE_TIMEOUT {
                    events.push(ClientEvent::Disconnected);
                    events.push(
                        ClientEvent::StateChange(ClientState::Established, ClientState::Idle),
                    );
                    self.state = State::Idle;
                } else {
                    self.state = State::Established { idle: waited };
                }
                Ok(())
            },
            State::SendingRequest { mut send } => {
                let res = send.tick(ms, packet_writer);
                self.state = State::SendingRequest { send };
                self.after_send(res, events);
                Ok(())
            },
            State::ReceivingResponse { recv } => {
                // The receive timers rest while a response is collected; the
                // session timeout governs instead once it completes.
                self.state = State::ReceivingResponse { recv };
                Ok(())
            },
        }
    }
}

/// Frames appended in a quiet state are never Data frames.
pub open spec fn spec_quiet_frames(s: State, before: Seq<Seq<u8>>, after: Seq<Seq<u8>>) -> bool {
    Node::spec_quiet_state(s) ==> before.len() <= after.len() && (forall|i: int|
        before.len() <= i < after.len() ==> !spec_frame_is_data(#[trigger] after[i]))
}

} // verus!
