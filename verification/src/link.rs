//! The gateway session state machine. A Link idles and beacons, accepts one
//! Node session at a time, receives one request transfer, fulfils it against
//! the HTTP provider, sends the encoded response back, and returns to the
//! session. Any transfer error clears the session.

use vstd::prelude::*;
use vstd::string::StringSliceAdditionalSpecFns;

use crate::buffers::{bytes_eq, sat_add, sat_add_spec, ByteReader, FrameSink};
use crate::http::{build_request, response_from_http, HttpProvider};
use crate::message::{decode_request_message, encode_response_message, ResponseMessage};
use crate::packet::{
    decode, encode, spec_data_capacity, spec_encoded, BroadcastPacket, ControlPacket, ControlType,
    Packet,
};
use crate::recv_block::{spec_ack_frame, spec_effective_idx, RecvBlock, RecvResult};
use crate::send_block::{RetryConfig, SendBlock, SendResult};
use crate::{MAJOR_VER, MINOR_VER};

verus! {

/// A session that sits connected with no traffic for this long is cleared.
pub const NEGOTIATION_TIMEOUT: usize = 2000;

/// A gateway's fixed configuration.
#[derive(Debug, Clone, PartialEq)]
pub struct LinkConfig {
    pub link_width: u16,
    pub fec: bool,
    pub retry_enabled: bool,
    pub retry: RetryConfig,
    /// Beacon period in seconds, when beaconing is on.
    pub broadcast_rate: Option<usize>,
}

/// The parity parameter a gateway sends responses with.
pub open spec fn spec_link_fec(config: LinkConfig) -> Option<u8> {
    if config.fec {
        Some(1u8)
    } else {
        None
    }
}

impl LinkConfig {
    /// The width leaves room for payload within one coding block, and the
    /// retry arithmetic stays within bounds.
    pub open spec fn wf(&self) -> bool {
        &&& self.link_width <= 256
        &&& spec_data_capacity(spec_link_fec(*self), self.link_width as int) >= 1
        &&& self.retry.wf()
    }
}

/// The session states of a gateway.
pub enum InnerState {
    /// No session; beaconing when configured.
    Idle { last_broadcast: usize },
    /// A Node holds the link but no transfer is running.
    Connected { remote: Vec<u8>, idle: usize },
    /// Receiving a request; once it completes, the HTTP response is stashed
    /// until its final ack round.
    Request { remote: Vec<u8>, request: Vec<u8>, recv: RecvBlock, response: Option<Vec<u8>> },
    /// Sending the response back.
    Response { remote: Vec<u8>, response: ByteReader, send: SendBlock },
}

/// A step a gateway may take in one event: sessions are entered through
/// Connected, transfers through Request, and a response is only ever sent
/// after a request completed.
pub open spec fn spec_state_arc(a: InnerState, b: InnerState) -> bool {
    match a {
        InnerState::Idle { .. } => (b is Idle) || (b is Connected),
        InnerState::Connected { .. } => !(b is Response),
        InnerState::Request { .. } => true,
        InnerState::Response { .. } => !(b is Request),
    }
}

/// The bytes are exactly the frame of this packet under the gateway's
/// coding.
pub open spec fn spec_link_hears(l: Link, data: Seq<u8>, p: Packet) -> bool {
    crate::packet::spec_frame_of(data, p, l.config.fec)
}

/// The bytes are exactly the frame of this Data packet, with this payload
/// body, under the gateway's coding.
pub open spec fn spec_link_hears_data(
    l: Link,
    data: Seq<u8>,
    h: crate::packet::DataPacket,
    body: Seq<u8>,
) -> bool {
    crate::packet::spec_data_frame_under(data, h, body, l.config.fec)
}

/// The send machine of a responding session.
pub open spec fn spec_session_send(s: InnerState) -> SendBlock {
    match s {
        InnerState::Response { send, .. } => send,
        _ => arbitrary(),
    }
}

/// The response payload source of a responding session.
pub open spec fn spec_session_reader(s: InnerState) -> ByteReader {
    match s {
        InnerState::Response { response, .. } => response,
        _ => arbitrary(),
    }
}

/// A gateway never moves from Idle straight to sending a response: a session
/// and a received request always come first.
pub proof fn lemma_no_idle_to_response(a: InnerState, b: InnerState)
    requires
        a is Idle,
        spec_state_arc(a, b),
    ensures
        !(b is Response),
{
}

/// The gateway endpoint.
pub struct Link {
    pub callsign: Vec<u8>,
    pub inner_state: InnerState,
    pub config: LinkConfig,
}

impl Link {
    /// Well-formed: the configuration is sound, the callsigns fit a coded
    /// control frame, and a running transfer's machine agrees with the
    /// configuration and its payload source.
    pub open spec fn wf(&self) -> bool {
        &&& self.config.wf()
        &&& 1 <= self.callsign@.len() <= 40
        &&& match self.inner_state {
            InnerState::Idle { .. } => true,
            InnerState::Connected { remote, .. } => 1 <= remote@.len() <= 40,
            InnerState::Request { remote, recv, .. } => 1 <= remote@.len() <= 40 && recv.wf()
                && recv.fec == self.config.fec,
            InnerState::Response { remote, response, send } => 1 <= remote@.len() <= 40
                && send.wf() && send.stats.packets_sent >= 1 && response.wf()
                && response.remaining_seq().len() == send.data_size - send.stats.bytes_sent
                && send.fec == spec_link_fec(self.config) && send.link_width
                == self.config.link_width,
        }
    }

    /// Opens a gateway under its own callsign, idle.
    pub fn new(callsign: &str, config: LinkConfig) -> (r: Link)
        requires
            config.wf(),
            1 <= callsign.spec_bytes().len() <= 40,
        ensures
            r.wf(),
            r.config == config,
            r.callsign@ == callsign.spec_bytes(),
            r.inner_state matches InnerState::Idle { last_broadcast } && last_broadcast == 0,
    {
        let callsign = vstd::string::StrSliceExecFns::as_bytes_vec(callsign);
        Link { callsign, inner_state: InnerState::Idle { last_broadcast: 0 }, config }
    }

    /// Ships a LinkOpened control frame for the session being accepted.
    fn send_link_established(&self, dest: &Vec<u8>, packet_writer: &mut FrameSink)
        requires
            self.wf(),
            1 <= dest@.len() <= 40,
        ensures
            final(packet_writer)@ == old(packet_writer)@.push(
                spec_encoded(
                    Packet::Control(
                        ControlPacket {
                            ctrl_type: ControlType::LinkOpened,
                            source_callsign: self.callsign,
                            dest_callsign: *dest,
                        },
                    ),
                    self.config.fec,
                ),
            ),
    {
        let packet = Packet::Control(
            ControlPacket {
                ctrl_type: ControlType::LinkOpened,
                source_callsign: crate::buffers::copy_range(
                    self.callsign.as_slice(),
                    0,
                    self.callsign.len(),
                ),
                dest_callsign: crate::buffers::copy_range(dest.as_slice(), 0, dest.len()),
            },
        );
        proof {
            lemma_copies_eq(self.callsign@, dest@);
        }
        let mut frame: Vec<u8> = Vec::new();
        encode(&packet, self.config.fec, &mut frame);
        packet_writer.write_frame(&frame);
    }

    /// Ships a LinkClear control frame that ends the session.
    fn send_disconnect(&self, dest: &Vec<u8>, packet_writer: &mut FrameSink)
        requires
            self.wf(),
            1 <= dest@.len() <= 40,
        ensures
            final(packet_writer)@ == old(packet_writer)@.push(
                spec_encoded(
                    Packet::Control(
                        ControlPacket {
                            ctrl_type: ControlType::LinkClear,
                            source_callsign: self.callsign,
                            dest_callsign: *dest,
                        },
                    ),
                    self.config.fec,
                ),
            ),
    {
        let packet = Packet::Control(
            ControlPacket {
                ctrl_type: ControlType::LinkClear,
                source_callsign: crate::buffers::copy_range(
                    self.callsign.as_slice(),
                    0,
                    self.callsign.len(),
                ),
                dest_callsign: crate::buffers::copy_range(dest.as_slice(), 0, dest.len()),
            },
        );
        proof {
            lemma_copies_eq(self.callsign@, dest@);
        }
        let mut frame: Vec<u8> = Vec::new();
        encode(&packet, self.config.fec, &mut frame);
        packet_writer.write_frame(&frame);
    }

    /// Fulfils a completed request against the HTTP provider: decode the
    /// envelope, build the request, run it, and encode the status and body
    /// as a response message; every failure on the way becomes an encoded
    /// code-500 response with a description body instead. Whatever the
    /// provider returned, the result is the encoding of a REST response
    /// message, and one that decodes whenever its body is not empty.
    fn handle_response<H: HttpProvider>(request: &Vec<u8>, http: &mut H) -> (r: Vec<u8>)
        ensures
            crate::http::spec_rest_response_bytes(r@),
            r@.len() > 3 ==> crate::message::spec_response_error(r@) is None,
    {
        let outcome: ResponseMessage = match decode_request_message(request.as_slice()) {
            Ok(env) => match build_request(&env) {
                Ok(req) => match http.request(req) {
                    Ok(resp) => response_from_http(resp.code, resp.body),
                    Err(text) => response_from_http(500, text),
                },
                Err(text) => response_from_http(500, text),
            },
            Err(_e) => response_from_http(500, crate::http::bad_envelope_text()),
        };
        let mut encoded: Vec<u8> = Vec::new();
        encode_response_message(&outcome, &mut encoded);
        proof {
            match outcome.resp_type {
                crate::message::ResponseType::REST { code, body } => {
                    assert(encoded@.skip(3) =~= body@);
                },
                _ => {},
            }
        }
        encoded
    }

    /// Runs one received packet through a transfer in progress. Returns the
    /// next session state.
    fn handle_data<H: HttpProvider>(
        &self,
        packet: &(Packet, usize),
        remote: Vec<u8>,
        request: Vec<u8>,
        mut recv: RecvBlock,
        response: Option<Vec<u8>>,
        http: &mut H,
        packet_writer: &mut FrameSink,
    ) -> (r: InnerState)
        requires
            self.wf(),
            1 <= remote@.len() <= 40,
            recv.wf(),
            recv.fec == self.config.fec,
            packet.1 <= 4095,
            packet.0 matches Packet::Data(h, _) ==> crate::packet::spec_valid_header(h),
        ensures
            spec_next_state_wf(*self, r),
            response is None ==> !(r is Response),
            packet.0 matches Packet::Data(h, payload) ==> {
                &&& (spec_effective_idx(h) == recv.packet_idx && (!recv.fec
                    || crate::packet::spec_chunks_codewords(
                    payload@,
                    crate::packet::spec_fec_bytes(h.fec_bytes),
                )) && !h.end_flag && !recv.waiting_for_response ==> ({
                    // an in-order fragment lands: the request grows and the
                    // transfer stays open
                    let block = if recv.fec {
                        crate::packet::spec_chunks_data(
                            payload@,
                            crate::packet::spec_fec_bytes(h.fec_bytes),
                        )
                    } else {
                        payload@
                    };
                    &&& r matches InnerState::Request {
                        remote: r2,
                        request: q2,
                        recv: rb,
                        response: resp2,
                    } && r2@ == remote@ && q2@ == request@ + block && rb.packet_idx
                        == recv.packet_idx + 1 && resp2 == response
                    &&& final(packet_writer)@ == old(packet_writer)@.push(
                        crate::recv_block::spec_ack_frame(
                            spec_effective_idx(h),
                            false,
                            false,
                            false,
                            packet.1 as u16,
                            recv.fec,
                        ),
                    )
                }))
                &&& (spec_effective_idx(h) == recv.packet_idx && (!recv.fec
                    || crate::packet::spec_chunks_codewords(
                    payload@,
                    crate::packet::spec_fec_bytes(h.fec_bytes),
                )) && h.end_flag && !recv.waiting_for_response ==> ({
                    // the last fragment lands: the HTTP side runs, and the
                    // pending ack and the response decision go out together
                    &&& r matches InnerState::Request {
                        remote: r2,
                        recv: rb,
                        response: resp2,
                        ..
                    } && r2@ == remote@ && rb.waiting_for_response && (resp2 matches Some(rbytes)
                        && crate::http::spec_rest_response_bytes(rbytes@))
                    &&& final(packet_writer)@ == old(packet_writer)@.push(
                        crate::recv_block::spec_ack_frame(
                            spec_effective_idx(h),
                            false,
                            false,
                            true,
                            packet.1 as u16,
                            recv.fec,
                        ),
                    ).push(
                        crate::recv_block::spec_ack_frame(
                            recv.packet_idx,
                            false,
                            true,
                            false,
                            0,
                            recv.fec,
                        ),
                    )
                }))
            },
            packet.0 matches Packet::Ack(a) ==> {
                &&& (!recv.waiting_for_response ==> ({
                    // an ack outside the handshake is a protocol error: the
                    // session is cleared
                    &&& r matches InnerState::Idle { last_broadcast } && last_broadcast == 0
                    &&& final(packet_writer)@ == old(packet_writer)@.push(
                        spec_encoded(
                            Packet::Control(
                                ControlPacket {
                                    ctrl_type: ControlType::LinkClear,
                                    source_callsign: self.callsign,
                                    dest_callsign: remote,
                                },
                            ),
                            self.config.fec,
                        ),
                    )
                }))
                &&& (recv.waiting_for_response && a.packet_idx == recv.packet_idx && (
                response matches Some(bytes) && bytes@.len() <= 16382 * spec_data_capacity(
                    spec_link_fec(self.config),
                    self.config.link_width as int,
                )) ==> ({
                    // the final ack lands and a response is stashed: the
                    // response transfer opens with its first Data frame
                    let bytes = response.unwrap();
                    let bpp = spec_data_capacity(
                        spec_link_fec(self.config),
                        self.config.link_width as int,
                    );
                    let end = bytes@.len() <= bpp;
                    &&& r matches InnerState::Response { remote: r2, send, .. } && r2@ == remote@
                        && send.packet_idx == 0 && send.data_size == bytes@.len()
                        && send.stats.packets_sent == 1
                    &&& final(packet_writer)@ == old(packet_writer)@.push(
                        crate::packet::spec_encoded_data_frame(
                            crate::packet::DataPacket {
                                packet_idx: 0,
                                fec_bytes: if self.config.fec {
                                    1u8
                                } else {
                                    0u8
                                },
                                start_flag: true,
                                end_flag: end,
                            },
                            bytes@,
                            self.config.fec,
                            self.config.link_width as int,
                        ),
                    )
                }))
            },
    {
        let mut request = request;
        let mut response = response;
        let res = recv.on_packet(packet, packet_writer, &mut request);
        match res {
            Err(_e) => {
                self.send_disconnect(&remote, packet_writer);
                InnerState::Idle { last_broadcast: 0 }
            },
            Ok(RecvResult::CompleteSendResponse) => {
                let http_response = Self::handle_response(&request, http);
                match recv.send_response(true, packet_writer) {
                    Err(_e) => InnerState::Connected { remote, idle: 0 },
                    Ok(_) => {
                        response = Some(http_response);
                        InnerState::Request { remote, request, recv, response }
                    },
                }
            },
            Ok(RecvResult::Complete) => {
                match response {
                    Some(bytes) => {
                        let bpp = crate::packet::data_bytes_per_packet(
                            link_fec(&self.config),
                            self.config.link_width as usize,
                        );
                        if bytes.len() > 16382 * bpp {
                            // The response does not fit the index space of
                            // one transfer; give the session up.
                            self.send_disconnect(&remote, packet_writer);
                            InnerState::Idle { last_broadcast: 0 }
                        } else {
                            let ghost bv: Seq<u8> = bytes@;
                            let mut send = SendBlock::new(
                                bytes.len(),
                                self.config.link_width,
                                link_fec(&self.config),
                                self.config.retry_enabled,
                                self.config.retry,
                            );
                            let mut payload = ByteReader::from_data(bytes);
                            proof {
                                assert(payload.remaining_seq() =~= bv);
                            }
                            send.send(packet_writer, &mut payload);
                            proof {
                                assert(send.spec_fec_k() == (if self.config.fec {
                                    1u8
                                } else {
                                    0u8
                                }));
                                let hdr = crate::packet::DataPacket {
                                    packet_idx: 0,
                                    fec_bytes: if self.config.fec {
                                        1u8
                                    } else {
                                        0u8
                                    },
                                    start_flag: true,
                                    end_flag: bv.len() <= spec_data_capacity(
                                        spec_link_fec(self.config),
                                        self.config.link_width as int,
                                    ),
                                };
                                assert(packet_writer@ =~= old(packet_writer)@.push(
                                    crate::packet::spec_encoded_data_frame(
                                        hdr,
                                        bv,
                                        self.config.fec,
                                        self.config.link_width as int,
                                    ),
                                ));
                            }
                            InnerState::Response { remote, response: payload, send }
                        }
                    },
                    None => InnerState::Request { remote, request, recv, response: None },
                }
            },
            Ok(RecvResult::Active) => InnerState::Request { remote, request, recv, response },
        }
    }

    /// Feeds received frame bytes to the gateway: the frame is decoded under
    /// the configured coding and handled by the current session state; bytes
    /// that do not decode are ignored. Every step follows the session arcs.
    #[verifier::rlimit(80)]
    #[verifier::spinoff_prover]
    pub fn recv_data<H: HttpProvider>(
        &mut self,
        data: &[u8],
        packet_writer: &mut FrameSink,
        http: &mut H,
    ) -> (r: Result<(), ()>)
        requires
            old(self).wf(),
        ensures
            r is Ok,
            final(self).wf(),
            final(self).config == old(self).config,
            final(self).callsign@ == old(self).callsign@,
            spec_state_arc(old(self).inner_state, final(self).inner_state),
            old(self).inner_state is Idle ==> forall|c: ControlPacket|
                #[trigger] spec_link_hears(*old(self), data@, Packet::Control(c)) && c.ctrl_type
                    == ControlType::LinkRequest && c.dest_callsign@ == old(self).callsign@ && 1
                    <= c.source_callsign@.len() <= 40 && vstd::utf8::valid_utf8(
                    c.source_callsign@,
                ) ==> ({
                    // a session opens: the caller is acknowledged and becomes
                    // the connected remote
                    &&& final(self).inner_state matches InnerState::Connected { remote, idle }
                        && remote@ == c.source_callsign@ && idle == 0
                    &&& final(packet_writer)@ == old(packet_writer)@.push(
                        spec_encoded(
                            Packet::Control(
                                ControlPacket {
                                    ctrl_type: ControlType::LinkOpened,
                                    source_callsign: old(self).callsign,
                                    dest_callsign: c.source_callsign,
                                },
                            ),
                            old(self).config.fec,
                        ),
                    )
                }),
            old(self).inner_state matches InnerState::Connected { remote, idle } ==> forall|
                c: ControlPacket,
            |
                #[trigger] spec_link_hears(*old(self), data@, Packet::Control(c))
                    && c.source_callsign@ == remote@ && c.dest_callsign@ == old(
                    self,
                ).callsign@ ==> ({
                    // a repeated LinkRequest is re-acknowledged; a LinkClose
                    // clears the session
                    &&& (c.ctrl_type == ControlType::LinkRequest ==> (final(self).inner_state
                        matches InnerState::Connected { remote: r2, idle: i2 } && r2@ == remote@
                        && i2 == idle) && final(packet_writer)@ == old(packet_writer)@.push(
                        spec_encoded(
                            Packet::Control(
                                ControlPacket {
                                    ctrl_type: ControlType::LinkOpened,
                                    source_callsign: old(self).callsign,
                                    dest_callsign: c.source_callsign,
                                },
                            ),
                            old(self).config.fec,
                        ),
                    ))
                    &&& (c.ctrl_type == ControlType::LinkClose ==> (final(self).inner_state
                        matches InnerState::Idle { last_broadcast } && last_broadcast == 0)
                        && final(packet_writer)@ == old(packet_writer)@.push(
                        spec_encoded(
                            Packet::Control(
                                ControlPacket {
                                    ctrl_type: ControlType::LinkClear,
                                    source_callsign: old(self).callsign,
                                    dest_callsign: c.source_callsign,
                                },
                            ),
                            old(self).config.fec,
                        ),
                    ))
                }),
            old(self).inner_state matches InnerState::Connected { remote, idle } ==> forall|
                h: crate::packet::DataPacket,
                body: Seq<u8>,
            |
                #[trigger] spec_link_hears_data(*old(self), data@, h, body) && h.packet_idx == 0
                    && (!old(self).config.fec || crate::packet::spec_chunks_codewords(
                    body,
                    crate::packet::spec_fec_bytes(h.fec_bytes),
                )) && !h.end_flag ==> ({
                    // the first fragment of a request opens the transfer
                    let block = if old(self).config.fec {
                        crate::packet::spec_chunks_data(
                            body,
                            crate::packet::spec_fec_bytes(h.fec_bytes),
                        )
                    } else {
                        body
                    };
                    &&& final(self).inner_state matches InnerState::Request {
                        remote: r2,
                        request: q2,
                        recv: rb,
                        response: resp2,
                    } && r2@ == remote@ && q2@ == block && rb.packet_idx == 1 && resp2 is None
                    &&& final(packet_writer)@ == old(packet_writer)@.push(
                        spec_ack_frame(0, false, false, false, 0u16, old(self).config.fec),
                    )
                }),
            old(self).inner_state is Response ==> forall|a: crate::packet::AckPacket|
                #[trigger] spec_link_hears(*old(self), data@, Packet::Ack(a)) ==> ({
                    let send = spec_session_send(old(self).inner_state);
                    let reader = spec_session_reader(old(self).inner_state);
                    &&& (a.packet_idx == send.packet_idx && !a.nack && !a.pending_response && !(
                    send.pending_response || send.eof) ==> ({
                        // the response transfer advances one fragment
                        let next = (send.packet_idx + 1) as u16;
                        let end = send.data_size - send.stats.bytes_sent <= send.spec_bpp();
                        &&& final(self).inner_state matches InnerState::Response { send: s2, .. }
                            && s2.packet_idx == next
                        &&& final(packet_writer)@ == old(packet_writer)@.push(
                            send.spec_next_frame(reader.remaining_seq(), next, end),
                        )
                    }))
                    &&& (a.packet_idx == send.packet_idx && !a.nack && !a.pending_response && (
                    send.pending_response || send.eof) ==> ({
                        // the response transfer completes and the session
                        // stays open
                        &&& final(self).inner_state matches InnerState::Connected { idle, .. }
                            && idle == 0
                        &&& final(packet_writer)@ == old(packet_writer)@.push(
                            spec_encoded(
                                Packet::Ack(
                                    crate::packet::AckPacket {
                                        packet_idx: send.packet_idx,
                                        nack: false,
                                        response: false,
                                        pending_response: false,
                                        corrected_errors: 0,
                                    },
                                ),
                                send.fec is Some,
                            ),
                        )
                    }))
                }),
    {
        let decoded = match decode(data, self.config.fec) {
            Ok(d) => {
                proof {
                    assert forall|p: Packet|
                        crate::packet::spec_frame_of(data@, p, self.config.fec) implies (
                    crate::packet::spec_packet_eq(p, d.0) && d.1 == 0) by {
                        if self.config.fec {
                            assert(data@ == crate::packet::spec_encode_fec(p));
                        } else {
                            crate::packet::lemma_plain_round_trip(p);
                        }
                    }
                    assert forall|hh: crate::packet::DataPacket, body: Seq<u8>|
                        crate::packet::spec_data_frame_under(
                            data@,
                            hh,
                            body,
                            self.config.fec,
                        ) implies (crate::packet::spec_is_data_packet_with(d.0, hh, body) && d.1
                        == 0) by {
                        if self.config.fec {
                            assert(data@ == crate::packet::spec_data_frame_bytes(hh, body));
                        } else {
                            crate::packet::lemma_plain_data_round_trip(hh, body);
                        }
                    }
                }
                d
            },
            Err(_e) => {
                proof {
                    assert forall|p: Packet| !crate::packet::spec_frame_of(
                        data@,
                        p,
                        self.config.fec,
                    ) by {
                        if crate::packet::spec_frame_of(data@, p, self.config.fec) {
                            if self.config.fec {
                                assert(data@ == crate::packet::spec_encode_fec(p));
                            } else {
                                crate::packet::lemma_plain_round_trip(p);
                            }
                        }
                    }
                    assert forall|hh: crate::packet::DataPacket, body: Seq<u8>|
                        !crate::packet::spec_data_frame_under(
                            data@,
                            hh,
                            body,
                            self.config.fec,
                        ) by {
                        if crate::packet::spec_data_frame_under(data@, hh, body, self.config.fec) {
                            if self.config.fec {
                                assert(data@ == crate::packet::spec_data_frame_bytes(hh, body));
                            } else {
                                crate::packet::lemma_plain_data_round_trip(hh, body);
                            }
                        }
                    }
                }
                return Ok(());
            },
        };

        let mut st = InnerState::Idle { last_broadcast: 0 };
        core::mem::swap(&mut st, &mut self.inner_state);

        let next: InnerState = match st {
            InnerState::Idle { last_broadcast } => {
                match &decoded.0 {
                    Packet::Control(ctrl) => {
                        if bytes_eq(ctrl.dest_callsign.as_slice(), self.callsign.as_slice())
                            && matches!(ctrl.ctrl_type, ControlType::LinkRequest) {
                            // Accept the session when the caller's name can
                            // stand in our control frames.
                            if ctrl.source_callsign.len() >= 1 && ctrl.source_callsign.len() <= 40
                                && crate::message::utf8_check(ctrl.source_callsign.as_slice()) {
                                let remote = crate::buffers::copy_range(
                                    ctrl.source_callsign.as_slice(),
                                    0,
                                    ctrl.source_callsign.len(),
                                );
                                self.send_link_established(&remote, packet_writer);
                                proof {
                                    assert(remote@ =~= ctrl.source_callsign@);
                                    assert forall|c: ControlPacket|
                                        spec_link_hears(*old(self), data@, Packet::Control(c))
                                            && c.ctrl_type == ControlType::LinkRequest
                                            && c.dest_callsign@ == old(self).callsign@ && 1
                                            <= c.source_callsign@.len() <= 40
                                            && vstd::utf8::valid_utf8(
                                            c.source_callsign@,
                                        ) implies (remote@ == c.source_callsign@ && packet_writer@
                                        == old(packet_writer)@.push(
                                        spec_encoded(
                                            Packet::Control(
                                                ControlPacket {
                                                    ctrl_type: ControlType::LinkOpened,
                                                    source_callsign: old(self).callsign,
                                                    dest_callsign: c.source_callsign,
                                                },
                                            ),
                                            old(self).config.fec,
                                        ),
                                    )) by {
                                        assert(crate::packet::spec_frame_of(
                                            data@,
                                            Packet::Control(c),
                                            old(self).config.fec,
                                        ));
                                        assert(crate::packet::spec_packet_eq(
                                            Packet::Control(c),
                                            decoded.0,
                                        ));
                                        crate::packet::lemma_control_frame_by_views(
                                            ControlPacket {
                                                ctrl_type: ControlType::LinkOpened,
                                                source_callsign: self.callsign,
                                                dest_callsign: remote,
                                            },
                                            ControlPacket {
                                                ctrl_type: ControlType::LinkOpened,
                                                source_callsign: old(self).callsign,
                                                dest_callsign: c.source_callsign,
                                            },
                                            old(self).config.fec,
                                        );
                                    }
                                }
                                InnerState::Connected { remote, idle: 0 }
                            } else {
                                proof {
                                assert forall|c: ControlPacket|
                                    !(spec_link_hears(*old(self), data@, Packet::Control(c))
                                        && c.ctrl_type == ControlType::LinkRequest
                                        && c.dest_callsign@ == old(self).callsign@ && 1
                                        <= c.source_callsign@.len() <= 40
                                        && vstd::utf8::valid_utf8(c.source_callsign@)) by {
                                    if spec_link_hears(*old(self), data@, Packet::Control(c)) {
                                        assert(crate::packet::spec_frame_of(
                                            data@,
                                            Packet::Control(c),
                                            old(self).config.fec,
                                        ));
                                        assert(crate::packet::spec_packet_eq(
                                            Packet::Control(c),
                                            decoded.0,
                                        ));
                                    }
                                }
                            }
                                InnerState::Idle { last_broadcast }
                            }
                        } else {
                            proof {
                                assert forall|c: ControlPacket|
                                    !(spec_link_hears(*old(self), data@, Packet::Control(c))
                                        && c.ctrl_type == ControlType::LinkRequest
                                        && c.dest_callsign@ == old(self).callsign@ && 1
                                        <= c.source_callsign@.len() <= 40
                                        && vstd::utf8::valid_utf8(c.source_callsign@)) by {
                                    if spec_link_hears(*old(self), data@, Packet::Control(c)) {
                                        assert(crate::packet::spec_frame_of(
                                            data@,
                                            Packet::Control(c),
                                            old(self).config.fec,
                                        ));
                                        assert(crate::packet::spec_packet_eq(
                                            Packet::Control(c),
                                            decoded.0,
                                        ));
                                    }
                                }
                            }
                            InnerState::Idle { last_broadcast }
                        }
                    },
                    _ => {
                        proof {
                                assert forall|c: ControlPacket|
                                    !(spec_link_hears(*old(self), data@, Packet::Control(c))
                                        && c.ctrl_type == ControlType::LinkRequest
                                        && c.dest_callsign@ == old(self).callsign@ && 1
                                        <= c.source_callsign@.len() <= 40
                                        && vstd::utf8::valid_utf8(c.source_callsign@)) by {
                                    if spec_link_hears(*old(self), data@, Packet::Control(c)) {
                                        assert(crate::packet::spec_frame_of(
                                            data@,
                                            Packet::Control(c),
                                            old(self).config.fec,
                                        ));
                                        assert(crate::packet::spec_packet_eq(
                                            Packet::Control(c),
                                            decoded.0,
                                        ));
                                    }
                                }
                            }
                        InnerState::Idle { last_broadcast }
                    },
                }
            },
            InnerState::Connected { remote, idle } => {
                let start_data = match &decoded.0 {
                    Packet::Data(header, _) => header.packet_idx == 0,
                    _ => false,
                };
                if start_data {
                    proof {
                    assert forall|c: ControlPacket|
                        !(spec_link_hears(*old(self), data@, Packet::Control(c))
                            && c.source_callsign@ == remote@ && c.dest_callsign@ == old(
                            self,
                        ).callsign@ && (c.ctrl_type == ControlType::LinkRequest || c.ctrl_type
                            == ControlType::LinkClose)) by {
                        if spec_link_hears(*old(self), data@, Packet::Control(c)) {
                            assert(crate::packet::spec_frame_of(
                                data@,
                                Packet::Control(c),
                                old(self).config.fec,
                            ));
                            assert(crate::packet::spec_packet_eq(Packet::Control(c), decoded.0));
                        }
                    }
                }
                    let recv = RecvBlock::new(self.config.fec);
                    let request: Vec<u8> = Vec::new();
                    let ns = self.handle_data(
                        &decoded,
                        remote,
                        request,
                        recv,
                        None,
                        http,
                        packet_writer,
                    );
                    proof {
                        assert forall|hh: crate::packet::DataPacket, body: Seq<u8>|
                            spec_link_hears_data(*old(self), data@, hh, body) && hh.packet_idx
                                == 0 && (!old(self).config.fec
                                || crate::packet::spec_chunks_codewords(
                                body,
                                crate::packet::spec_fec_bytes(hh.fec_bytes),
                            )) && !hh.end_flag implies ({
                            let block = if old(self).config.fec {
                                crate::packet::spec_chunks_data(
                                    body,
                                    crate::packet::spec_fec_bytes(hh.fec_bytes),
                                )
                            } else {
                                body
                            };
                            &&& ns matches InnerState::Request {
                                remote: r2,
                                request: q2,
                                recv: rb,
                                response: resp2,
                            } && q2@ == block && rb.packet_idx == 1 && resp2 is None
                            &&& packet_writer@ == old(packet_writer)@.push(
                                spec_ack_frame(
                                    0,
                                    false,
                                    false,
                                    false,
                                    0u16,
                                    old(self).config.fec,
                                ),
                            )
                        }) by {
                            assert(crate::packet::spec_data_frame_under(
                                data@,
                                hh,
                                body,
                                old(self).config.fec,
                            ));
                            assert(crate::packet::spec_is_data_packet_with(decoded.0, hh, body)
                                && decoded.1 == 0);
                            assert(Seq::<u8>::empty() + (if old(self).config.fec {
                                crate::packet::spec_chunks_data(
                                    body,
                                    crate::packet::spec_fec_bytes(hh.fec_bytes),
                                )
                            } else {
                                body
                            }) =~= (if old(self).config.fec {
                                crate::packet::spec_chunks_data(
                                    body,
                                    crate::packet::spec_fec_bytes(hh.fec_bytes),
                                )
                            } else {
                                body
                            }));
                        }
                    }
                    ns
                } else {
                    proof {
                    assert forall|hh: crate::packet::DataPacket, body: Seq<u8>|
                        !(spec_link_hears_data(*old(self), data@, hh, body) && hh.packet_idx == 0
                            && !hh.end_flag) by {
                        if spec_link_hears_data(*old(self), data@, hh, body) {
                            assert(crate::packet::spec_data_frame_under(
                                data@,
                                hh,
                                body,
                                old(self).config.fec,
                            ));
                            assert(crate::packet::spec_is_data_packet_with(decoded.0, hh, body));
                        }
                    }
                }
                    match &decoded.0 {
                        Packet::Control(header) => {
                            if bytes_eq(header.source_callsign.as_slice(), remote.as_slice())
                                && bytes_eq(
                                header.dest_callsign.as_slice(),
                                self.callsign.as_slice(),
                            ) {
                                match header.ctrl_type {
                                    ControlType::LinkClose => {
                                        self.send_disconnect(&remote, packet_writer);
                                        proof {
                                            assert forall|c: ControlPacket|
                                                !(spec_link_hears(
                                                    *old(self),
                                                    data@,
                                                    Packet::Control(c),
                                                ) && c.source_callsign@ == remote@
                                                    && c.dest_callsign@ == old(self).callsign@
                                                    && c.ctrl_type == ControlType::LinkRequest) by {
                                                if spec_link_hears(
                                                    *old(self),
                                                    data@,
                                                    Packet::Control(c),
                                                ) {
                                                    assert(crate::packet::spec_frame_of(
                                                        data@,
                                                        Packet::Control(c),
                                                        old(self).config.fec,
                                                    ));
                                                    assert(crate::packet::spec_packet_eq(
                                                        Packet::Control(c),
                                                        decoded.0,
                                                    ));
                                                }
                                            }
                                            assert forall|c: ControlPacket|
                                                spec_link_hears(
                                                    *old(self),
                                                    data@,
                                                    Packet::Control(c),
                                                ) && c.source_callsign@ == remote@
                                                    && c.dest_callsign@ == old(self).callsign@
                                                    && c.ctrl_type
                                                    == ControlType::LinkClose implies (
                                            packet_writer@ == old(packet_writer)@.push(
                                                spec_encoded(
                                                    Packet::Control(
                                                        ControlPacket {
                                                            ctrl_type: ControlType::LinkClear,
                                                            source_callsign: old(self).callsign,
                                                            dest_callsign: c.source_callsign,
                                                        },
                                                    ),
                                                    old(self).config.fec,
                                                ),
                                            )) by {
                                                assert(crate::packet::spec_frame_of(
                                                    data@,
                                                    Packet::Control(c),
                                                    old(self).config.fec,
                                                ));
                                                assert(crate::packet::spec_packet_eq(
                                                    Packet::Control(c),
                                                    decoded.0,
                                                ));
                                                crate::packet::lemma_control_frame_by_views(
                                                    ControlPacket {
                                                        ctrl_type: ControlType::LinkClear,
                                                        source_callsign: self.callsign,
                                                        dest_callsign: remote,
                                                    },
                                                    ControlPacket {
                                                        ctrl_type: ControlType::LinkClear,
                                                        source_callsign: old(self).callsign,
                                                        dest_callsign: c.source_callsign,
                                                    },
                                                    old(self).config.fec,
                                                );
                                            }
                                        }
                                        InnerState::Idle { last_broadcast: 0 }
                                    },
                                    ControlType::LinkRequest => {
                                        // The opening ack was missed: repeat it.
                                        self.send_link_established(&remote, packet_writer);
                                        proof {
                                            assert forall|c: ControlPacket|
                                                !(spec_link_hears(
                                                    *old(self),
                                                    data@,
                                                    Packet::Control(c),
                                                ) && c.source_callsign@ == remote@
                                                    && c.dest_callsign@ == old(self).callsign@
                                                    && c.ctrl_type == ControlType::LinkClose) by {
                                                if spec_link_hears(
                                                    *old(self),
                                                    data@,
                                                    Packet::Control(c),
                                                ) {
                                                    assert(crate::packet::spec_frame_of(
                                                        data@,
                                                        Packet::Control(c),
                                                        old(self).config.fec,
                                                    ));
                                                    assert(crate::packet::spec_packet_eq(
                                                        Packet::Control(c),
                                                        decoded.0,
                                                    ));
                                                }
                                            }
                                            assert forall|c: ControlPacket|
                                                spec_link_hears(
                                                    *old(self),
                                                    data@,
                                                    Packet::Control(c),
                                                ) && c.source_callsign@ == remote@
                                                    && c.dest_callsign@ == old(self).callsign@
                                                    && c.ctrl_type
                                                    == ControlType::LinkRequest implies (
                                            packet_writer@ == old(packet_writer)@.push(
                                                spec_encoded(
                                                    Packet::Control(
                                                        ControlPacket {
                                                            ctrl_type: ControlType::LinkOpened,
                                                            source_callsign: old(self).callsign,
                                                            dest_callsign: c.source_callsign,
                                                        },
                                                    ),
                                                    old(self).config.fec,
                                                ),
                                            )) by {
                                                assert(crate::packet::spec_frame_of(
                                                    data@,
                                                    Packet::Control(c),
                                                    old(self).config.fec,
                                                ));
                                                assert(crate::packet::spec_packet_eq(
                                                    Packet::Control(c),
                                                    decoded.0,
                                                ));
                                                crate::packet::lemma_control_frame_by_views(
                                                    ControlPacket {
                                                        ctrl_type: ControlType::LinkOpened,
                                                        source_callsign: self.callsign,
                                                        dest_callsign: remote,
                                                    },
                                                    ControlPacket {
                                                        ctrl_type: ControlType::LinkOpened,
                                                        source_callsign: old(self).callsign,
                                                        dest_callsign: c.source_callsign,
                                                    },
                                                    old(self).config.fec,
                                                );
                                            }
                                        }
                                        InnerState::Connected { remote, idle }
                                    },
                                    _ => {
                                        proof {
                                            assert forall|c: ControlPacket|
                                                !(spec_link_hears(
                                                    *old(self),
                                                    data@,
                                                    Packet::Control(c),
                                                ) && c.source_callsign@ == remote@
                                                    && c.dest_callsign@ == old(self).callsign@
                                                    && c.ctrl_type == ControlType::LinkRequest) by {
                                                if spec_link_hears(
                                                    *old(self),
                                                    data@,
                                                    Packet::Control(c),
                                                ) {
                                                    assert(crate::packet::spec_frame_of(
                                                        data@,
                                                        Packet::Control(c),
                                                        old(self).config.fec,
                                                    ));
                                                    assert(crate::packet::spec_packet_eq(
                                                        Packet::Control(c),
                                                        decoded.0,
                                                    ));
                                                }
                                            }
                                            assert forall|c: ControlPacket|
                                                !(spec_link_hears(
                                                    *old(self),
                                                    data@,
                                                    Packet::Control(c),
                                                ) && c.source_callsign@ == remote@
                                                    && c.dest_callsign@ == old(self).callsign@
                                                    && c.ctrl_type == ControlType::LinkClose) by {
                                                if spec_link_hears(
                                                    *old(self),
                                                    data@,
                                                    Packet::Control(c),
                                                ) {
                                                    assert(crate::packet::spec_frame_of(
                                                        data@,
                                                        Packet::Control(c),
                                                        old(self).config.fec,
                                                    ));
                                                    assert(crate::packet::spec_packet_eq(
                                                        Packet::Control(c),
                                                        decoded.0,
                                                    ));
                                                }
                                            }
                                    }
                                        InnerState::Connected { remote, idle }
                                    },
                                }
                            } else {
                                proof {
                                            assert forall|c: ControlPacket|
                                                !(spec_link_hears(
                                                    *old(self),
                                                    data@,
                                                    Packet::Control(c),
                                                ) && c.source_callsign@ == remote@
                                                    && c.dest_callsign@ == old(self).callsign@
                                                    && c.ctrl_type == ControlType::LinkRequest) by {
                                                if spec_link_hears(
                                                    *old(self),
                                                    data@,
                                                    Packet::Control(c),
                                                ) {
                                                    assert(crate::packet::spec_frame_of(
                                                        data@,
                                                        Packet::Control(c),
                                                        old(self).config.fec,
                                                    ));
                                                    assert(crate::packet::spec_packet_eq(
                                                        Packet::Control(c),
                                                        decoded.0,
                                                    ));
                                                }
                                            }
                                            assert forall|c: ControlPacket|
                                                !(spec_link_hears(
                                                    *old(self),
                                                    data@,
                                                    Packet::Control(c),
                                                ) && c.source_callsign@ == remote@
                                                    && c.dest_callsign@ == old(self).callsign@
                                                    && c.ctrl_type == ControlType::LinkClose) by {
                                                if spec_link_hears(
                                                    *old(self),
                                                    data@,
                                                    Packet::Control(c),
                                                ) {
                                                    assert(crate::packet::spec_frame_of(
                                                        data@,
                                                        Packet::Control(c),
                                                        old(self).config.fec,
                                                    ));
                                                    assert(crate::packet::spec_packet_eq(
                                                        Packet::Control(c),
                                                        decoded.0,
                                                    ));
                                                }
                                            }
                                    }
                                InnerState::Connected { remote, idle }
                            }
                        },
                        _ => {
                            proof {
                                            assert forall|c: ControlPacket|
                                                !(spec_link_hears(
                                                    *old(self),
                                                    data@,
                                                    Packet::Control(c),
                                                ) && c.source_callsign@ == remote@
                                                    && c.dest_callsign@ == old(self).callsign@
                                                    && c.ctrl_type == ControlType::LinkRequest) by {
                                                if spec_link_hears(
                                                    *old(self),
                                                    data@,
                                                    Packet::Control(c),
                                                ) {
                                                    assert(crate::packet::spec_frame_of(
                                                        data@,
                                                        Packet::Control(c),
                                                        old(self).config.fec,
                                                    ));
                                                    assert(crate::packet::spec_packet_eq(
                                                        Packet::Control(c),
                                                        decoded.0,
                                                    ));
                                                }
                                            }
                                            assert forall|c: ControlPacket|
                                                !(spec_link_hears(
                                                    *old(self),
                                                    data@,
                                                    Packet::Control(c),
                                                ) && c.source_callsign@ == remote@
                                                    && c.dest_callsign@ == old(self).callsign@
                                                    && c.ctrl_type == ControlType::LinkClose) by {
                                                if spec_link_hears(
                                                    *old(self),
                                                    data@,
                                                    Packet::Control(c),
                                                ) {
                                                    assert(crate::packet::spec_frame_of(
                                                        data@,
                                                        Packet::Control(c),
                                                        old(self).config.fec,
                                                    ));
                                                    assert(crate::packet::spec_packet_eq(
                                                        Packet::Control(c),
                                                        decoded.0,
                                                    ));
                                                }
                                            }
                                    }
                            InnerState::Connected { remote, idle }
                        },
                    }
                }
            },
            InnerState::Request { remote, request, recv, response } => {
                let handled = match &decoded.0 {
                    Packet::Control(header) => {
                        bytes_eq(header.source_callsign.as_slice(), remote.as_slice()) && bytes_eq(
                            header.dest_callsign.as_slice(),
                            self.callsign.as_slice(),
                        ) && matches!(header.ctrl_type, ControlType::LinkRequest)
                    },
                    _ => false,
                };
                if handled {
                    self.send_link_established(&remote, packet_writer);
                    InnerState::Request { remote, request, recv, response }
                } else {
                    self.handle_data(
                        &decoded,
                        remote,
                        request,
                        recv,
                        response,
                        http,
                        packet_writer,
                    )
                }
            },
            InnerState::Response { remote, mut response, mut send } => {
                match send.on_packet(&decoded.0, packet_writer, &mut response) {
                    Err(_e) => {
                        self.send_disconnect(&remote, packet_writer);
                        InnerState::Idle { last_broadcast: 0 }
                    },
                    Ok(SendResult::CompleteResponse) | Ok(SendResult::CompleteNoResponse) => {
                        InnerState::Connected { remote, idle: 0 }
                    },
                    Ok(_) => InnerState::Response { remote, response, send },
                }
            },
        };
        proof {
            assert forall|c: ControlPacket|
                spec_link_hears(*old(self), data@, Packet::Control(c)) implies crate::packet::spec_packet_eq(Packet::Control(c), decoded.0) by {
                assert(crate::packet::spec_frame_of(
                    data@,
                    Packet::Control(c),
                    old(self).config.fec,
                ));
            }
            assert forall|hh: crate::packet::DataPacket, body: Seq<u8>|
                spec_link_hears_data(*old(self), data@, hh, body) implies (
            crate::packet::spec_is_data_packet_with(decoded.0, hh, body) && decoded.1 == 0) by {
                assert(crate::packet::spec_data_frame_under(
                    data@,
                    hh,
                    body,
                    old(self).config.fec,
                ));
            }
            assert forall|a: crate::packet::AckPacket|
                spec_link_hears(*old(self), data@, Packet::Ack(a)) implies crate::packet::spec_packet_eq(Packet::Ack(a), decoded.0) by {
                assert(crate::packet::spec_frame_of(
                    data@,
                    Packet::Ack(a),
                    old(self).config.fec,
                ));
            }
        }
        self.inner_state = next;
        Ok(())
    }

    /// Advances the gateway's clock. Idle, it beacons on schedule; connected
    /// with nothing running, the session times out and is cleared; inside a
    /// transfer the transfer's own clock runs, and its failure clears the
    /// session.
    pub fn elapsed(&mut self, ms: usize, packet_writer: &mut FrameSink) -> (r: Result<(), ()>)
        requires
            old(self).wf(),
        ensures
            r is Ok,
            final(self).wf(),
            final(self).config == old(self).config,
            final(self).callsign@ == old(self).callsign@,
            spec_state_arc(old(self).inner_state, final(self).inner_state),
            old(self).inner_state matches InnerState::Idle { last_broadcast } ==> {
                let waited = sat_add_spec(last_broadcast as int, ms as int);
                match old(self).config.broadcast_rate {
                    Some(rate) => if waited / 1000 >= rate {
                        &&& final(packet_writer)@ == old(packet_writer)@.push(
                            spec_encoded(
                                Packet::Broadcast(
                                    BroadcastPacket {
                                        fec_enabled: old(self).config.fec,
                                        retry_enabled: old(self).config.retry_enabled,
                                        major_ver: MAJOR_VER,
                                        minor_ver: MINOR_VER,
                                        link_width: old(self).config.link_width,
                                        callsign: old(self).callsign,
                                    },
                                ),
                                old(self).config.fec,
                            ),
                        )
                        &&& final(self).inner_state matches InnerState::Idle {
                            last_broadcast: lb,
                        } && lb == 0
                    } else {
                        &&& final(packet_writer)@ == old(packet_writer)@
                        &&& final(self).inner_state matches InnerState::Idle {
                            last_broadcast: lb,
                        } && lb == waited
                    },
                    None => {
                        &&& final(packet_writer)@ == old(packet_writer)@
                        &&& final(self).inner_state matches InnerState::Idle {
                            last_broadcast: lb,
                        } && lb == waited
                    },
                }
            },
            old(self).inner_state matches InnerState::Connected { remote, idle } ==> {
                let waited = sat_add_spec(idle as int, ms as int);
                if waited >= NEGOTIATION_TIMEOUT {
                    &&& final(packet_writer)@ == old(packet_writer)@.push(
                        spec_encoded(
                            Packet::Control(
                                ControlPacket {
                                    ctrl_type: ControlType::LinkClear,
                                    source_callsign: old(self).callsign,
                                    dest_callsign: remote,
                                },
                            ),
                            old(self).config.fec,
                        ),
                    )
                    &&& final(self).inner_state matches InnerState::Idle { last_broadcast: lb }
                        && lb == 0
                } else {
                    &&& final(packet_writer)@ == old(packet_writer)@
                    &&& final(self).inner_state matches InnerState::Connected {
                        remote: r2,
                        idle: i2,
                    } && r2@ == remote@ && i2 == waited
                }
            },
            old(self).inner_state matches InnerState::Request { remote, request, recv, response }
                ==> ({
                let heard = sat_add_spec(recv.last_heard as int, ms as int);
                let sent = sat_add_spec(recv.last_sent as int, ms as int);
                let fails = if recv.waiting_for_response {
                    sent >= crate::recv_block::PENDING_REPEAT_MS && recv.response is Some && heard
                        >= crate::recv_block::TIMEOUT_MS
                } else {
                    heard >= crate::recv_block::TIMEOUT_MS
                };
                &&& (fails ==> (final(self).inner_state matches InnerState::Idle {
                    last_broadcast,
                } && last_broadcast == 0) && final(packet_writer)@ == old(packet_writer)@.push(
                    spec_encoded(
                        Packet::Control(
                            ControlPacket {
                                ctrl_type: ControlType::LinkClear,
                                source_callsign: old(self).callsign,
                                dest_callsign: remote,
                            },
                        ),
                        old(self).config.fec,
                    ),
                ))
                &&& (!fails ==> ({
                    &&& final(self).inner_state matches InnerState::Request {
                        remote: r2,
                        request: q2,
                        recv: rb,
                        response: resp2,
                    } && r2@ == remote@ && q2@ == request@ && rb.packet_idx == recv.packet_idx
                        && rb.waiting_for_response == recv.waiting_for_response && resp2
                        == response
                    &&& (recv.waiting_for_response && sent
                        >= crate::recv_block::PENDING_REPEAT_MS && recv.response is None ==> final(packet_writer)@ == old(packet_writer)@.push(
                        spec_ack_frame(recv.packet_idx, false, false, true, 0, recv.fec),
                    ))
                    &&& (recv.waiting_for_response && sent
                        >= crate::recv_block::PENDING_REPEAT_MS && recv.response is Some ==> final(packet_writer)@ == old(packet_writer)@.push(
                        spec_ack_frame(
                            recv.packet_idx,
                            false,
                            recv.response.unwrap(),
                            false,
                            0,
                            recv.fec,
                        ),
                    ))
                    &&& (!(recv.waiting_for_response && sent
                        >= crate::recv_block::PENDING_REPEAT_MS) ==> final(packet_writer)@ == old(packet_writer)@)
                }))
            }),
            old(self).inner_state matches InnerState::Response { remote, response, send } ==> ({
                let waited = sat_add_spec(send.last_send as int, ms as int);
                let next_retry = crate::send_block::spec_calc_delay(
                    send.retry_config,
                    send.last_packet@.len() as int,
                    crate::send_block::spec_ack_bytes(send.fec is Some),
                );
                let resends = waited > next_retry && !send.pending_response;
                let times_out = resends && crate::buffers::sat_one(send.retry_attempts)
                    > send.retry_config.retry_attempts;
                &&& (times_out ==> (final(self).inner_state matches InnerState::Idle {
                    last_broadcast,
                } && last_broadcast == 0) && final(packet_writer)@ == old(packet_writer)@.push(
                    spec_encoded(
                        Packet::Control(
                            ControlPacket {
                                ctrl_type: ControlType::LinkClear,
                                source_callsign: old(self).callsign,
                                dest_callsign: remote,
                            },
                        ),
                        old(self).config.fec,
                    ),
                ))
                &&& (!times_out ==> ({
                    &&& final(self).inner_state matches InnerState::Response {
                        remote: r2,
                        send: s2,
                        ..
                    } && r2@ == remote@ && s2.packet_idx == send.packet_idx
                    &&& (resends && send.retry_enabled ==> final(packet_writer)@ == old(packet_writer)@.push(send.last_packet@))
                    &&& (!(resends && send.retry_enabled) ==> final(packet_writer)@ == old(packet_writer)@)
                }))
            }),
    {
        let mut st = InnerState::Idle { last_broadcast: 0 };
        core::mem::swap(&mut st, &mut self.inner_state);

        let next: InnerState = match st {
            InnerState::Idle { last_broadcast } => {
                let waited = sat_add(last_broadcast, ms);
                match self.config.broadcast_rate {
                    Some(rate) => {
                        if waited / 1000 >= rate {
                            let packet = Packet::Broadcast(
                                BroadcastPacket {
                                    fec_enabled: self.config.fec,
                                    retry_enabled: self.config.retry_enabled,
                                    major_ver: MAJOR_VER,
                                    minor_ver: MINOR_VER,
                                    link_width: self.config.link_width,
                                    callsign: crate::buffers::copy_range(
                                        self.callsign.as_slice(),
                                        0,
                                        self.callsign.len(),
                                    ),
                                },
                            );
                            proof {
                                lemma_copies_eq(self.callsign@, self.callsign@);
                            }
                            let mut frame: Vec<u8> = Vec::new();
                            encode(&packet, self.config.fec, &mut frame);
                            packet_writer.write_frame(&frame);
                            InnerState::Idle { last_broadcast: 0 }
                        } else {
                            InnerState::Idle { last_broadcast: waited }
                        }
                    },
                    None => InnerState::Idle { last_broadcast: waited },
                }
            },
            InnerState::Connected { remote, idle } => {
                let waited = sat_add(idle, ms);
                if waited >= NEGOTIATION_TIMEOUT {
                    self.send_disconnect(&remote, packet_writer);
                    InnerState::Idle { last_broadcast: 0 }
                } else {
                    InnerState::Connected { remote, idle: waited }
                }
            },
            InnerState::Request { remote, request, mut recv, response } => {
                match recv.tick(ms, packet_writer) {
                    Ok(_) => InnerState::Request { remote, request, recv, response },
                    Err(_e) => {
                        self.send_disconnect(&remote, packet_writer);
                        InnerState::Idle { last_broadcast: 0 }
                    },
                }
            },
            InnerState::Response { remote, response, mut send } => {
                match send.tick(ms, packet_writer) {
                    Ok(_) => InnerState::Response { remote, response, send },
                    Err(_e) => {
                        self.send_disconnect(&remote, packet_writer);
                        InnerState::Idle { last_broadcast: 0 }
                    },
                }
            },
        };
        self.inner_state = next;
        Ok(())
    }
}

/// The parity parameter a gateway sends responses with.
fn link_fec(config: &LinkConfig) -> (r: Option<u8>)
    ensures
        r == spec_link_fec(*config),
{
    if config.fec {
        Some(1)
    } else {
        None
    }
}

/// A next state is well-formed for the link that produced it.
pub open spec fn spec_next_state_wf(link: Link, r: InnerState) -> bool {
    match r {
        InnerState::Idle { .. } => true,
        InnerState::Connected { remote, .. } => 1 <= remote@.len() <= 40,
        InnerState::Request { remote, recv, .. } => 1 <= remote@.len() <= 40 && recv.wf()
            && recv.fec == link.config.fec,
        InnerState::Response { remote, response, send } => 1 <= remote@.len() <= 40 && send.wf()
            && send.stats.packets_sent >= 1 && response.wf() && response.remaining_seq().len()
            == send.data_size - send.stats.bytes_sent && send.fec == spec_link_fec(link.config)
            && send.link_width == link.config.link_width,
    }
}

/// Copies of byte strings hold the same bytes; keeps the frame contracts
/// phrased over the original vectors.
proof fn lemma_copies_eq(a: Seq<u8>, b: Seq<u8>)
    ensures
        a.subrange(0, a.len() as int) == a,
        b.subrange(0, b.len() as int) == b,
{
    assert(a.subrange(0, a.len() as int) =~= a);
    assert(b.subrange(0, b.len() as int) =~= b);
}

} // verus!
