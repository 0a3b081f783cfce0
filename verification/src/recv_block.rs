//! The receiving half of one stop-and-wait transfer: accepts Data packets in
//! order, decodes their payload blocks, acknowledges each one (negatively
//! when a block cannot be repaired), re-acknowledges duplicates, and drives
//! the pending-response handshake once the last fragment has landed.

use vstd::prelude::*;

use crate::buffers::{sat_add, sat_add_spec, sat_one, FrameSink};
use crate::packet::{
    decode_data_blocks, encode, spec_chunks_codewords, spec_chunks_data, spec_encoded,
    spec_fec_bytes, spec_valid_header, AckPacket, DataPacket, Packet, PacketDecodeError,
};

verus! {

/// With no traffic for this long, the transfer is given up.
pub const TIMEOUT_MS: usize = 10_000;

/// While a response is pending or owed, the latest ack is repeated this often.
pub const PENDING_REPEAT_MS: usize = 500;

/// Counters a receiver keeps; they saturate rather than wrap.
#[derive(Debug, Clone, Copy, PartialEq, Eq, Structural)]
pub struct RecvStats {
    /// Payload bytes delivered to the output.
    pub recv_bytes: usize,
    /// Corrected bytes over the transfer, header and payload coding summed.
    pub recv_bit_err: usize,
    /// Data packets accepted in order.
    pub packets_received: usize,
    /// Reserved counter, kept with the others.
    pub acks_sent: usize,
}

/// Where a receive stands after an event.
#[derive(Debug, Clone, Copy, PartialEq, Eq, Structural)]
pub enum RecvResult {
    Active,
    CompleteSendResponse,
    Complete,
}

/// Why a receive failed.
#[derive(Debug, Clone, Copy, PartialEq, Eq, Structural)]
pub enum RecvError {
    Decode(PacketDecodeError),
    NotResponding,
    TimedOut,
}

/// One encoded Ack frame.
pub open spec fn spec_ack_frame(
    idx: u16,
    nack: bool,
    response: bool,
    pending: bool,
    err: u16,
    fec: bool,
) -> Seq<u8> {
    spec_encoded(
        Packet::Ack(
            AckPacket {
                packet_idx: idx,
                nack,
                response,
                pending_response: pending,
                corrected_errors: err,
            },
        ),
        fec,
    )
}

/// The index a Data header addresses: a start flag stands for index zero.
pub open spec fn spec_effective_idx(h: DataPacket) -> u16 {
    if h.start_flag {
        0
    } else {
        h.packet_idx
    }
}

/// The receiving half of one transfer.
#[derive(Debug)]
pub struct RecvBlock {
    /// Whether frames on this link carry Reed-Solomon coding.
    pub fec: bool,
    /// The next index expected.
    pub packet_idx: u16,
    /// Time since a packet was last heard.
    pub last_heard: usize,
    /// Time since an ack was last sent.
    pub last_sent: usize,
    /// The last fragment has landed; the response handshake is running.
    pub waiting_for_response: bool,
    /// The response decision, once made.
    pub response: Option<bool>,
    pub stats: RecvStats,
}

impl RecvBlock {
    /// Well-formed: the expected index stays just past the fourteen-bit
    /// range, and a response decision only exists inside the handshake.
    pub open spec fn wf(&self) -> bool {
        &&& self.packet_idx <= 16384
        &&& (self.response is Some ==> self.waiting_for_response)
    }

    pub fn new(fec: bool) -> (r: RecvBlock)
        ensures
            r.wf(),
            r.fec == fec,
            r.packet_idx == 0,
            r.last_heard == 0,
            r.last_sent == 0,
            !r.waiting_for_response,
            r.response is None,
            r.stats == (RecvStats {
                recv_bytes: 0,
                recv_bit_err: 0,
                packets_received: 0,
                acks_sent: 0,
            }),
    {
        RecvBlock {
            fec,
            packet_idx: 0,
            last_heard: 0,
            last_sent: 0,
            waiting_for_response: false,
            response: None,
            stats: RecvStats { recv_bytes: 0, recv_bit_err: 0, packets_received: 0, acks_sent: 0 },
        }
    }

    pub fn get_stats(&self) -> (r: &RecvStats)
        ensures
            *r == self.stats,
    {
        &self.stats
    }

    /// Ships a negative ack for a fragment whose blocks could not be
    /// repaired.
    fn send_nack(packet_idx: u16, err: u16, fec: bool, packet_writer: &mut FrameSink)
        ensures
            final(packet_writer)@ == old(packet_writer)@.push(
                spec_ack_frame(packet_idx, true, false, false, err, fec),
            ),
    {
        let packet = Packet::Ack(
            AckPacket {
                packet_idx,
                nack: true,
                response: false,
                pending_response: false,
                corrected_errors: err,
            },
        );
        let mut frame: Vec<u8> = Vec::new();
        encode(&packet, fec, &mut frame);
        packet_writer.write_frame(&frame);
    }

    /// Ships a plain ack for an accepted fragment.
    fn send_ack(packet_idx: u16, err: u16, fec: bool, packet_writer: &mut FrameSink)
        ensures
            final(packet_writer)@ == old(packet_writer)@.push(
                spec_ack_frame(packet_idx, false, false, false, err, fec),
            ),
    {
        let packet = Packet::Ack(
            AckPacket {
                packet_idx,
                nack: false,
                response: false,
                pending_response: false,
                corrected_errors: err,
            },
        );
        let mut frame: Vec<u8> = Vec::new();
        encode(&packet, fec, &mut frame);
        packet_writer.write_frame(&frame);
    }

    /// Ships the ack that announces a response is being computed.
    fn send_pending_response(packet_idx: u16, err: u16, fec: bool, packet_writer: &mut FrameSink)
        ensures
            final(packet_writer)@ == old(packet_writer)@.push(
                spec_ack_frame(packet_idx, false, false, true, err, fec),
            ),
    {
        let packet = Packet::Ack(
            AckPacket {
                packet_idx,
                nack: false,
                response: false,
                pending_response: true,
                corrected_errors: err,
            },
        );
        let mut frame: Vec<u8> = Vec::new();
        encode(&packet, fec, &mut frame);
        packet_writer.write_frame(&frame);
    }

    /// Ships the ack that carries the response decision.
    fn send_response_result(
        response: bool,
        packet_idx: u16,
        fec: bool,
        packet_writer: &mut FrameSink,
    )
        ensures
            final(packet_writer)@ == old(packet_writer)@.push(
                spec_ack_frame(packet_idx, false, response, false, 0, fec),
            ),
    {
        let packet = Packet::Ack(
            AckPacket {
                packet_idx,
                nack: false,
                response,
                pending_response: false,
                corrected_errors: 0,
            },
        );
        let mut frame: Vec<u8> = Vec::new();
        encode(&packet, fec, &mut frame);
        packet_writer.write_frame(&frame);
    }

    /// Feeds one received packet, with the corrected-byte count its decoding
    /// reported, to the receiver. A Data packet at the expected index has its
    /// blocks decoded: on success the payload goes to `data_output` and the
    /// fragment is acknowledged, advancing the window or, at the end flag,
    /// opening the response handshake; a fragment beyond repair draws a
    /// negative ack and no progress. An already-heard index is acknowledged
    /// again without output. An Ack is only meaningful inside the handshake,
    /// where a matching one completes the transfer. Anything else is ignored.
    pub fn on_packet(
        &mut self,
        packet: &(Packet, usize),
        packet_writer: &mut FrameSink,
        data_output: &mut Vec<u8>,
    ) -> (r: Result<RecvResult, RecvError>)
        requires
            old(self).wf(),
            packet.1 <= 4095,
            packet.0 matches Packet::Data(h, _) ==> spec_valid_header(h),
        ensures
            final(self).wf(),
            final(self).fec == old(self).fec,
            final(self).packet_idx >= old(self).packet_idx,
            old(data_output)@.is_prefix_of(final(data_output)@),
            old(self).waiting_for_response ==> final(self).waiting_for_response,
            final(self).response == old(self).response,
            packet.0 matches Packet::Data(h, payload) ==> {
                let idx = spec_effective_idx(h);
                let ecc = spec_fec_bytes(h.fec_bytes);
                &&& r is Ok
                &&& (idx == old(self).packet_idx && (!old(self).fec || spec_chunks_codewords(
                    payload@,
                    ecc,
                )) ==> {
                    let block = if old(self).fec {
                        spec_chunks_data(payload@, ecc)
                    } else {
                        payload@
                    };
                    let total = packet.1 as u16;
                    &&& final(data_output)@ == old(data_output)@ + (if old(self).waiting_for_response {
                        Seq::<u8>::empty()
                    } else {
                        block
                    })
                    &&& final(self).stats.packets_received == sat_one(
                        old(self).stats.packets_received,
                    )
                    &&& final(self).last_heard == 0 && final(self).last_sent == 0
                    &&& (h.end_flag ==> r == Ok::<RecvResult, RecvError>(
                        RecvResult::CompleteSendResponse,
                    ) && final(self).waiting_for_response && final(self).packet_idx == old(self).packet_idx && final(packet_writer)@ == old(packet_writer)@.push(
                        spec_ack_frame(idx, false, false, true, total, old(self).fec),
                    ))
                    &&& (!h.end_flag ==> r == Ok::<RecvResult, RecvError>(RecvResult::Active)
                        && final(self).waiting_for_response == old(self).waiting_for_response
                        && final(self).packet_idx == old(self).packet_idx + 1 && final(packet_writer)@ == old(packet_writer)@.push(
                        spec_ack_frame(idx, false, false, false, total, old(self).fec),
                    ))
                })
                &&& (idx == old(self).packet_idx ==> {
                    // Whatever the block decoder made of the payload, one of
                    // two things happened:
                    ||| {
                        // the fragment was beyond repair: a retransmit is
                        // asked for and nothing advances
                        &&& r == Ok::<RecvResult, RecvError>(RecvResult::Active)
                        &&& final(packet_writer)@ == old(packet_writer)@.push(
                            spec_ack_frame(
                                idx,
                                true,
                                false,
                                false,
                                packet.1 as u16,
                                old(self).fec,
                            ),
                        )
                        &&& final(data_output)@ == old(data_output)@
                        &&& final(self).packet_idx == old(self).packet_idx
                        &&& final(self).waiting_for_response == old(self).waiting_for_response
                        &&& final(self).stats == old(self).stats
                        &&& final(self).last_heard == 0 && final(self).last_sent == 0
                    }
                    ||| {
                        // the fragment was delivered (or, inside the
                        // handshake, heard again) and acknowledged with some
                        // corrected count
                        &&& final(self).stats.packets_received == sat_one(
                            old(self).stats.packets_received,
                        )
                        &&& final(self).last_heard == 0 && final(self).last_sent == 0
                        &&& exists|total: u16|
                            final(packet_writer)@ == old(packet_writer)@.push(
                                #[trigger] spec_ack_frame(
                                    idx,
                                    false,
                                    false,
                                    h.end_flag,
                                    total,
                                    old(self).fec,
                                ),
                            )
                        &&& (h.end_flag ==> r == Ok::<RecvResult, RecvError>(
                            RecvResult::CompleteSendResponse,
                        ) && final(self).waiting_for_response && final(self).packet_idx == old(self).packet_idx)
                        &&& (!h.end_flag ==> r == Ok::<RecvResult, RecvError>(RecvResult::Active)
                            && final(self).packet_idx == old(self).packet_idx + 1 && final(self).waiting_for_response == old(self).waiting_for_response)
                    }
                })
                &&& (idx < old(self).packet_idx ==> r == Ok::<RecvResult, RecvError>(
                    RecvResult::Active,
                ) && final(packet_writer)@ == old(packet_writer)@.push(
                    spec_ack_frame(idx, false, false, false, 0, old(self).fec),
                ) && final(data_output)@ == old(data_output)@ && final(self).packet_idx == old(self).packet_idx && final(self).stats == old(self).stats)
                &&& (idx > old(self).packet_idx ==> r == Ok::<RecvResult, RecvError>(
                    RecvResult::Active,
                ) && *final(self) == *old(self) && final(packet_writer)@ == old(packet_writer)@
                    && final(data_output)@ == old(data_output)@)
            },
            packet.0 matches Packet::Ack(a) ==> {
                &&& final(packet_writer)@ == old(packet_writer)@
                &&& final(data_output)@ == old(data_output)@
                &&& (!old(self).waiting_for_response ==> r == Err::<RecvResult, RecvError>(
                    RecvError::NotResponding,
                ) && *final(self) == *old(self))
                &&& (old(self).waiting_for_response && a.packet_idx == old(self).packet_idx ==> {
                    &&& r == Ok::<RecvResult, RecvError>(RecvResult::Complete)
                    &&& final(self).stats.recv_bit_err == sat_add_spec(
                        old(self).stats.recv_bit_err as int,
                        packet.1 as int,
                    )
                    &&& final(self).stats.packets_received == old(self).stats.packets_received
                    &&& final(self).packet_idx == old(self).packet_idx
                    &&& final(self).waiting_for_response
                    &&& final(self).last_heard == old(self).last_heard
                    &&& final(self).last_sent == old(self).last_sent
                })
                &&& (old(self).waiting_for_response && a.packet_idx != old(self).packet_idx ==> r
                    == Ok::<RecvResult, RecvError>(RecvResult::Active) && *final(self) == *old(self))
            },
            (packet.0 matches Packet::Broadcast(_)) || (packet.0 matches Packet::Control(_))
                ==> (r == Ok::<RecvResult, RecvError>(RecvResult::Active) && *final(self) == *old(self) && final(packet_writer)@ == old(packet_writer)@ && final(data_output)@ == old(data_output)@),
    {
        let (packet, err) = packet;
        let err: usize = *err;
        match packet {
            Packet::Data(header, payload) => {
                let packet_idx: u16 = if header.start_flag {
                    0
                } else {
                    header.packet_idx
                };

                if packet_idx == self.packet_idx {
                    self.last_heard = 0;
                    self.last_sent = 0;

                    let mut decode_block: Vec<u8> = Vec::new();
                    let block_errs = match decode_data_blocks(
                        header,
                        payload.as_slice(),
                        self.fec,
                        &mut decode_block,
                    ) {
                        Ok(s) => s,
                        Err(_e) => {
                            // The fragment is beyond repair: ask for it again.
                            Self::send_nack(packet_idx, err as u16, self.fec, packet_writer);
                            return Ok(RecvResult::Active);
                        },
                    };

                    if self.waiting_for_response {
                        // The final fragment again, while its ack is pending:
                        // already delivered, do not write it twice.
                    } else {
                        crate::buffers::push_range(
                            data_output,
                            decode_block.as_slice(),
                            0,
                            decode_block.len(),
                        );
                        proof {
                            assert(decode_block@.subrange(0, decode_block@.len() as int)
                                =~= decode_block@);
                        }
                    }
                    self.stats.packets_received = sat_add(self.stats.packets_received, 1);

                    let total_err: u16 = ((sat_add(err, block_errs)) % 65536) as u16;
                    self.stats.recv_bit_err = sat_add(self.stats.recv_bit_err, total_err as usize);
                    if header.end_flag {
                        Self::send_pending_response(packet_idx, total_err, self.fec, packet_writer);
                        self.waiting_for_response = true;
                        return Ok(RecvResult::CompleteSendResponse);
                    } else {
                        Self::send_ack(packet_idx, total_err, self.fec, packet_writer);
                        self.packet_idx = self.packet_idx + 1;
                    }
                } else if packet_idx < self.packet_idx {
                    self.last_heard = 0;
                    self.last_sent = 0;
                    // Heard before: acknowledge again without writing.
                    Self::send_ack(packet_idx, 0, self.fec, packet_writer);
                }
                Ok(RecvResult::Active)
            },
            Packet::Ack(ack) => {
                if !self.waiting_for_response {
                    return Err(RecvError::NotResponding);
                }
                if ack.packet_idx == self.packet_idx {
                    self.stats.recv_bit_err = sat_add(self.stats.recv_bit_err, err);
                    return Ok(RecvResult::Complete);
                }
                Ok(RecvResult::Active)
            },
            _ => Ok(RecvResult::Active),
        }
    }

    /// Advances the timers. Inside the handshake the latest ack, pending or
    /// decided, is repeated every half second; a decided response left
    /// unacknowledged, or a transfer left silent, for ten seconds has timed
    /// out.
    pub fn tick(&mut self, elapsed_ms: usize, packet_writer: &mut FrameSink) -> (r: Result<
        RecvResult,
        RecvError,
    >)
        requires
            old(self).wf(),
        ensures
            final(self).wf(),
            final(self).fec == old(self).fec,
            final(self).packet_idx == old(self).packet_idx,
            final(self).waiting_for_response == old(self).waiting_for_response,
            final(self).response == old(self).response,
            final(self).stats == old(self).stats,
            ({
                let heard = sat_add_spec(old(self).last_heard as int, elapsed_ms as int);
                let sent = sat_add_spec(old(self).last_sent as int, elapsed_ms as int);
                if old(self).waiting_for_response {
                    if sent >= PENDING_REPEAT_MS {
                        if old(self).response is None {
                            &&& r == Ok::<RecvResult, RecvError>(RecvResult::Active)
                            &&& final(packet_writer)@ == old(packet_writer)@.push(
                                spec_ack_frame(
                                    old(self).packet_idx,
                                    false,
                                    false,
                                    true,
                                    0,
                                    old(self).fec,
                                ),
                            )
                            &&& final(self).last_sent == 0
                            &&& final(self).last_heard == heard
                        } else if heard >= TIMEOUT_MS {
                            r == Err::<RecvResult, RecvError>(RecvError::TimedOut) && final(packet_writer)@ == old(packet_writer)@
                        } else {
                            &&& r == Ok::<RecvResult, RecvError>(RecvResult::Active)
                            &&& final(packet_writer)@ == old(packet_writer)@.push(
                                spec_ack_frame(
                                    old(self).packet_idx,
                                    false,
                                    old(self).response.unwrap(),
                                    false,
                                    0,
                                    old(self).fec,
                                ),
                            )
                            &&& final(self).last_sent == 0
                            &&& final(self).last_heard == heard
                        }
                    } else {
                        r == Ok::<RecvResult, RecvError>(RecvResult::Active) && final(packet_writer)@ == old(packet_writer)@ && final(self).last_sent == sent && final(self).last_heard == heard
                    }
                } else {
                    if heard >= TIMEOUT_MS {
                        r == Err::<RecvResult, RecvError>(RecvError::TimedOut) && final(packet_writer)@ == old(packet_writer)@
                    } else {
                        r == Ok::<RecvResult, RecvError>(RecvResult::Active) && final(packet_writer)@ == old(packet_writer)@ && final(self).last_sent == sent && final(self).last_heard == heard
                    }
                }
            }),
    {
        self.last_heard = sat_add(self.last_heard, elapsed_ms);
        self.last_sent = sat_add(self.last_sent, elapsed_ms);

        if self.waiting_for_response {
            if self.last_sent >= PENDING_REPEAT_MS {
                match self.response {
                    None => {
                        Self::send_pending_response(self.packet_idx, 0, self.fec, packet_writer);
                    },
                    Some(response) => {
                        if self.last_heard >= TIMEOUT_MS {
                            return Err(RecvError::TimedOut);
                        }
                        Self::send_response_result(response, self.packet_idx, self.fec, packet_writer);
                    },
                }
                self.last_sent = 0;
            }
        } else {
            if self.last_heard >= TIMEOUT_MS {
                return Err(RecvError::TimedOut);
            }
        }
        Ok(RecvResult::Active)
    }

    /// Records the response decision and ships the ack that carries it. Only
    /// meaningful once the last fragment has landed.
    pub fn send_response(&mut self, is_response: bool, packet_writer: &mut FrameSink) -> (r: Result<
        RecvResult,
        RecvError,
    >)
        requires
            old(self).wf(),
        ensures
            final(self).wf(),
            !old(self).waiting_for_response ==> r == Err::<RecvResult, RecvError>(
                RecvError::NotResponding,
            ) && *final(self) == *old(self) && final(packet_writer)@ == old(packet_writer)@,
            old(self).waiting_for_response ==> {
                &&& r == Ok::<RecvResult, RecvError>(RecvResult::CompleteSendResponse)
                &&& final(self).response == Some(is_response)
                &&& final(self).last_heard == 0
                &&& final(self).packet_idx == old(self).packet_idx
                &&& final(self).waiting_for_response
                &&& final(self).fec == old(self).fec
                &&& final(self).stats == old(self).stats
                &&& final(packet_writer)@ == old(packet_writer)@.push(
                    spec_ack_frame(
                        old(self).packet_idx,
                        false,
                        is_response,
                        false,
                        0,
                        old(self).fec,
                    ),
                )
            },
    {
        if !self.waiting_for_response {
            return Err(RecvError::NotResponding);
        }
        self.response = Some(is_response);
        self.last_heard = 0;
        Self::send_response_result(is_response, self.packet_idx, self.fec, packet_writer);
        Ok(RecvResult::CompleteSendResponse)
    }
}

} // verus!
