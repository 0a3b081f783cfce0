//! The sending half of one stop-and-wait transfer: fragments a payload into
//! Data packets, sends one at a time, retransmits on NACK or on a retry
//! timeout, and winds the exchange down through the response handshake.

use vstd::prelude::*;

use crate::buffers::{sat_add, sat_add_spec, sat_one, ByteReader, FrameSink};
use crate::packet::{
    encode, encode_data, spec_block_cap, spec_block_count, spec_data_capacity,
    spec_encoded, spec_encoded_data_frame, AckPacket, DataPacket, Packet,
};

verus! {

/// Counters a sender keeps; they saturate rather than wrap.
#[derive(Debug, Clone, Copy, PartialEq, Eq, Structural)]
pub struct SendStats {
    /// Source bytes consumed into sent packets.
    pub bytes_sent: usize,
    /// Packets shipped, retransmissions included.
    pub packets_sent: usize,
    /// Retry expirations and NACKs heard.
    pub missed_acks: usize,
    /// Corrected-byte counts reported by the peer's acks.
    pub recv_bit_err: usize,
}

/// How retransmit delays are derived from byte counts. The scale is carried
/// in tenths, so the stock factor of one and a half is fifteen.
#[derive(Debug, Clone, Copy, PartialEq, Eq, Structural)]
pub struct RetryConfig {
    pub delay_ms: usize,
    pub bps: usize,
    pub bps_scale_tenths: usize,
    pub retry_attempts: usize,
}

/// Where a send stands after an event.
#[derive(Debug, Clone, Copy, PartialEq, Eq, Structural)]
pub enum SendResult {
    Active,
    PendingResponse,
    CompleteNoResponse,
    CompleteResponse,
}

/// Why a send failed.
#[derive(Debug, Clone, Copy, PartialEq, Eq, Structural)]
pub enum SendError {
    TimeOut,
}

/// The retry delay: the rate over the round-trip byte count, in milliseconds,
/// scaled, plus the fixed pad.
pub open spec fn spec_calc_delay(cfg: RetryConfig, send_bytes: int, recv_bytes: int) -> int {
    cfg.bps * 1000 * cfg.bps_scale_tenths / (8 * (send_bytes + recv_bytes) * 10) + cfg.delay_ms
}

impl RetryConfig {
    /// Bounds under which the delay arithmetic stays within the machine.
    pub open spec fn wf(&self) -> bool {
        self.bps <= 1_000_000 && self.bps_scale_tenths <= 100 && self.delay_ms <= 1_000_000_000
    }

    /// The retransmit delay for one round trip of the given byte counts.
    pub fn calc_delay(&self, send_bytes: usize, recv_bytes: usize) -> (r: usize)
        requires
            self.wf(),
            1 <= send_bytes + recv_bytes,
            send_bytes <= 100_000_000,
            recv_bytes <= 100_000_000,
        ensures
            r == spec_calc_delay(*self, send_bytes as int, recv_bytes as int),
    {
        proof {
            assert((self.bps as int) * 1000 * (self.bps_scale_tenths as int)
                <= 100_000_000_000int) by (nonlinear_arith)
                requires
                    self.bps <= 1_000_000 && self.bps_scale_tenths <= 100,
            ;
        }
        let num: u64 = (self.bps as u64) * 1000 * (self.bps_scale_tenths as u64);
        let den: u64 = 8 * ((send_bytes as u64) + (recv_bytes as u64)) * 10;
        proof {
            assert(den >= 80);
            assert(num / den <= num / 80) by (nonlinear_arith)
                requires
                    den >= 80 && num >= 0,
            ;
        }
        let d: u64 = num / den + (self.delay_ms as u64);
        d as usize
    }

    /// The stock configuration for a given rate: no fixed pad, a scale of one
    /// and a half, five retries.
    pub fn default(bps: usize) -> (r: RetryConfig)
        requires
            bps <= 1_000_000,
        ensures
            r == (RetryConfig { bps, delay_ms: 0, bps_scale_tenths: 15, retry_attempts: 5 }),
            r.wf(),
    {
        RetryConfig { bps, delay_ms: 0, bps_scale_tenths: 15, retry_attempts: 5 }
    }
}

/// Length of an encoded Ack frame, with or without whole-frame coding: the
/// four plain bytes grow to three times that plus the six header parity
/// bytes under coding. The retry delay is computed from this true length.
pub open spec fn spec_ack_bytes(fec: bool) -> int {
    if fec {
        18
    } else {
        4
    }
}

/// Length of an encoded Ack frame.
pub fn calc_ack_bytes(fec: bool) -> (r: usize)
    ensures
        r == spec_ack_bytes(fec),
{
    if fec {
        18
    } else {
        4
    }
}

/// The sending half of one transfer.
#[derive(Debug)]
pub struct SendBlock {
    /// Index of the packet in flight.
    pub packet_idx: u16,
    /// The peer has announced it is computing a response.
    pub pending_response: bool,
    /// The packet in flight carries the end flag.
    pub eof: bool,
    /// Time since the packet in flight was last sent.
    pub last_send: usize,
    /// Retransmissions of the packet in flight.
    pub retry_attempts: usize,
    pub stats: SendStats,
    /// Per-block parity parameter k, or None without coding.
    pub fec: Option<u8>,
    /// Whether missed acks retransmit, or only count.
    pub retry_enabled: bool,
    pub link_width: u16,
    /// Total payload length of the transfer.
    pub data_size: usize,
    pub retry_config: RetryConfig,
    /// The encoded frame in flight, cached for retransmission.
    pub last_packet: Vec<u8>,
}

impl SendBlock {
    /// Payload bytes per packet.
    pub open spec fn spec_bpp(&self) -> int {
        spec_data_capacity(self.fec, self.link_width as int)
    }

    /// The parity parameter in use; zero without coding.
    pub open spec fn spec_fec_k(&self) -> u8 {
        match self.fec {
            Some(k) => k,
            None => 0,
        }
    }

    /// The fixed configuration of a block.
    pub open spec fn spec_config(&self) -> (Option<u8>, bool, u16, usize, RetryConfig) {
        (self.fec, self.retry_enabled, self.link_width, self.data_size, self.retry_config)
    }

    /// Well-formed: the configuration admits at least one payload byte per
    /// packet and at most one coding block per frame; the transfer fits the
    /// fourteen-bit index space; and the progress counters tie together:
    /// before the first send nothing has moved, afterwards the consumed bytes
    /// always cover every packet up to the one in flight.
    pub open spec fn wf(&self) -> bool {
        &&& self.spec_bpp() >= 1
        &&& self.link_width <= 256
        &&& (self.fec matches Some(k) ==> k < 64)
        &&& self.retry_config.wf()
        &&& self.packet_idx < 16383
        &&& self.data_size <= 16382 * self.spec_bpp()
        &&& self.stats.bytes_sent <= self.data_size
        &&& self.last_packet@.len() <= 264
        &&& (self.stats.packets_sent == 0 ==> self.stats.bytes_sent == 0 && self.packet_idx == 0
            && !self.eof && !self.pending_response && self.last_packet@.len() == 0)
        &&& (self.stats.packets_sent >= 1 && !self.eof ==> self.stats.bytes_sent == (
        self.packet_idx + 1) * self.spec_bpp() && self.stats.bytes_sent < self.data_size)
        &&& (self.eof ==> self.stats.bytes_sent == self.data_size)
    }

    /// The ack that addresses the packet in flight, if this is one.
    pub open spec fn spec_matching_ack(&self, p: Packet) -> Option<AckPacket> {
        match p {
            Packet::Ack(a) => if a.packet_idx == self.packet_idx {
                Some(a)
            } else {
                None
            },
            _ => None,
        }
    }

    /// The frame that sending packet `idx` from `source` emits.
    pub open spec fn spec_next_frame(&self, source: Seq<u8>, idx: u16, end: bool) -> Seq<u8> {
        spec_encoded_data_frame(
            DataPacket {
                packet_idx: idx,
                fec_bytes: self.spec_fec_k(),
                start_flag: idx == 0,
                end_flag: end,
            },
            source,
            self.fec is Some,
            self.link_width as int,
        )
    }

    /// Starts a transfer of `data_size` payload bytes. The link width must
    /// leave room for at least one payload byte per packet within one coding
    /// block, and the transfer must fit the index space.
    pub fn new(
        data_size: usize,
        link_width: u16,
        fec: Option<u8>,
        retry_enabled: bool,
        retry_config: RetryConfig,
    ) -> (r: SendBlock)
        requires
            spec_data_capacity(fec, link_width as int) >= 1,
            link_width <= 256,
            (fec matches Some(k) ==> k < 64),
            retry_config.wf(),
            data_size <= 16382 * spec_data_capacity(fec, link_width as int),
        ensures
            r.wf(),
            r.spec_config() == (fec, retry_enabled, link_width, data_size, retry_config),
            r.packet_idx == 0,
            !r.pending_response,
            !r.eof,
            r.stats == (SendStats { bytes_sent: 0, packets_sent: 0, missed_acks: 0, recv_bit_err: 0 }),
    {
        SendBlock {
            packet_idx: 0,
            pending_response: false,
            eof: false,
            last_send: 0,
            retry_attempts: 0,
            stats: SendStats { bytes_sent: 0, packets_sent: 0, missed_acks: 0, recv_bit_err: 0 },
            fec,
            retry_enabled,
            link_width,
            data_size,
            retry_config,
            last_packet: Vec::new(),
        }
    }

    pub fn get_stats(&self) -> (r: &SendStats)
        ensures
            *r == self.stats,
    {
        &self.stats
    }

    /// With a width of one coding block or less, a frame holds exactly one
    /// block of exactly the per-packet capacity.
    proof fn lemma_single_block(&self)
        requires
            self.spec_bpp() >= 1,
            self.link_width <= 256,
        ensures
            spec_block_count(self.fec is Some, self.link_width as int) == 1,
            spec_block_cap(self.fec is Some, self.spec_fec_k(), self.link_width as int)
                == self.spec_bpp(),
    {
    }

    /// Encodes and ships the next Data packet, caching it for retransmission.
    /// The payload source must stand exactly where the transfer's progress
    /// says.
    fn send_data(
        &mut self,
        packet_idx: u16,
        packet_writer: &mut FrameSink,
        data_reader: &mut ByteReader,
    ) -> (consumed: usize)
        requires
            packet_idx == old(self).packet_idx,
            old(self).spec_bpp() >= 1,
            old(self).link_width <= 256,
            old(self).stats.bytes_sent <= old(self).data_size,
            old(data_reader).wf(),
            old(data_reader).remaining_seq().len() == old(self).data_size - old(self).stats.bytes_sent,
        ensures
            ({
                let end = old(self).data_size - old(self).stats.bytes_sent <= old(self).spec_bpp();
                let frame = old(self).spec_next_frame(
                    old(data_reader).remaining_seq(),
                    old(self).packet_idx,
                    end,
                );
                &&& final(packet_writer)@ == old(packet_writer)@.push(frame)
                &&& final(self).last_packet@ == frame
                &&& frame.len() <= 264
                &&& consumed == if old(data_reader).remaining_seq().len() <= old(self).spec_bpp() {
                    old(data_reader).remaining_seq().len() as int
                } else {
                    old(self).spec_bpp()
                }
                &&& final(self).stats.bytes_sent == old(self).stats.bytes_sent + consumed
                &&& final(self).stats.packets_sent == sat_one(old(self).stats.packets_sent)
                &&& final(self).stats.missed_acks == old(self).stats.missed_acks
                &&& final(self).stats.recv_bit_err == old(self).stats.recv_bit_err
                &&& final(self).eof == (old(self).eof || end)
                &&& final(self).retry_attempts == 0
                &&& final(self).last_send == 0
                &&& final(self).packet_idx == old(self).packet_idx
                &&& final(self).pending_response == old(self).pending_response
                &&& final(self).spec_config() == old(self).spec_config()
                &&& final(data_reader).wf()
                &&& final(data_reader).data@ == old(data_reader).data@
                &&& final(data_reader).position == old(data_reader).position + consumed
            }),
    {
        proof {
            self.lemma_single_block();
        }
        self.retry_attempts = 0;
        self.last_send = 0;

        let bytes_per_packet = crate::packet::data_bytes_per_packet(
            self.fec,
            self.link_width as usize,
        );
        let eof = self.data_size - self.stats.bytes_sent <= bytes_per_packet;

        let header = DataPacket {
            packet_idx,
            fec_bytes: match self.fec {
                Some(k) => k,
                None => 0,
            },
            start_flag: self.packet_idx == 0,
            end_flag: eof,
        };

        self.last_packet.clear();
        let (_written, data_written, _inner_eof) = encode_data(
            header,
            self.fec.is_some(),
            self.link_width as usize,
            data_reader,
            &mut self.last_packet,
        );
        proof {
            let src = old(data_reader).remaining_seq();
            let frame = old(self).spec_next_frame(
                src,
                old(self).packet_idx,
                old(self).data_size - old(self).stats.bytes_sent <= old(self).spec_bpp(),
            );
            let cap = old(self).spec_bpp();
            let gecc = crate::packet::spec_fec_bytes(old(self).spec_fec_k());
            let body = crate::packet::spec_data_blocks(
                src,
                cap,
                1,
                gecc,
                old(self).fec is Some,
            );
            if src.len() >= cap {
                assert(crate::packet::spec_data_blocks(
                    src.skip(cap),
                    cap,
                    0,
                    gecc,
                    old(self).fec is Some,
                ) =~= Seq::<u8>::empty());
            }
            assert(body.len() <= cap + gecc);
            assert(self.last_packet@ =~= frame);
        }
        packet_writer.write_frame(&self.last_packet);

        self.stats.packets_sent = sat_add(self.stats.packets_sent, 1);
        self.stats.bytes_sent = self.stats.bytes_sent + data_written;

        if eof {
            self.eof = eof;
        }
        data_written
    }

    /// Ships the cached frame again after a missed ack: one more attempt and
    /// one more missed ack on the books; past the configured retries the
    /// transfer has timed out. With retries disabled nothing is re-sent, the
    /// miss is only counted.
    fn resend(&mut self, packet_writer: &mut FrameSink) -> (r: Result<(), SendError>)
        ensures
            final(self).retry_attempts == sat_one(old(self).retry_attempts),
            final(self).stats.missed_acks == sat_one(old(self).stats.missed_acks),
            final(self).last_send == 0,
            final(self).stats.bytes_sent == old(self).stats.bytes_sent,
            final(self).stats.recv_bit_err == old(self).stats.recv_bit_err,
            final(self).packet_idx == old(self).packet_idx,
            final(self).pending_response == old(self).pending_response,
            final(self).eof == old(self).eof,
            final(self).last_packet@ == old(self).last_packet@,
            final(self).spec_config() == old(self).spec_config(),
            if sat_one(old(self).retry_attempts) > old(self).retry_config.retry_attempts {
                r == Err::<(), SendError>(SendError::TimeOut) && final(packet_writer)@ == old(packet_writer)@ && final(self).stats.packets_sent == old(self).stats.packets_sent
            } else if old(self).retry_enabled {
                r == Ok::<(), SendError>(()) && final(packet_writer)@ == old(packet_writer)@.push(old(self).last_packet@) && final(self).stats.packets_sent == sat_one(
                    old(self).stats.packets_sent,
                )
            } else {
                r == Ok::<(), SendError>(()) && final(packet_writer)@ == old(packet_writer)@
                    && final(self).stats.packets_sent == old(self).stats.packets_sent
            },
    {
        self.retry_attempts = sat_add(self.retry_attempts, 1);
        self.stats.missed_acks = sat_add(self.stats.missed_acks, 1);
        self.last_send = 0;

        if self.retry_attempts > self.retry_config.retry_attempts {
            return Err(SendError::TimeOut);
        }

        if self.retry_enabled {
            packet_writer.write_frame(&self.last_packet);
            self.stats.packets_sent = sat_add(self.stats.packets_sent, 1);
        }
        Ok(())
    }

    /// Ships the terminating ack that closes the exchange.
    fn send_ack(&mut self, packet_writer: &mut FrameSink)
        requires
            old(self).packet_idx < 16384,
        ensures
            *final(self) == *old(self),
            final(packet_writer)@ == old(packet_writer)@.push(
                spec_encoded(
                    Packet::Ack(
                        AckPacket {
                            packet_idx: old(self).packet_idx,
                            nack: false,
                            response: false,
                            pending_response: false,
                            corrected_errors: 0,
                        },
                    ),
                    old(self).fec is Some,
                ),
            ),
    {
        let ack = AckPacket {
            packet_idx: self.packet_idx,
            nack: false,
            pending_response: false,
            response: false,
            corrected_errors: 0,
        };
        let mut frame: Vec<u8> = Vec::new();
        encode(&Packet::Ack(ack), self.fec.is_some(), &mut frame);
        packet_writer.write_frame(&frame);
    }

    /// Ships the first Data packet of the transfer.
    pub fn send(&mut self, packet_writer: &mut FrameSink, data_reader: &mut ByteReader) -> (r:
        Result<SendResult, SendError>)
        requires
            old(self).wf(),
            old(self).stats.packets_sent == 0,
            old(data_reader).wf(),
            old(data_reader).remaining_seq().len() == old(self).data_size,
        ensures
            final(self).wf(),
            r == Ok::<SendResult, SendError>(SendResult::Active),
            ({
                let end = old(self).data_size <= old(self).spec_bpp();
                let frame = old(self).spec_next_frame(
                    old(data_reader).remaining_seq(),
                    0,
                    end,
                );
                &&& final(packet_writer)@ == old(packet_writer)@.push(frame)
                &&& final(self).last_packet@ == frame
                &&& final(self).packet_idx == 0
                &&& final(self).eof == end
                &&& !final(self).pending_response
                &&& final(self).stats.packets_sent == 1
                &&& final(self).stats.bytes_sent == if old(self).data_size <= old(self).spec_bpp() {
                    old(self).data_size as int
                } else {
                    old(self).spec_bpp()
                }
                &&& final(self).stats.missed_acks == old(self).stats.missed_acks
                &&& final(self).stats.recv_bit_err == old(self).stats.recv_bit_err
                &&& final(self).retry_attempts == 0
                &&& final(self).last_send == 0
                &&& final(self).spec_config() == old(self).spec_config()
                &&& final(data_reader).wf()
                &&& final(data_reader).data@ == old(data_reader).data@
                &&& final(data_reader).position == old(data_reader).position + final(self).stats.bytes_sent
            }),
    {
        self.send_data(0, packet_writer, data_reader);
        Ok(SendResult::Active)
    }

    /// Feeds one received packet to the sender. Only an Ack for the packet in
    /// flight means anything: a NACK retransmits; a pending-response ack
    /// opens the response handshake; a plain ack after the end closes the
    /// exchange with a terminating ack frame; and a plain ack mid-transfer
    /// ships the next packet. Everything else is ignored.
    pub fn on_packet(
        &mut self,
        packet: &Packet,
        packet_writer: &mut FrameSink,
        data_reader: &mut ByteReader,
    ) -> (r: Result<SendResult, SendError>)
        requires
            old(self).wf(),
            old(self).stats.packets_sent >= 1,
            old(data_reader).wf(),
            old(data_reader).remaining_seq().len() == old(self).data_size - old(self).stats.bytes_sent,
        ensures
            final(self).wf(),
            final(self).spec_config() == old(self).spec_config(),
            final(self).stats.packets_sent >= 1,
            final(self).stats.bytes_sent >= old(self).stats.bytes_sent,
            final(data_reader).wf(),
            final(data_reader).data@ == old(data_reader).data@,
            final(data_reader).remaining_seq().len() == final(self).data_size - final(self).stats.bytes_sent,
            final(self).stats.bytes_sent - old(self).stats.bytes_sent == final(data_reader).position - old(data_reader).position,
            old(self).spec_matching_ack(*packet) is None ==> r == Ok::<SendResult, SendError>(
                SendResult::Active,
            ) && *final(self) == *old(self) && final(packet_writer)@ == old(packet_writer)@
                && final(data_reader).position == old(data_reader).position,
            old(self).spec_matching_ack(*packet) matches Some(a) ==> {
                let heard = sat_err(old(self).stats.recv_bit_err, a.corrected_errors);
                &&& final(self).stats.recv_bit_err == heard
                &&& (a.nack ==> {
                    &&& final(self).packet_idx == old(self).packet_idx
                    &&& final(self).pending_response == old(self).pending_response
                    &&& final(self).eof == old(self).eof
                    &&& final(self).stats.bytes_sent == old(self).stats.bytes_sent
                    &&& final(self).stats.missed_acks == sat_one(old(self).stats.missed_acks)
                    &&& final(self).retry_attempts == sat_one(old(self).retry_attempts)
                    &&& final(self).last_send == 0
                    &&& final(self).last_packet@ == old(self).last_packet@
                    &&& (if sat_one(old(self).retry_attempts) > old(self).retry_config.retry_attempts {
                        r == Err::<SendResult, SendError>(SendError::TimeOut) && final(packet_writer)@ == old(packet_writer)@
                    } else if old(self).retry_enabled {
                        r == Ok::<SendResult, SendError>(SendResult::Active) && final(packet_writer)@ == old(packet_writer)@.push(old(self).last_packet@)
                    } else {
                        r == Ok::<SendResult, SendError>(SendResult::Active) && final(packet_writer)@ == old(packet_writer)@
                    })
                })
                &&& (!a.nack && a.pending_response ==> {
                    &&& r == Ok::<SendResult, SendError>(SendResult::PendingResponse)
                    &&& final(self).pending_response
                    &&& final(self).packet_idx == old(self).packet_idx
                    &&& final(self).eof == old(self).eof
                    &&& final(self).stats.bytes_sent == old(self).stats.bytes_sent
                    &&& final(self).stats.missed_acks == old(self).stats.missed_acks
                    &&& final(self).stats.packets_sent == old(self).stats.packets_sent
                    &&& final(self).retry_attempts == old(self).retry_attempts
                    &&& final(self).last_send == old(self).last_send
                    &&& final(self).last_packet@ == old(self).last_packet@
                    &&& final(packet_writer)@ == old(packet_writer)@
                })
                &&& (!a.nack && !a.pending_response && (old(self).pending_response || old(self).eof) ==> {
                    &&& r == Ok::<SendResult, SendError>(
                        if a.response {
                            SendResult::CompleteResponse
                        } else {
                            SendResult::CompleteNoResponse
                        },
                    )
                    &&& final(packet_writer)@ == old(packet_writer)@.push(
                        spec_encoded(
                            Packet::Ack(
                                AckPacket {
                                    packet_idx: old(self).packet_idx,
                                    nack: false,
                                    response: false,
                                    pending_response: false,
                                    corrected_errors: 0,
                                },
                            ),
                            old(self).fec is Some,
                        ),
                    )
                    &&& final(self).packet_idx == old(self).packet_idx
                    &&& final(self).stats.bytes_sent == old(self).stats.bytes_sent
                    &&& final(self).stats.missed_acks == old(self).stats.missed_acks
                    &&& final(self).stats.packets_sent == old(self).stats.packets_sent
                    &&& final(self).retry_attempts == old(self).retry_attempts
                    &&& final(self).last_packet@ == old(self).last_packet@
                })
                &&& (!a.nack && !a.pending_response && !(old(self).pending_response || old(self).eof) ==> {
                    let next = (old(self).packet_idx + 1) as u16;
                    let end = old(self).data_size - old(self).stats.bytes_sent <= old(self).spec_bpp();
                    &&& r == Ok::<SendResult, SendError>(SendResult::Active)
                    &&& final(self).packet_idx == next
                    &&& final(packet_writer)@ == old(packet_writer)@.push(
                        old(self).spec_next_frame(old(data_reader).remaining_seq(), next, end),
                    )
                    &&& final(self).last_packet@ == old(self).spec_next_frame(
                        old(data_reader).remaining_seq(),
                        next,
                        end,
                    )
                    &&& final(self).eof == end
                    &&& final(self).stats.packets_sent == sat_one(old(self).stats.packets_sent)
                    &&& final(self).stats.missed_acks == old(self).stats.missed_acks
                    &&& final(self).retry_attempts == 0
                    &&& final(self).last_send == 0
                    &&& !final(self).pending_response
                })
            },
    {
        match packet {
            Packet::Ack(ack) => {
                if ack.packet_idx == self.packet_idx {
                    self.stats.recv_bit_err = sat_add(
                        self.stats.recv_bit_err,
                        ack.corrected_errors as usize,
                    );
                    if ack.nack {
                        match self.resend(packet_writer) {
                            Ok(()) => {},
                            Err(e) => {
                                return Err(e);
                            },
                        }
                    } else {
                        if ack.pending_response {
                            self.pending_response = true;
                            return Ok(SendResult::PendingResponse);
                        } else if self.pending_response || self.eof {
                            self.send_ack(packet_writer);
                            if !ack.response {
                                return Ok(SendResult::CompleteNoResponse);
                            } else {
                                return Ok(SendResult::CompleteResponse);
                            }
                        } else {
                            proof {
                                lemma_idx_in_range(
                                    self.packet_idx as int,
                                    self.spec_bpp(),
                                    self.stats.bytes_sent as int,
                                    self.data_size as int,
                                );
                            }
                            self.packet_idx = self.packet_idx + 1;
                            let packet_idx = self.packet_idx;
                            self.send_data(packet_idx, packet_writer, data_reader);
                        }
                    }
                }
            },
            _ => {},
        }
        Ok(SendResult::Active)
    }

    /// Advances the retry clock. Once the elapsed time passes the computed
    /// round-trip delay, and no response is pending, the packet in flight is
    /// retransmitted; past the configured retries the transfer has timed out.
    pub fn tick(&mut self, elapsed_ms: usize, packet_writer: &mut FrameSink) -> (r: Result<
        SendResult,
        SendError,
    >)
        requires
            old(self).wf(),
            old(self).stats.packets_sent >= 1,
        ensures
            final(self).wf(),
            final(self).spec_config() == old(self).spec_config(),
            final(self).stats.bytes_sent == old(self).stats.bytes_sent,
            final(self).stats.packets_sent >= old(self).stats.packets_sent,
            final(self).packet_idx == old(self).packet_idx,
            final(self).pending_response == old(self).pending_response,
            final(self).eof == old(self).eof,
            final(self).last_packet@ == old(self).last_packet@,
            ({
                let waited = sat_add_spec(old(self).last_send as int, elapsed_ms as int);
                let next_retry = spec_calc_delay(
                    old(self).retry_config,
                    old(self).last_packet@.len() as int,
                    spec_ack_bytes(old(self).fec is Some),
                );
                if waited > next_retry && !old(self).pending_response {
                    &&& final(self).stats.missed_acks == sat_one(old(self).stats.missed_acks)
                    &&& final(self).retry_attempts == sat_one(old(self).retry_attempts)
                    &&& final(self).last_send == 0
                    &&& (if sat_one(old(self).retry_attempts) > old(self).retry_config.retry_attempts {
                        r == Err::<SendResult, SendError>(SendError::TimeOut) && final(packet_writer)@ == old(packet_writer)@
                    } else if old(self).retry_enabled {
                        r == Ok::<SendResult, SendError>(SendResult::Active) && final(packet_writer)@ == old(packet_writer)@.push(old(self).last_packet@)
                    } else {
                        r == Ok::<SendResult, SendError>(SendResult::Active) && final(packet_writer)@ == old(packet_writer)@
                    })
                } else {
                    &&& r == Ok::<SendResult, SendError>(SendResult::Active)
                    &&& final(packet_writer)@ == old(packet_writer)@
                    &&& final(self).last_send == waited
                    &&& final(self).retry_attempts == old(self).retry_attempts
                    &&& final(self).stats == old(self).stats
                }
            }),
    {
        self.last_send = sat_add(self.last_send, elapsed_ms);
        let next_retry = self.retry_config.calc_delay(
            self.last_packet.len(),
            calc_ack_bytes(self.fec.is_some()),
        );
        let resend = self.last_send > next_retry && !self.pending_response;

        if resend {
            match self.resend(packet_writer) {
                Ok(()) => {},
                Err(e) => {
                    return Err(e);
                },
            }
        }
        Ok(SendResult::Active)
    }
}

/// A saturating sum of an error counter and a wire-reported count.
pub open spec fn sat_err(a: usize, e: u16) -> int {
    sat_add_spec(a as int, e as int)
}

/// The packet index never wraps within one transfer: a well-formed sender
/// holds it inside the fourteen-bit range through every event, because the
/// transfer itself is bounded to the index space at construction.
pub proof fn lemma_packet_idx_in_range(s: SendBlock)
    requires
        s.wf(),
    ensures
        s.packet_idx < 16384,
{
}

/// An index whose packets have not covered the transfer stays inside the
/// fourteen-bit range.
proof fn lemma_idx_in_range(idx: int, bpp: int, bytes_sent: int, data_size: int)
    requires
        bpp >= 1,
        0 <= idx,
        bytes_sent == (idx + 1) * bpp,
        bytes_sent < data_size,
        data_size <= 16382 * bpp,
    ensures
        idx + 1 < 16383,
        (idx + 2) * bpp == (idx + 1) * bpp + bpp,
{
    assert((idx + 1) * bpp < 16382 * bpp);
    assert(idx + 1 < 16382) by (nonlinear_arith)
        requires
            bpp >= 1 && (idx + 1) * bpp < 16382 * bpp,
    ;
    assert((idx + 2) * bpp == (idx + 1) * bpp + bpp) by (nonlinear_arith);
}

} // verus!
