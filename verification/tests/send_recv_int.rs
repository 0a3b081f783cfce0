use rfnet_core::buffers::{ByteReader, FrameSink};
use rfnet_core::framed::{KISSFramed, LoopbackIo};
use rfnet_core::kiss;
use rfnet_core::packet::decode;
use rfnet_core::recv_block::{RecvBlock, RecvResult, RecvStats};
use rfnet_core::send_block::{RetryConfig, SendBlock, SendResult, SendStats};

type Channel = KISSFramed<LoopbackIo>;

fn flush(sink: &mut FrameSink, chan: &mut Channel) {
    for frame in sink.take_frames() {
        chan.write_frame(&frame).unwrap();
    }
}

fn cycle_send(
    send: &mut SendBlock,
    send_channel: &mut Channel,
    recv_channel: &mut Channel,
    data_reader: &mut ByteReader,
) -> Option<SendResult> {
    let mut sink = FrameSink::new();
    send.tick(100, &mut sink).unwrap();

    let res = if let Some(frame) = send_channel.read_frame() {
        let packet = decode(&frame, true).unwrap();
        Some(send.on_packet(&packet.0, &mut sink, data_reader).unwrap())
    } else {
        None
    };
    flush(&mut sink, recv_channel);
    res
}

fn cycle_recv(
    recv: &mut RecvBlock,
    send_channel: &mut Channel,
    recv_channel: &mut Channel,
    data_output: &mut Vec<u8>,
) -> Option<RecvResult> {
    let mut sink = FrameSink::new();
    recv.tick(100, &mut sink).unwrap();

    let res = if let Some(frame) = recv_channel.read_frame() {
        let packet = decode(&frame, true).unwrap();
        let r = recv.on_packet(&packet, &mut sink, data_output).unwrap();
        if let RecvResult::CompleteSendResponse = r {
            recv.send_response(false, &mut sink).unwrap();
        }
        Some(r)
    } else {
        None
    };
    flush(&mut sink, send_channel);
    res
}

fn cycle_data<S, R>(mut drop_send_fn: S, mut drop_recv_fn: R) -> (SendStats, RecvStats)
where
    S: FnMut(usize, usize, &mut Vec<u8>),
    R: FnMut(usize, usize, &mut Vec<u8>),
{
    let payload = (0..4096).map(|v| v as u8).collect::<Vec<u8>>();
    let mut received = vec![];

    let link_width = 64;
    let fec = Some(0);
    let retry = RetryConfig {
        delay_ms: 0,
        bps: 1200,
        bps_scale_tenths: 10,
        retry_attempts: 5,
    };

    let stats = {
        // The sender publishes into recv_chan and hears acks on send_chan;
        // the receiver the other way around.
        let mut send_chan = KISSFramed::new(LoopbackIo::new(), 0);
        let mut recv_chan = KISSFramed::new(LoopbackIo::new(), 0);

        let mut data_reader = ByteReader::from_data(payload.clone());
        let mut send = SendBlock::new(payload.len(), link_width, fec, true, retry);
        let mut recv = RecvBlock::new(fec.is_some());

        {
            let mut sink = FrameSink::new();
            send.send(&mut sink, &mut data_reader).unwrap();
            flush(&mut sink, &mut recv_chan);
        }

        let mut send_idx = 0;
        let mut recv_idx = 0;

        let mut send_complete = false;
        let mut recv_complete = false;
        for i in 0..4096 {
            match cycle_send(&mut send, &mut send_chan, &mut recv_chan, &mut data_reader) {
                Some(SendResult::CompleteNoResponse) => send_complete = true,
                _ => {}
            }

            if recv_chan.get_tnc().buffer().len() > 0 {
                send_idx += 1;

                drop_send_fn(i, send_idx, recv_chan.get_tnc_mut().buffer_mut());
            }

            match cycle_recv(&mut recv, &mut send_chan, &mut recv_chan, &mut received) {
                Some(RecvResult::Complete) => recv_complete = true,
                _ => {}
            }

            if send_chan.get_tnc().buffer().len() > 0 {
                recv_idx += 1;

                drop_recv_fn(i, recv_idx, send_chan.get_tnc_mut().buffer_mut());
            }

            if send_complete && recv_complete {
                break;
            }
        }

        assert!(send_complete);
        assert!(recv_complete);

        (send.get_stats().clone(), recv.get_stats().clone())
    };

    assert_eq!(payload, received);

    stats
}

#[test]
fn send_recv_int_send_recv_full() {
    let (_send, _recv) = cycle_data(|_idx, _sidx, _data| {}, |_idx, _ridx, _data| {});
}

#[test]
fn send_recv_int_send_send_alt() {
    let (send, recv) = cycle_data(|_idx, _sidx, _data| {}, |_idx, _ridx, _data| {});
    let (send_alt, recv_alt) = cycle_data(
        |_idx, sidx, data| {
            if sidx % 2 == 1 {
                data.clear();
            }
        },
        |_idx, _ridx, _data| {},
    );

    assert_eq!(send.packets_sent * 2, send_alt.packets_sent);
    assert_eq!(recv.acks_sent * 2, recv_alt.acks_sent);
    assert_eq!(recv_alt.packets_received, send_alt.packets_sent / 2);
    assert_eq!(recv_alt.recv_bit_err, 0);
    assert_eq!(send_alt.recv_bit_err, 0);
}

#[test]
fn send_recv_int_send_recv_alt() {
    let (send, recv) = cycle_data(|_idx, _sidx, _data| {}, |_idx, _ridx, _data| {});
    let (send_alt, recv_alt) = cycle_data(
        |_idx, _sidx, _data| {},
        |_idx, ridx, data| {
            if ridx % 2 == 1 {
                data.clear();
            }
        },
    );

    // Every fragment is sent twice, except the last: its dropped handshake
    // ack is repaired by the receiver's half-second response repeat before
    // the sender's retry delay runs out.
    assert_eq!(send.packets_sent * 2 - 1, send_alt.packets_sent);
    assert_eq!(recv.acks_sent * 2, recv_alt.acks_sent);
    assert_eq!(recv_alt.packets_received - 1, send_alt.packets_sent / 2);
    assert_eq!(recv_alt.recv_bit_err, 0);
    assert_eq!(send_alt.recv_bit_err, 0);
}

fn flip_byte(idx: usize, data: &mut Vec<u8>) {
    let mut decode_data = vec![];
    kiss::decode(data, &mut decode_data).unwrap();

    let i = idx % decode_data.len();
    decode_data[i] = !decode_data[i];

    data.clear();
    kiss::encode(&decode_data, data, 0);
}

#[test]
fn send_recv_int_send_flip() {
    let mut errs = 0;
    let (send, recv) = {
        let errs_ref = &mut errs;

        cycle_data(
            |_idx, sidx, data| {
                *errs_ref += 1;
                flip_byte(sidx, data);
            },
            |_idx, _ridx, _data| {},
        )
    };

    // The sender does not hear the last ack's error count.
    assert_eq!(send.recv_bit_err, errs - 1);
    assert_eq!(recv.recv_bit_err, errs);
}

#[test]
fn send_recv_int_recv_flip() {
    let (send, recv) = cycle_data(
        |_idx, _sidx, _data| {},
        |_idx, ridx, data| {
            flip_byte(ridx, data);
        },
    );

    // Bit flips in acks are not tracked.
    assert_eq!(send.recv_bit_err, 0);
    assert_eq!(recv.recv_bit_err, 0);
}
