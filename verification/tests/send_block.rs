use rfnet_core::buffers::{ByteReader, FrameSink};
use rfnet_core::packet::{data_bytes_per_packet, decode, decode_data_blocks, AckPacket, Packet};
use rfnet_core::send_block::{calc_ack_bytes, RetryConfig, SendBlock, SendError, SendResult};

/// Takes the single frame the last operation wrote.
fn take_frame(sink: &mut FrameSink) -> Vec<u8> {
    let mut frames = sink.take_frames();
    assert_eq!(frames.len(), 1);
    frames.pop().unwrap()
}

#[test]
fn test_send() {
    let data = (0..16).collect::<Vec<u8>>();
    let retry = RetryConfig::default(1200);

    let mut output = FrameSink::new();

    let mut data_reader = ByteReader::from_data(data.clone());
    let mut send = SendBlock::new(data.len(), 32, Some(0), true, retry);

    match send.send(&mut output, &mut data_reader).unwrap() {
        SendResult::Active => {
            let frame = take_frame(&mut output);
            let decoded = decode(&frame, true).unwrap();
            if let (Packet::Data(header, payload), _) = &decoded {
                assert_eq!(header.packet_idx, 0);
                assert_eq!(header.start_flag, true);
                assert_eq!(header.end_flag, true);
                assert_eq!(header.fec_bytes, 0);

                let mut dpayload = vec![];
                decode_data_blocks(header, payload, true, &mut dpayload).unwrap();
                assert_eq!(dpayload, data);
            } else {
                panic!("{:?}", decoded);
            }
        }
        o => panic!("{:?}", o),
    }

    let mut ack = AckPacket {
        packet_idx: 0,
        nack: false,
        pending_response: true,
        response: false,
        corrected_errors: 5,
    };

    match send
        .on_packet(&Packet::Ack(ack.clone()), &mut output, &mut data_reader)
        .unwrap()
    {
        SendResult::PendingResponse => {}
        o => panic!("{:?}", o),
    }

    assert_eq!(send.get_stats().recv_bit_err, 5);

    ack.pending_response = false;
    ack.response = false;

    match send
        .on_packet(&Packet::Ack(ack), &mut output, &mut data_reader)
        .unwrap()
    {
        SendResult::CompleteNoResponse => {}
        o => panic!("{:?}", o),
    }
}

#[test]
fn test_resend() {
    let data = (0..16).collect::<Vec<u8>>();
    let retry = RetryConfig::default(1200);

    let mut output = FrameSink::new();

    let mut data_reader = ByteReader::from_data(data.clone());
    let mut send = SendBlock::new(data.len(), 32, Some(0), true, retry.clone());
    send.send(&mut output, &mut data_reader).unwrap();
    let first = take_frame(&mut output);

    let expected_resend = retry.calc_delay(first.len(), 9);

    for i in 0..5 {
        send.tick(expected_resend * 2, &mut output).unwrap();

        assert_eq!(send.get_stats().missed_acks, i + 1);
        let frame = take_frame(&mut output);
        match decode(&frame, true).unwrap() {
            (Packet::Data(_header, _payload), _) => {}
            o => panic!("{:?}", o),
        }
    }

    match send.tick(expected_resend * 2, &mut output) {
        Err(SendError::TimeOut) => {}
        o => panic!("{:?}", o),
    }

    assert_eq!(send.get_stats().missed_acks, 6);
}

#[test]
fn send_large() {
    let data = (0..4096).map(|v| v as u8).collect::<Vec<u8>>();
    let retry = RetryConfig::default(1200);

    let mut output = FrameSink::new();
    let mut final_data = vec![];

    let link_width = 32;
    let fec = Some(0);
    let bytes_per_packet = data_bytes_per_packet(fec, link_width);

    let mut data_reader = ByteReader::from_data(data.clone());
    let mut send = SendBlock::new(data.len(), link_width as u16, fec, true, retry);

    match send.send(&mut output, &mut data_reader).unwrap() {
        SendResult::Active => {}
        o => panic!("{:?}", o),
    }

    fn ack_packet(idx: u16, err: u16, pending: bool) -> Packet {
        Packet::Ack(AckPacket {
            packet_idx: idx,
            nack: false,
            pending_response: pending,
            response: false,
            corrected_errors: err,
        })
    }

    let remaining_full = data.len() / bytes_per_packet + 1;

    for i in 0..remaining_full {
        let mut frame = take_frame(&mut output);
        assert!(
            frame.len() <= link_width,
            "{} <= {}",
            frame.len(),
            link_width
        );

        assert_eq!(send.get_stats().packets_sent, i + 1);

        let is_end = {
            let decoded = decode(&mut frame, true).unwrap();
            if let (Packet::Data(header, payload), _) = &decoded {
                if i == 0 {
                    assert_eq!(header.packet_idx, 0);
                    assert_eq!(header.start_flag, true);
                } else if i == remaining_full - 1 {
                    assert_eq!(header.packet_idx, i as u16);
                    assert_eq!(header.end_flag, true);
                } else {
                    assert_eq!(header.packet_idx, i as u16);
                }

                assert_eq!(header.fec_bytes, 0);

                let mut dpayload = vec![];
                decode_data_blocks(header, payload, true, &mut dpayload).unwrap();

                final_data.extend_from_slice(&dpayload[..]);

                header.end_flag
            } else {
                panic!("{:?}", decoded);
            }
        };

        if !is_end {
            assert_eq!(send.get_stats().bytes_sent, bytes_per_packet * (i + 1));
        } else {
            assert_eq!(send.get_stats().bytes_sent, data.len());
        }

        {
            let result = send
                .on_packet(&ack_packet(i as u16, 5, is_end), &mut output, &mut data_reader)
                .unwrap();
            if is_end {
                match result {
                    SendResult::PendingResponse => {}
                    o => panic!("{:?}", o),
                }
            } else {
                match result {
                    SendResult::Active => {}
                    o => panic!("{:?}", o),
                }
            }
        }
        assert_eq!(send.get_stats().recv_bit_err, 5 * (i + 1));
    }

    assert_eq!(data, final_data);
    let final_ack = Packet::Ack(AckPacket {
        packet_idx: remaining_full as u16 - 1,
        nack: false,
        pending_response: false,
        response: false,
        corrected_errors: 0,
    });

    match send
        .on_packet(&final_ack, &mut output, &mut data_reader)
        .unwrap()
    {
        SendResult::CompleteNoResponse => {}
        o => panic!("{:?}", o),
    }
}

#[test]
fn test_no_resend() {
    let data = (0..16).collect::<Vec<u8>>();
    let mut output = FrameSink::new();

    let mut data_reader = ByteReader::from_data(data.clone());
    let mut send = SendBlock::new(data.len(), 32, Some(0), false, RetryConfig::default(1200));
    send.send(&mut output, &mut data_reader).unwrap();
    let _first = take_frame(&mut output);
    send.tick(10_000, &mut output).unwrap();

    assert_eq!(output.len(), 0);
}

#[test]
fn retry_delay_formula() {
    // The stock configuration at 1200 bits per second: the rate over the
    // round-trip byte count, in milliseconds, scaled by one and a half.
    let retry = RetryConfig::default(1200);
    // 1200 * 1000 * 15 / (8 * (32 + 9) * 10) = 5487
    assert_eq!(retry.calc_delay(32, 9), 5487);
    // A fixed pad is added as it stands.
    let padded = RetryConfig {
        delay_ms: 100,
        bps: 1200,
        bps_scale_tenths: 15,
        retry_attempts: 5,
    };
    assert_eq!(padded.calc_delay(32, 9), 5587);
    assert_eq!(calc_ack_bytes(true), 18);
    assert_eq!(calc_ack_bytes(false), 4);
}
