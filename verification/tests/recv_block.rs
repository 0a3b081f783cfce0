use rfnet_core::buffers::{ByteReader, FrameSink};
use rfnet_core::packet::{decode, encode_data, AckPacket, DataPacket, Packet};
use rfnet_core::recv_block::{RecvBlock, RecvError, RecvResult, PENDING_REPEAT_MS, TIMEOUT_MS};

fn gen_data(
    packet_idx: u16,
    start_flag: bool,
    end_flag: bool,
    data: &[u8],
    err: usize,
) -> (Packet, usize) {
    let header = DataPacket {
        packet_idx,
        fec_bytes: 0,
        start_flag,
        end_flag,
    };

    let mut holder = vec![];
    let mut reader = ByteReader::from_data(data.to_vec());
    encode_data(header, true, 2048, &mut reader, &mut holder);
    (decode(&holder, true).unwrap().0, err)
}

/// Takes the single frame the last operation wrote and decodes it.
fn take_ack(sink: &mut FrameSink) -> AckPacket {
    let frames = sink.take_frames();
    assert_eq!(frames.len(), 1);
    match decode(&frames[0], true) {
        Ok((Packet::Ack(ack), _)) => ack,
        o => panic!("{:?}", o),
    }
}

fn get_payload() -> Vec<u8> {
    (0..16).collect::<Vec<u8>>()
}

fn send_to_response(recv_data: &mut Vec<u8>) -> RecvBlock {
    let payload = get_payload();

    let mut recv = RecvBlock::new(true);

    let mut output = FrameSink::new();

    match recv.on_packet(&gen_data(1000, true, false, &payload[..], 5), &mut output, recv_data) {
        Ok(RecvResult::Active) => {}
        o => panic!("{:?}", o),
    }

    let ack = take_ack(&mut output);
    assert_eq!(ack.packet_idx, 0);
    assert_eq!(ack.corrected_errors, 5);
    assert_eq!(ack.pending_response, false);
    assert_eq!(ack.nack, false);

    match recv.on_packet(&gen_data(1, false, true, &payload[..], 5), &mut output, recv_data) {
        Ok(RecvResult::CompleteSendResponse) => {}
        o => panic!("{:?}", o),
    }

    let ack = take_ack(&mut output);
    assert_eq!(ack.packet_idx, 1);
    assert_eq!(ack.corrected_errors, 5);
    assert_eq!(ack.pending_response, true);
    assert_eq!(ack.nack, false);

    recv
}

#[test]
fn test_recv() {
    let mut recv_data = vec![];
    let payload = get_payload();

    {
        let mut output = FrameSink::new();
        let mut recv = send_to_response(&mut recv_data);

        recv.send_response(true, &mut output).unwrap();

        let ack = take_ack(&mut output);
        assert_eq!(ack.packet_idx, 1);
        assert_eq!(ack.pending_response, false);
        assert_eq!(ack.response, true);

        let response_ack = AckPacket {
            packet_idx: 1,
            pending_response: false,
            response: false,
            corrected_errors: 0,
            nack: false,
        };

        match recv.on_packet(&(Packet::Ack(response_ack), 0), &mut output, &mut recv_data) {
            Ok(RecvResult::Complete) => {}
            o => panic!("{:?}", o),
        }
    }

    let mut final_data = vec![];
    final_data.extend_from_slice(&payload[..]);
    final_data.extend_from_slice(&payload[..]);

    assert_eq!(final_data, recv_data);
}

#[test]
fn recv_block_test_timeout() {
    let mut recv = RecvBlock::new(true);
    let mut output = FrameSink::new();

    match recv.tick(10, &mut output) {
        Ok(RecvResult::Active) => {}
        o => panic!("{:?}", o),
    }

    match recv.tick(TIMEOUT_MS - 10, &mut output) {
        Err(RecvError::TimedOut) => {}
        o => panic!("{:?}", o),
    }

    assert_eq!(output.len(), 0);
}

#[test]
fn test_resend_response() {
    let mut recv_data = vec![];

    let mut output = FrameSink::new();
    let mut recv = send_to_response(&mut recv_data);

    recv.send_response(true, &mut output).unwrap();

    let ack = take_ack(&mut output);
    assert_eq!(ack.packet_idx, 1);
    assert_eq!(ack.pending_response, false);
    assert_eq!(ack.response, true);

    match recv.tick(PENDING_REPEAT_MS, &mut output) {
        Ok(RecvResult::Active) => {}
        o => panic!("{:?}", o),
    }

    let ack = take_ack(&mut output);
    assert_eq!(ack.packet_idx, 1);
    assert_eq!(ack.corrected_errors, 0);
    assert_eq!(ack.pending_response, false);
    assert_eq!(ack.response, true);
}

#[test]
fn test_resend_timeout() {
    let mut recv_data = vec![];

    let mut output = FrameSink::new();
    let mut recv = send_to_response(&mut recv_data);

    recv.send_response(true, &mut output).unwrap();

    let ack = take_ack(&mut output);
    assert_eq!(ack.packet_idx, 1);
    assert_eq!(ack.pending_response, false);
    assert_eq!(ack.response, true);

    match recv.tick(TIMEOUT_MS, &mut output) {
        Err(RecvError::TimedOut) => {}
        o => panic!("{:?}", o),
    }
}

#[test]
fn test_repeat_pending() {
    let mut recv_data = vec![];

    let mut output = FrameSink::new();
    let mut recv = send_to_response(&mut recv_data);

    match recv.tick(PENDING_REPEAT_MS, &mut output) {
        Ok(RecvResult::Active) => {}
        o => panic!("{:?}", o),
    }

    let ack = take_ack(&mut output);
    assert_eq!(ack.packet_idx, 1);
    assert_eq!(ack.corrected_errors, 0);
    assert_eq!(ack.pending_response, true);
    assert_eq!(ack.nack, false);
}

#[test]
fn test_nack() {
    let mut recv_data = vec![];
    let payload = get_payload();

    {
        let mut recv = RecvBlock::new(true);

        let mut output = FrameSink::new();

        let header = DataPacket {
            packet_idx: 1000,
            fec_bytes: 0,
            start_flag: true,
            end_flag: false,
        };

        let mut data_packet = vec![];
        let mut reader = ByteReader::from_data(payload.clone());
        encode_data(header, true, 2048, &mut reader, &mut data_packet);

        // Zero out header and payload.
        for i in 0..3 + payload.len() {
            data_packet[i] = 0;
        }

        let decoded = decode(&data_packet, true).unwrap();

        match recv.on_packet(&decoded, &mut output, &mut recv_data) {
            Ok(RecvResult::Active) => {}
            o => panic!("{:?}", o),
        }

        let ack = take_ack(&mut output);
        assert_eq!(ack.packet_idx, 0);
        assert_eq!(ack.corrected_errors, 3);
        assert_eq!(ack.pending_response, false);
        assert_eq!(ack.nack, true);
    }

    assert_eq!(recv_data.len(), 0);
}

#[test]
fn test_reack() {
    let mut recv_data = vec![];
    let payload = get_payload();

    {
        let mut recv = RecvBlock::new(true);

        let mut output = FrameSink::new();
        let send_packet = gen_data(1000, true, false, &payload[..], 5);

        match recv.on_packet(&send_packet, &mut output, &mut recv_data) {
            Ok(RecvResult::Active) => {}
            o => panic!("{:?}", o),
        }

        let ack = take_ack(&mut output);
        assert_eq!(ack.packet_idx, 0);
        assert_eq!(ack.corrected_errors, 5);
        assert_eq!(ack.pending_response, false);
        assert_eq!(ack.nack, false);

        match recv.on_packet(&send_packet, &mut output, &mut recv_data) {
            Ok(RecvResult::Active) => {}
            o => panic!("{:?}", o),
        }

        let ack = take_ack(&mut output);
        assert_eq!(ack.packet_idx, 0);
        assert_eq!(ack.corrected_errors, 0);
        assert_eq!(ack.pending_response, false);
        assert_eq!(ack.nack, false);
    }

    assert_eq!(recv_data.len(), payload.len());
}

#[test]
fn ack_while_not_responding_is_an_error() {
    let mut recv = RecvBlock::new(true);
    let mut output = FrameSink::new();
    let mut recv_data = vec![];
    let ack = AckPacket {
        packet_idx: 0,
        nack: false,
        response: false,
        pending_response: false,
        corrected_errors: 0,
    };
    match recv.on_packet(&(Packet::Ack(ack), 0), &mut output, &mut recv_data) {
        Err(RecvError::NotResponding) => {}
        o => panic!("{:?}", o),
    }
}
