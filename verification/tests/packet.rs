use rfnet_core::buffers::ByteReader;
use rfnet_core::packet::{
    decode, decode_data_blocks, encode, encode_data, get_fec_bytes, AckPacket, BroadcastPacket,
    ControlPacket, ControlType, DataPacket, Packet, PacketDecodeError,
};

const BLOCK_SIZE: usize = 255;
const FEC_CRC_BYTES: usize = 6;

fn encode_data_vec(
    header: DataPacket,
    fec: bool,
    link_width: usize,
    data: &[u8],
    scratch: &mut Vec<u8>,
) -> (usize, usize, bool) {
    let mut reader = ByteReader::from_data(data.to_vec());
    encode_data(header, fec, link_width, &mut reader, scratch)
}

fn verify_packet(packet: Packet) {
    verify_packet_internal(packet.clone(), true);
    verify_packet_internal(packet.clone(), false);
}

fn verify_packet_internal(packet: Packet, fec: bool) {
    let mut scratch = vec![];

    let written = if let Packet::Data(header, _) = &packet {
        encode_data_vec(header.clone(), fec, 4096, &[], &mut scratch).0
    } else {
        encode(&packet, fec, &mut scratch).unwrap()
    };

    assert_eq!(written, scratch.len());

    verify_decode(scratch, packet, fec, 0);
}

fn verify_decode(data: Vec<u8>, packet: Packet, fec: bool, errs: usize) {
    match decode(&data, fec) {
        Ok((Packet::Data(header, _), e)) => {
            if let Packet::Data(match_header, _) = packet {
                assert_eq!(header, match_header);
                assert_eq!(e, errs);
            } else {
                panic!();
            }
        }
        Ok((p, e)) => {
            assert_eq!(p, packet);
            assert_eq!(e, errs);
        }
        Err(e) => panic!("{:?}", e),
    };
}

#[test]
fn test_ack() {
    for i in 0..16384 {
        let packet = Packet::Ack(AckPacket {
            packet_idx: i,
            nack: true,
            response: true,
            pending_response: true,
            corrected_errors: 3,
        });

        verify_packet(packet);
    }

    for i in 0..520 {
        let packet = Packet::Ack(AckPacket {
            packet_idx: 16000,
            nack: true,
            response: true,
            pending_response: true,
            corrected_errors: i,
        });

        verify_packet(packet);
    }

    {
        let packet = Packet::Ack(AckPacket {
            packet_idx: 16000,
            nack: false,
            response: false,
            pending_response: false,
            corrected_errors: 3,
        });

        verify_packet(packet);
    }

    {
        let packet = Packet::Ack(AckPacket {
            packet_idx: 16000,
            nack: true,
            response: false,
            pending_response: false,
            corrected_errors: 3,
        });

        verify_packet(packet);
    }

    {
        let packet = Packet::Ack(AckPacket {
            packet_idx: 16000,
            nack: false,
            response: true,
            pending_response: false,
            corrected_errors: 3,
        });

        verify_packet(packet);
    }

    {
        let packet = Packet::Ack(AckPacket {
            packet_idx: 16000,
            nack: false,
            response: false,
            pending_response: true,
            corrected_errors: 3,
        });

        verify_packet(packet);
    }
}

#[test]
fn test_ctrl() {
    let control_types = [
        ControlType::LinkRequest,
        ControlType::LinkOpened,
        ControlType::LinkClose,
        ControlType::LinkClear,
        ControlType::NodeWaiting,
        ControlType::Notification,
    ];

    let scratch_callsign = "ki7est";

    for ctype in control_types.iter().cloned() {
        verify_packet(Packet::Control(ControlPacket {
            ctrl_type: ctype,
            source_callsign: scratch_callsign.as_bytes().to_vec(),
            dest_callsign: scratch_callsign.as_bytes().to_vec(),
        }))
    }

    for i in 1..10 {
        for j in 1..10 {
            let source_callsign = (1..(i + 1)).collect::<Vec<u8>>();
            let dest_callsign = (1..(j + 1)).collect::<Vec<u8>>();

            verify_packet(Packet::Control(ControlPacket {
                ctrl_type: ControlType::LinkRequest,
                source_callsign,
                dest_callsign,
            }));
        }
    }
}

#[test]
fn packet_test_broadcast() {
    let scratch_callsign = "ki7est";

    let base_packet = BroadcastPacket {
        fec_enabled: false,
        retry_enabled: false,
        major_ver: 0,
        minor_ver: 0,
        link_width: 0,
        callsign: scratch_callsign.as_bytes().to_vec(),
    };

    {
        let packet = base_packet.clone();
        verify_packet(Packet::Broadcast(packet));
    }

    {
        let mut packet = base_packet.clone();
        packet.fec_enabled = true;
        verify_packet(Packet::Broadcast(packet));
    }

    {
        let mut packet = base_packet.clone();
        packet.retry_enabled = true;
        verify_packet(Packet::Broadcast(packet));
    }

    for i in 0..255 {
        let mut packet = base_packet.clone();
        packet.major_ver = i;
        verify_packet(Packet::Broadcast(packet));
    }

    for i in 0..255 {
        let mut packet = base_packet.clone();
        packet.minor_ver = i;
        verify_packet(Packet::Broadcast(packet));
    }

    for i in 0..16384 {
        let mut packet = base_packet.clone();
        packet.link_width = i;
        verify_packet(Packet::Broadcast(packet));
    }
}

#[test]
fn test_data() {
    // Only tests the data header; the payload is covered by the payload
    // tests.
    let base_packet = DataPacket {
        packet_idx: 0,
        fec_bytes: 0,
        start_flag: false,
        end_flag: false,
    };

    for i in 0..16384 {
        let mut packet = base_packet.clone();
        packet.packet_idx = i;
        verify_packet(Packet::Data(packet, vec![]));
    }

    for i in 0..64 {
        let mut packet = base_packet.clone();
        packet.fec_bytes = i;
        verify_packet(Packet::Data(packet, vec![]));
    }

    {
        let mut packet = base_packet.clone();
        packet.start_flag = true;
        verify_packet(Packet::Data(packet, vec![]));
    }

    {
        let mut packet = base_packet.clone();
        packet.end_flag = true;
        verify_packet(Packet::Data(packet, vec![]));
    }
}

#[test]
fn test_data_payload() {
    let base_packet = DataPacket {
        packet_idx: 0,
        fec_bytes: 0,
        start_flag: false,
        end_flag: false,
    };

    for i in 1..20 {
        for f in 0..64 {
            let mut packet = base_packet.clone();
            packet.fec_bytes = f;
            test_data_payload_size(packet, i * 100);
        }
    }
}

fn test_data_payload_size(packet: DataPacket, size: usize) {
    let data = (0..size).map(|v| (v & 0xFF) as u8).collect::<Vec<u8>>();

    verify_data_packet(&packet, &data[..], true);
    verify_data_packet(&packet, &data[..], false);
}

fn verify_data_packet(packet: &DataPacket, data: &[u8], fec: bool) {
    let mut scratch = vec![];

    let (written, _data_written, _eof) =
        encode_data_vec(packet.clone(), fec, 4096, data, &mut scratch);
    assert_eq!(written, scratch.len());

    verify_data_packet_decode(&scratch, data, fec, 0)
}

fn verify_data_packet_decode(encoded: &[u8], data: &[u8], fec: bool, fec_errors: usize) {
    let (header, payload) = match decode(encoded, fec) {
        Ok((Packet::Data(header, payload), errs)) => {
            assert_eq!(errs, 0);
            (header, payload)
        }
        o => panic!("{:?}", o),
    };

    verify_data_blocks(&header, &payload, data, fec, fec_errors);
}

fn verify_data_blocks(packet: &DataPacket, payload: &[u8], data: &[u8], fec: bool, err: usize) {
    let mut decoded = vec![];

    let fec_err = decode_data_blocks(packet, payload, fec, &mut decoded).unwrap();

    assert_eq!(fec_err, err);
    assert_eq!(&decoded[..], data);
}

#[test]
fn test_data_payload_fec() {
    let base_packet = DataPacket {
        packet_idx: 0,
        fec_bytes: 0,
        start_flag: false,
        end_flag: false,
    };

    for f in 0..64 {
        let mut packet = base_packet.clone();
        packet.fec_bytes = f;
        let data = (0..512).map(|v| v as u8).collect::<Vec<u8>>();

        let mut scratch = vec![];
        let (written, data_written, eof) =
            encode_data_vec(packet.clone(), true, BLOCK_SIZE, &data, &mut scratch);

        assert_eq!(data_written, BLOCK_SIZE - get_fec_bytes(f) - 9);
        assert_eq!(written, BLOCK_SIZE);
        assert_eq!(eof, false);
    }
}

#[test]
fn test_data_payload_eof() {
    let base_packet = DataPacket {
        packet_idx: 0,
        fec_bytes: 0,
        start_flag: false,
        end_flag: false,
    };

    let packet = base_packet.clone();
    let data = (0..300).map(|v| v as u8).collect::<Vec<u8>>();

    let mut scratch = vec![];
    let mut read = ByteReader::from_data(data);
    {
        let (written, data_written, eof) =
            encode_data(packet.clone(), true, 256, &mut read, &mut scratch);

        assert_eq!(data_written, 256 - get_fec_bytes(packet.fec_bytes) - 9);
        assert_eq!(written, 256);
        assert_eq!(eof, false);
    }

    {
        let (written, data_written, eof) =
            encode_data(packet.clone(), true, 256, &mut read, &mut scratch);

        let data_size = 300 - (256 - get_fec_bytes(packet.fec_bytes) - 9);
        assert_eq!(data_written, data_size);
        assert_eq!(written, data_size + 2 + 9);
        assert_eq!(eof, true);
    }
}

#[test]
fn fec_corrects_corrupted_frames() {
    // A coded frame survives corruption: one flipped byte in a whole-frame
    // coded packet is repaired and reported.
    let packet = Packet::Ack(AckPacket {
        packet_idx: 1234,
        nack: false,
        response: true,
        pending_response: false,
        corrected_errors: 7,
    });
    let mut scratch = vec![];
    encode(&packet, true, &mut scratch).unwrap();

    for i in 0..scratch.len() - FEC_CRC_BYTES {
        let mut corrupt = scratch.clone();
        corrupt[i] = !corrupt[i];
        match decode(&corrupt, true) {
            Ok((p, e)) => {
                assert_eq!(p, packet);
                assert!(e >= 1);
            }
            o => panic!("{:?}", o),
        }
    }
}

#[test]
fn fec_corrects_corrupted_data_payload() {
    // One flipped byte inside a coded payload block is repaired when its
    // parity allows it.
    let header = DataPacket {
        packet_idx: 9,
        fec_bytes: 1,
        start_flag: true,
        end_flag: false,
    };
    let data = (0..32).map(|v| v as u8).collect::<Vec<u8>>();
    let mut scratch = vec![];
    encode_data_vec(header.clone(), true, 64, &data, &mut scratch);

    // Flip one byte in the payload blocks, past the three header bytes.
    let mut corrupt = scratch.clone();
    corrupt[10] = !corrupt[10];

    let (decoded_header, payload) = match decode(&corrupt, true) {
        Ok((Packet::Data(h, payload), _errs)) => (h, payload),
        o => panic!("{:?}", o),
    };
    assert_eq!(decoded_header, header);

    let mut decoded = vec![];
    let errs = decode_data_blocks(&decoded_header, &payload, true, &mut decoded).unwrap();
    assert_eq!(errs, 1);
    assert_eq!(decoded, data);
}

#[test]
fn decode_rejects_malformed_frames() {
    // An empty buffer, a truncated broadcast, an unknown control command and
    // a bad ack length are all bad formats; a long unstructured buffer under
    // coding is uncorrectable.
    assert!(matches!(
        decode(&[], false),
        Err(PacketDecodeError::BadFormat)
    ));
    assert!(matches!(
        decode(&[0x00, 1, 2], false),
        Err(PacketDecodeError::BadFormat)
    ));
    // Control command seven is reserved and refused.
    assert!(matches!(
        decode(&[0xC7, b'a', 0, b'b'], false),
        Err(PacketDecodeError::BadFormat)
    ));
    // An ack must be exactly four bytes.
    assert!(matches!(
        decode(&[0x80, 0, 0, 0, 0], false),
        Err(PacketDecodeError::BadFormat)
    ));
    // A control block without a separator is refused.
    assert!(matches!(
        decode(&[0xC1, b'a', b'b', b'c'], false),
        Err(PacketDecodeError::BadFormat)
    ));
    // Too short for any coded frame.
    assert!(matches!(
        decode(&[1, 2, 3], true),
        Err(PacketDecodeError::BadFormat)
    ));
}

#[test]
fn fragment_loop_reassembles_whole_payload() {
    // Fragmenting a whole payload frame after frame and reassembling every
    // frame's blocks, in order, yields exactly the payload.
    for fec in [true, false] {
        let payload = (0..1000).map(|v| (v % 251) as u8).collect::<Vec<u8>>();
        let mut reader = ByteReader::from_data(payload.clone());
        let mut out = vec![];
        let mut idx: u16 = 0;
        loop {
            let header = DataPacket {
                packet_idx: idx,
                fec_bytes: 1,
                start_flag: idx == 0,
                end_flag: false,
            };
            let mut frame = vec![];
            let (_written, consumed, eof) = encode_data(header, fec, 64, &mut reader, &mut frame);
            let (h, blocks) = match decode(&frame, fec) {
                Ok((Packet::Data(h, blocks), _errs)) => (h, blocks),
                o => panic!("{:?}", o),
            };
            decode_data_blocks(&h, &blocks, fec, &mut out).unwrap();
            idx += 1;
            if eof || consumed == 0 {
                break;
            }
        }
        assert_eq!(out, payload);
    }
}
