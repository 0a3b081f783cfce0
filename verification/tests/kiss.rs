use rfnet_core::kiss;

const FEND: u8 = 0xC0;
const FESC: u8 = 0xDB;
const TFEND: u8 = 0xDC;
const TFESC: u8 = 0xDD;
const CMD_DATA: u8 = 0x00;
const CMD_TX_DELAY: u8 = 0x01;
const CMD_RETURN: u8 = 0xFF;

#[test]
fn test_encode() {
    {
        let mut data = vec![];
        kiss::encode(&['T' as u8, 'E' as u8, 'S' as u8, 'T' as u8], &mut data, 0);
        assert_eq!(
            data,
            vec![FEND, CMD_DATA, 'T' as u8, 'E' as u8, 'S' as u8, 'T' as u8, FEND]
        );
    }

    {
        let mut data = vec![];
        kiss::encode(
            &['H' as u8, 'E' as u8, 'L' as u8, 'L' as u8, 'O' as u8],
            &mut data,
            5,
        );
        assert_eq!(
            data,
            vec![
                FEND,
                CMD_DATA | 0x50,
                'H' as u8,
                'E' as u8,
                'L' as u8,
                'L' as u8,
                'O' as u8,
                FEND
            ]
        );
    }

    {
        let mut data = vec![];
        kiss::encode(&[FEND, FESC], &mut data, 0);
        assert_eq!(data, vec![FEND, CMD_DATA, FESC, TFEND, FESC, TFESC, FEND]);
    }

    {
        let mut data = vec![];
        kiss::encode_cmd(&mut data, CMD_TX_DELAY, 4, 0);
        assert_eq!(data, vec![FEND, CMD_TX_DELAY, 0x04, FEND]);
    }

    {
        let mut data = vec![];
        kiss::encode_cmd(&mut data, CMD_TX_DELAY, 4, 6);
        assert_eq!(data, vec![FEND, CMD_TX_DELAY | 0x60, 0x04, FEND]);
    }

    {
        let mut data = vec![];
        kiss::encode_cmd(&mut data, CMD_RETURN, 4, 2);
        assert_eq!(data, vec![FEND, CMD_RETURN, FEND]);
    }
}

fn test_encode_decode_single(expected: Vec<u8>) {
    let mut data = vec![];
    let mut decoded = vec![];

    kiss::encode(&expected, &mut data, 5);
    match kiss::decode(&data, &mut decoded) {
        Some(result) => {
            assert_eq!(result.port, 5);
            assert_eq!(result.bytes_read, data.len());
            assert_eq!(expected, decoded);
        }
        None => assert!(false),
    }
}

fn test_decode_single(data: &mut Vec<u8>, expected: &[u8], port: u8) {
    let mut decoded = vec![];

    match kiss::decode(data, &mut decoded) {
        Some(result) => {
            assert_eq!(result.port, port);
            assert_eq!(expected, decoded.as_slice());
            assert_eq!(result.payload_size, expected.len());

            // Remove the data so subsequent reads work.
            data.drain(0..result.bytes_read);
        }
        None => assert!(false),
    }
}

#[test]
fn kiss_test_encode_decode() {
    test_encode_decode_single(vec!['T' as u8, 'E' as u8, 'S' as u8, 'T' as u8]);
    test_encode_decode_single(vec![
        'H' as u8, 'E' as u8, 'L' as u8, 'L' as u8, 'O' as u8,
    ]);
    test_encode_decode_single(vec![FEND, FESC]);
}

#[test]
fn test_empty_frame() {
    let mut data = vec![];
    let expected: Vec<u8> = vec!['T' as u8, 'E' as u8, 'S' as u8, 'T' as u8];

    data.push(FEND);
    data.push(FEND);
    data.push(FEND);

    kiss::encode(&expected, &mut data, 0);

    let mut decoded = vec![];
    match kiss::decode(&data, &mut decoded) {
        Some(result) => {
            assert_eq!(result.bytes_read, data.len());
            assert_eq!(result.payload_size, expected.len());
            assert_eq!(result.port, 0);
            assert_eq!(expected, decoded);
        }
        None => assert!(false),
    }
}

#[test]
fn test_multi_frame() {
    let expected_one: Vec<u8> = vec!['T' as u8, 'E' as u8, 'S' as u8, 'T' as u8];
    let expected_two: Vec<u8> = vec!['H' as u8, 'E' as u8, 'L' as u8, 'L' as u8, 'O' as u8];
    let expected_three = [FEND, FESC];

    let mut data = vec![];

    kiss::encode(&expected_one, &mut data, 0);
    kiss::encode(&expected_two, &mut data, 0);
    kiss::encode(&expected_three, &mut data, 0);

    test_decode_single(&mut data, &expected_one, 0);
    test_decode_single(&mut data, &expected_two, 0);
    test_decode_single(&mut data, &expected_three, 0);
}

#[test]
fn pre_kiss_data() {
    let expected_one: Vec<u8> = vec!['T' as u8, 'E' as u8, 'S' as u8, 'T' as u8];
    let mut data = vec![1, 2, 3];

    kiss::encode(&expected_one, &mut data, 0);
    test_decode_single(&mut data, &expected_one, 0);
}

#[test]
fn post_kiss_data() {
    let expected_one: Vec<u8> = vec!['T' as u8, 'E' as u8, 'S' as u8, 'T' as u8];
    let mut data = vec![];
    kiss::encode(&expected_one, &mut data, 0);

    data.extend_from_slice(&[1, 2, 3]);

    test_decode_single(&mut data, &expected_one, 0);

    let mut decoded = vec![];
    match kiss::decode(&data, &mut decoded) {
        Some(_) => assert!(false),
        None => (),
    }
}

#[test]
fn kiss_empty_payload_round_trip() {
    // A frame may carry no payload at all: only the port byte between the
    // delimiters.
    let mut data = vec![];
    kiss::encode(&[], &mut data, 3);
    assert_eq!(data, vec![FEND, 0x30, FEND]);

    let mut decoded = vec![];
    let result = kiss::decode(&data, &mut decoded).unwrap();
    assert_eq!(result.port, 3);
    assert_eq!(result.payload_size, 0);
    assert_eq!(result.bytes_read, data.len());
    assert!(decoded.is_empty());
}

#[test]
fn kiss_incomplete_frame_waits() {
    // Without a closing delimiter nothing is decoded yet.
    let data = vec![FEND, 0x00, 1, 2, 3];
    let mut decoded = vec![];
    assert!(kiss::decode(&data, &mut decoded).is_none());
    assert!(decoded.is_empty());
}
