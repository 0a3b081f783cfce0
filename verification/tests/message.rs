use rfnet_core::message::{
    decode_request_message, decode_response_message, encode_request_message,
    encode_response_message, MessageError, RESTMethod, RequestMessage, RequestType,
    ResponseMessage, ResponseType,
};

fn rest_request(url: &str, headers: &str, body: &str) -> RequestMessage {
    RequestMessage {
        sequence_id: 1000,
        addr: "KI7EST@rfnet.net".as_bytes().to_vec(),
        req_type: RequestType::REST {
            method: RESTMethod::GET,
            url: url.as_bytes().to_vec(),
            headers: headers.as_bytes().to_vec(),
            body: body.as_bytes().to_vec(),
        },
    }
}

#[test]
fn test_request() {
    let req = rest_request(
        "http://rfnet.net/v1/endpoint",
        "key: value\nkey2: value2",
        "body",
    );

    let mut encoded = vec![];
    encode_request_message(&req, &vec![0; 64], &mut encoded).unwrap();
    let decoded = decode_request_message(&encoded).unwrap();

    assert_eq!(req, decoded.msg);
    assert_eq!(decoded.signature, vec![0; 64]);
    assert_eq!(decoded.contents[..], encoded[64..]);
}

#[test]
fn message_test_response() {
    let resp = ResponseMessage {
        resp_type: ResponseType::REST {
            code: 200,
            body: "OK".as_bytes().to_vec(),
        },
    };

    let mut encoded = vec![];
    encode_response_message(&resp, &mut encoded).unwrap();
    let decoded = decode_response_message(&encoded).unwrap();

    assert_eq!(resp, decoded);
}

#[test]
fn request_round_trips_every_method() {
    for method in [
        RESTMethod::GET,
        RESTMethod::PUT,
        RESTMethod::PATCH,
        RESTMethod::POST,
        RESTMethod::DELETE,
    ] {
        let req = RequestMessage {
            sequence_id: 42,
            addr: "A@b".as_bytes().to_vec(),
            req_type: RequestType::REST {
                method,
                url: "http://x/y".as_bytes().to_vec(),
                headers: "".as_bytes().to_vec(),
                body: "payload".as_bytes().to_vec(),
            },
        };
        let mut encoded = vec![];
        encode_request_message(&req, &vec![7; 64], &mut encoded).unwrap();
        let decoded = decode_request_message(&encoded).unwrap();
        assert_eq!(req, decoded.msg);
    }
}

#[test]
fn request_round_trips_raw_and_reserved() {
    for req_type in [
        RequestType::Reserved,
        RequestType::Raw(vec![0, 1, 2, 0xC0, 0xDB, 255]),
    ] {
        let req = RequestMessage {
            sequence_id: 7,
            addr: "N0CALL".as_bytes().to_vec(),
            req_type,
        };
        let mut encoded = vec![];
        encode_request_message(&req, &vec![1; 64], &mut encoded).unwrap();
        let decoded = decode_request_message(&encoded).unwrap();
        assert_eq!(req, decoded.msg);
    }
}

#[test]
fn request_decode_errors() {
    // Too short for a signature and the smallest message.
    assert_eq!(
        decode_request_message(&[0; 67]),
        Err(MessageError::Truncated)
    );
    // No address terminator.
    assert_eq!(
        decode_request_message(&[1; 80]),
        Err(MessageError::MissingTerminator)
    );
    // Address that is not UTF-8.
    {
        let mut data = vec![0u8; 64];
        data.extend_from_slice(&[0xFF, 0xFE, 0, 0, 0, 0]);
        assert_eq!(decode_request_message(&data), Err(MessageError::InvalidUtf8));
    }
    // Nothing after the address terminator.
    {
        let mut data = vec![0u8; 64];
        data.extend_from_slice(&[b'a', b'b', b'c', 0]);
        assert_eq!(decode_request_message(&data), Err(MessageError::Truncated));
    }
    // An unknown payload type.
    {
        let mut data = vec![0u8; 64];
        data.extend_from_slice(&[0, 0, 42, 9]);
        assert_eq!(decode_request_message(&data), Err(MessageError::InvalidType));
    }
    // A REST payload with a bad method token.
    {
        let mut data = vec![0u8; 64];
        data.extend_from_slice(&[0, 0, 42, 1]);
        data.extend_from_slice(b"FETCH http://x\0\0");
        assert_eq!(
            decode_request_message(&data),
            Err(MessageError::InvalidMethod)
        );
    }
    // A REST payload without the url terminator.
    {
        let mut data = vec![0u8; 64];
        data.extend_from_slice(&[0, 0, 42, 1]);
        data.extend_from_slice(b"GEThttp://x");
        assert_eq!(
            decode_request_message(&data),
            Err(MessageError::MissingTerminator)
        );
    }
}

#[test]
fn request_rejects_short_signature() {
    let req = rest_request("http://x", "", "");
    let mut encoded = vec![];
    assert_eq!(
        encode_request_message(&req, &vec![0; 63], &mut encoded),
        Err(MessageError::BadSignature)
    );
    assert!(encoded.is_empty());
}

#[test]
fn response_decode_errors() {
    // Too short.
    assert_eq!(decode_response_message(&[1, 0]), Err(MessageError::Truncated));
    // Unknown type.
    assert_eq!(
        decode_response_message(&[9, 0, 0, 0]),
        Err(MessageError::InvalidType)
    );
    // A REST body that is not UTF-8.
    assert_eq!(
        decode_response_message(&[1, 0, 200, 0xFF]),
        Err(MessageError::InvalidUtf8)
    );
}

#[test]
fn response_round_trips_raw() {
    let resp = ResponseMessage {
        resp_type: ResponseType::Raw(vec![9, 8, 7, 6]),
    };
    let mut encoded = vec![];
    encode_response_message(&resp, &mut encoded).unwrap();
    assert_eq!(decode_response_message(&encoded).unwrap(), resp);
}
