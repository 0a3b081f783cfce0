use rfnet_core::buffers::{ByteReader, FrameSink};
use rfnet_core::http::{HttpProvider, HttpRequest, HttpResponse};
use rfnet_core::link::{Link, LinkConfig, NEGOTIATION_TIMEOUT};
use rfnet_core::message;
use rfnet_core::packet::{decode, encode, ControlPacket, ControlType, Packet};
use rfnet_core::recv_block::{RecvBlock, RecvResult};
use rfnet_core::send_block::{RetryConfig, SendBlock, SendResult};
use rfnet_core::{MAJOR_VER, MINOR_VER};

struct MockHttp;

impl HttpProvider for MockHttp {
    fn request(&mut self, _request: HttpRequest) -> Result<HttpResponse, Vec<u8>> {
        Err(b"no backend".to_vec())
    }
}

fn default_config(broadcast_rate: Option<usize>) -> LinkConfig {
    LinkConfig {
        link_width: 32,
        fec: true,
        retry_enabled: true,
        retry: RetryConfig::default(1200),
        broadcast_rate,
    }
}

fn write_packet<H: HttpProvider>(link: &mut Link, packet: &Packet, http: &mut H) -> Option<Packet> {
    let mut output = FrameSink::new();
    let mut input = vec![];

    encode(packet, true, &mut input).unwrap();
    link.recv_data(&input, &mut output, http).unwrap();

    let frames = output.take_frames();
    if frames.len() > 0 {
        assert_eq!(frames.len(), 1);
        Some(decode(&frames[0], true).unwrap().0)
    } else {
        None
    }
}

fn tick(link: &mut Link, ms: usize) -> Option<Packet> {
    let mut output = FrameSink::new();
    link.elapsed(ms, &mut output).unwrap();

    let frames = output.take_frames();
    if frames.len() > 0 {
        assert_eq!(frames.len(), 1);
        Some(decode(&frames[0], true).unwrap().0)
    } else {
        None
    }
}

fn verify_connect(p: Option<Packet>) {
    match p {
        Some(Packet::Control(ctrl)) => {
            assert_eq!(ctrl.ctrl_type, ControlType::LinkOpened);
            assert_eq!(ctrl.source_callsign, "KI7EST".as_bytes().to_vec());
            assert_eq!(ctrl.dest_callsign, "KI7EST-1".as_bytes().to_vec());
        }
        o => panic!("{:?}", o),
    }
}

fn connect_packet() -> Packet {
    Packet::Control(ControlPacket {
        ctrl_type: ControlType::LinkRequest,
        source_callsign: "KI7EST-1".as_bytes().to_vec(),
        dest_callsign: "KI7EST".as_bytes().to_vec(),
    })
}

#[test]
fn link_test_connect() {
    let mut link = Link::new("KI7EST", default_config(None));

    let connect = connect_packet();
    verify_connect(write_packet(&mut link, &connect, &mut MockHttp));

    // If the first LinkOpened was missed, another LinkRequest repeats it.
    verify_connect(write_packet(&mut link, &connect, &mut MockHttp));
}

#[test]
fn link_test_broadcast() {
    let mut link = Link::new("KI7EST", default_config(Some(10)));

    match tick(&mut link, 10_000) {
        Some(Packet::Broadcast(broadcast)) => {
            assert_eq!(broadcast.fec_enabled, true);
            assert_eq!(broadcast.retry_enabled, true);
            assert_eq!(broadcast.major_ver, MAJOR_VER);
            assert_eq!(broadcast.minor_ver, MINOR_VER);
            assert_eq!(broadcast.link_width, 32);
            assert_eq!(broadcast.callsign, "KI7EST".as_bytes().to_vec());
        }
        o => panic!("{:?}", o),
    }
}

#[test]
fn link_test_disconnect() {
    let mut link = Link::new("KI7EST", default_config(None));

    write_packet(&mut link, &connect_packet(), &mut MockHttp);
    match tick(&mut link, NEGOTIATION_TIMEOUT) {
        Some(Packet::Control(ctrl)) => {
            assert_eq!(ctrl.ctrl_type, ControlType::LinkClear);
            assert_eq!(ctrl.source_callsign, "KI7EST".as_bytes().to_vec());
            assert_eq!(ctrl.dest_callsign, "KI7EST-1".as_bytes().to_vec());
        }
        o => panic!("{:?}", o),
    }
}

struct HttpResponder;

impl HttpProvider for HttpResponder {
    fn request(&mut self, request: HttpRequest) -> Result<HttpResponse, Vec<u8>> {
        // The gateway adds the signature and sequence headers, then the
        // envelope's own parsed lines in order.
        assert_eq!(request.headers[0].0, b"X-rfnet-signature".to_vec());
        let expected_sig: Vec<u8> = {
            let mut v = vec![b'A'; 86];
            v.push(b'=');
            v.push(b'=');
            v
        };
        assert_eq!(request.headers[0].1, expected_sig);
        assert_eq!(request.headers[1].0, b"X-rfnet-sequence_id".to_vec());
        assert_eq!(request.headers[1].1, b"1000".to_vec());
        assert_eq!(request.headers[2], (b"header1".to_vec(), b"foo".to_vec()));
        assert_eq!(request.headers[3], (b"header2".to_vec(), b"bar".to_vec()));
        assert_eq!(request.url, b"http://rfnet.net/test".to_vec());
        assert_eq!(request.body, b"Body".to_vec());

        Ok(HttpResponse {
            code: 200,
            body: b"Test".to_vec(),
        })
    }
}

#[test]
fn test_http() {
    let mut link = Link::new("KI7EST", default_config(None));

    write_packet(&mut link, &connect_packet(), &mut HttpResponder);

    let mut payload = vec![];
    message::encode_request_message(
        &message::RequestMessage {
            sequence_id: 1000,
            addr: "KI7EST@rfnet.net".as_bytes().to_vec(),
            req_type: message::RequestType::REST {
                method: message::RESTMethod::GET,
                url: "http://rfnet.net/test".as_bytes().to_vec(),
                headers: "header1: foo\r\nheader2: bar".as_bytes().to_vec(),
                body: "Body".as_bytes().to_vec(),
            },
        },
        &vec![0; 64],
        &mut payload,
    )
    .unwrap();

    let mut sender = SendBlock::new(payload.len(), 32, Some(1), true, RetryConfig::default(1200));

    let mut node_sink = FrameSink::new();
    let mut link_sink = FrameSink::new();
    let mut payload_reader = ByteReader::from_data(payload);

    sender.send(&mut node_sink, &mut payload_reader).unwrap();

    let mut http = HttpResponder;

    let mut iters = 0;
    let mut response = false;
    let mut to_link: Vec<Vec<u8>> = node_sink.take_frames();
    while iters < 200 && !response {
        iters += 1;

        let mut to_node: Vec<Vec<u8>> = vec![];
        for frame in to_link.drain(..) {
            link.recv_data(&frame, &mut link_sink, &mut http).unwrap();
            to_node.append(&mut link_sink.take_frames());
        }

        for frame in to_node.drain(..) {
            let (packet, _err) = decode(&frame, true).unwrap();
            match sender.on_packet(&packet, &mut node_sink, &mut payload_reader).unwrap() {
                SendResult::CompleteResponse => response = true,
                SendResult::CompleteNoResponse => panic!(),
                _ => {}
            }
        }
        to_link = node_sink.take_frames();
    }

    assert!(response);

    let mut receiver = RecvBlock::new(true);
    let mut response_bytes = vec![];

    iters = 0;
    let mut received = false;
    while iters < 100 && !received {
        iters += 1;

        let mut to_node: Vec<Vec<u8>> = vec![];
        for frame in to_link.drain(..) {
            link.recv_data(&frame, &mut link_sink, &mut http).unwrap();
            to_node.append(&mut link_sink.take_frames());
        }
        if to_node.is_empty() {
            // Let the gateway's send retry run.
            link.elapsed(100, &mut link_sink).unwrap();
            to_node.append(&mut link_sink.take_frames());
        }

        for frame in to_node.drain(..) {
            let packet = decode(&frame, true).unwrap();
            match receiver.on_packet(&packet, &mut node_sink, &mut response_bytes).unwrap() {
                RecvResult::CompleteSendResponse => {
                    receiver.send_response(false, &mut node_sink).unwrap();
                    received = true;
                }
                _ => {}
            }
        }
        to_link = node_sink.take_frames();
    }

    assert!(received);

    let http_response = message::decode_response_message(&response_bytes).unwrap();

    match http_response.resp_type {
        message::ResponseType::REST { code, body } => {
            assert_eq!(code, 200);
            assert_eq!(body, b"Test".to_vec());
        }
        o => panic!("{:?}", o),
    }
}
