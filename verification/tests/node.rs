use rfnet_core::buffers::{ByteReader, FrameSink};
use rfnet_core::node::{
    calc_ctrl_bytes, ClientEvent, ClientState, LinkConfig, Node, NodeError, IDLE_TIMEOUT,
    LISTEN_TIMEOUT,
};
use rfnet_core::packet::{
    decode, encode, BroadcastPacket, ControlPacket, ControlType, Packet,
};
use rfnet_core::framed::{KISSFramed, LoopbackIo};
use rfnet_core::message::RESTMethod;
use rfnet_core::recv_block::{RecvBlock, RecvResult};
use rfnet_core::request_response::{RequestResponse, ResponseReceiver};
use rfnet_core::send_block::{RetryConfig, SendBlock, SendResult};

fn encode_packet(packet: &Packet, fec: bool) -> Vec<u8> {
    let mut data = vec![];
    encode(packet, fec, &mut data).unwrap();
    data
}

fn broadcast_packet() -> Packet {
    Packet::Broadcast(BroadcastPacket {
        fec_enabled: true,
        retry_enabled: true,
        major_ver: 1,
        minor_ver: 1,
        link_width: 32,
        callsign: "KI7EST".as_bytes().to_vec(),
    })
}

fn get_default_config() -> LinkConfig {
    LinkConfig {
        fec_enabled: true,
        retry_enabled: true,
        major_ver: 1,
        minor_ver: 1,
        link_width: 32,
        callsign: "KI7EST".as_bytes().to_vec(),
    }
}

#[test]
fn node_test_broadcast() {
    let mut node = Node::new("KI7EST", None, RetryConfig::default(1200));
    let mut packet_writer = FrameSink::new();
    let mut events = vec![];
    assert_eq!(node.get_state(), ClientState::Listening);
    node.tick(LISTEN_TIMEOUT, &mut packet_writer, &mut events).unwrap();
    assert!(events.is_empty());
    assert_eq!(node.get_state(), ClientState::Listening);

    let mut response_writer = ResponseReceiver::new();
    let mut request_reader = ByteReader::new();

    node.on_data(
        &encode_packet(&broadcast_packet(), true),
        &mut packet_writer,
        &mut response_writer,
        &mut request_reader,
        &mut events,
    )
    .unwrap();
    assert_eq!(
        events,
        vec![ClientEvent::StateChange(
            ClientState::Listening,
            ClientState::Idle
        )]
    );
    assert_eq!(node.get_state(), ClientState::Idle);
}

#[test]
fn test_fec_mismatch() {
    let expected = get_default_config();

    let mut packet_writer = FrameSink::new();
    let mut response_writer = ResponseReceiver::new();
    let mut request_reader = ByteReader::new();

    {
        let mut node = Node::new("KI7EST", None, RetryConfig::default(1200));
        let mut events = vec![];

        node.on_data(
            &encode_packet(&broadcast_packet(), true),
            &mut packet_writer,
            &mut response_writer,
            &mut request_reader,
            &mut events,
        )
        .unwrap();
        assert_eq!(
            events,
            vec![ClientEvent::StateChange(
                ClientState::Listening,
                ClientState::Idle
            )]
        );
        assert_eq!(node.get_state(), ClientState::Idle);
        assert_eq!(node.get_link().as_ref().unwrap(), &expected);
    }

    {
        let mut node = Node::new("KI7EST", None, RetryConfig::default(1200));
        let mut events = vec![];

        node.on_data(
            &encode_packet(&broadcast_packet(), false),
            &mut packet_writer,
            &mut response_writer,
            &mut request_reader,
            &mut events,
        )
        .unwrap();
        assert_eq!(
            events,
            vec![ClientEvent::StateChange(
                ClientState::Listening,
                ClientState::Idle
            )]
        );
        assert_eq!(node.get_state(), ClientState::Idle);
        assert_eq!(node.get_link().as_ref().unwrap(), &expected);
    }
}

#[test]
fn test_idle() {
    let mut node = Node::new("KI7EST", Some(get_default_config()), RetryConfig::default(1200));
    let mut packet_writer = FrameSink::new();
    let mut events = vec![];

    assert_eq!(node.get_state(), ClientState::Listening);
    node.tick(LISTEN_TIMEOUT, &mut packet_writer, &mut events).unwrap();
    assert_eq!(
        events,
        vec![ClientEvent::StateChange(
            ClientState::Listening,
            ClientState::Idle
        )]
    );
    assert_eq!(node.get_state(), ClientState::Idle)
}

#[test]
fn test_link_clear() {
    let mut node = Node::new("KI7EST", Some(get_default_config()), RetryConfig::default(1200));
    let mut packet_writer = FrameSink::new();
    let mut events = vec![];

    let clear = Packet::Control(ControlPacket {
        source_callsign: "KI7EST".as_bytes().to_vec(),
        dest_callsign: "ANY".as_bytes().to_vec(),
        ctrl_type: ControlType::LinkClear,
    });

    let mut response_writer = ResponseReceiver::new();
    let mut request_reader = ByteReader::new();

    assert_eq!(node.get_state(), ClientState::Listening);
    node.on_data(
        &encode_packet(&clear, true),
        &mut packet_writer,
        &mut response_writer,
        &mut request_reader,
        &mut events,
    )
    .unwrap();
    assert_eq!(
        events,
        vec![ClientEvent::StateChange(
            ClientState::Listening,
            ClientState::Idle
        )]
    );
    assert_eq!(node.get_state(), ClientState::Idle)
}

#[test]
fn test_other_data() {
    let mut node = Node::new("KI7EST", Some(get_default_config()), RetryConfig::default(1200));
    let mut packet_writer = FrameSink::new();
    let mut events = vec![];
    node.tick(LISTEN_TIMEOUT, &mut packet_writer, &mut events).unwrap();
    events.clear();

    let mut response_writer = ResponseReceiver::new();
    let mut request_reader = ByteReader::new();

    assert_eq!(node.get_state(), ClientState::Idle);
    node.on_data(
        &[0; 8],
        &mut packet_writer,
        &mut response_writer,
        &mut request_reader,
        &mut events,
    )
    .unwrap();
    assert_eq!(
        events,
        vec![ClientEvent::StateChange(
            ClientState::Idle,
            ClientState::Listening
        )]
    );
    assert_eq!(node.get_state(), ClientState::Listening);
}

fn connect() -> Node {
    let mut node = Node::new("KI7EST", Some(get_default_config()), RetryConfig::default(1200));
    let mut packet_writer = FrameSink::new();
    let mut events = vec![];
    node.tick(LISTEN_TIMEOUT, &mut packet_writer, &mut events).unwrap();
    events.clear();

    node.connect(&mut packet_writer, &mut events).unwrap();
    assert_eq!(
        events,
        vec![ClientEvent::StateChange(
            ClientState::Idle,
            ClientState::Negotiating
        )]
    );
    events.clear();
    assert_eq!(node.get_state(), ClientState::Negotiating);

    let frames = packet_writer.take_frames();
    assert_eq!(frames.len(), 1);
    {
        let decoded = decode(&frames[0], true).unwrap();

        match decoded.0 {
            Packet::Control(ctrl) => {
                assert_eq!(ctrl.source_callsign, "KI7EST".as_bytes().to_vec());
                assert_eq!(ctrl.dest_callsign, "KI7EST".as_bytes().to_vec());
                assert_eq!(ctrl.ctrl_type, ControlType::LinkRequest);
            }
            o => panic!("{:?}", o),
        }
    }

    let response = Packet::Control(ControlPacket {
        source_callsign: "KI7EST".as_bytes().to_vec(),
        dest_callsign: "KI7EST".as_bytes().to_vec(),
        ctrl_type: ControlType::LinkOpened,
    });

    let mut response_writer = ResponseReceiver::new();
    let mut request_reader = ByteReader::new();
    node.on_data(
        &encode_packet(&response, true),
        &mut packet_writer,
        &mut response_writer,
        &mut request_reader,
        &mut events,
    )
    .unwrap();
    assert_eq!(
        events,
        vec![
            ClientEvent::Connected,
            ClientEvent::StateChange(ClientState::Negotiating, ClientState::Established),
        ]
    );
    assert_eq!(node.get_state(), ClientState::Established);

    node
}

#[test]
fn node_test_connect() {
    connect();
}

#[test]
fn node_test_timeout() {
    let mut node = connect();
    let mut packet_writer = FrameSink::new();
    let mut events = vec![];

    node.tick(IDLE_TIMEOUT, &mut packet_writer, &mut events).unwrap();
    assert_eq!(
        events,
        vec![
            ClientEvent::Disconnected,
            ClientEvent::StateChange(ClientState::Established, ClientState::Idle),
        ]
    );
    assert_eq!(node.get_state(), ClientState::Idle);
}

#[test]
fn test_send_disconnect() {
    let mut node = connect();
    let mut packet_writer = FrameSink::new();
    let mut events = vec![];

    node.disconnect(&mut packet_writer, &mut events).unwrap();
    assert!(events.is_empty());

    let expected = Packet::Control(ControlPacket {
        source_callsign: "KI7EST".as_bytes().to_vec(),
        dest_callsign: "KI7EST".as_bytes().to_vec(),
        ctrl_type: ControlType::LinkClose,
    });

    let frames = packet_writer.take_frames();
    assert_eq!(frames.len(), 1);
    let decoded = decode(&frames[0], true).unwrap();
    assert_eq!(decoded, (expected, 0));
}

#[test]
fn node_test_disconnect() {
    let mut node = connect();
    let mut packet_writer = FrameSink::new();
    let mut events = vec![];

    let disconnect = Packet::Control(ControlPacket {
        source_callsign: "KI7EST".as_bytes().to_vec(),
        dest_callsign: "KI7EST".as_bytes().to_vec(),
        ctrl_type: ControlType::LinkClear,
    });

    let mut response_writer = ResponseReceiver::new();
    let mut request_reader = ByteReader::new();
    node.on_data(
        &encode_packet(&disconnect, true),
        &mut packet_writer,
        &mut response_writer,
        &mut request_reader,
        &mut events,
    )
    .unwrap();
    assert_eq!(
        events,
        vec![
            ClientEvent::Disconnected,
            ClientEvent::StateChange(ClientState::Established, ClientState::Idle),
        ]
    );
    assert_eq!(node.get_state(), ClientState::Idle);
}

#[test]
fn test_connect_fail() {
    let mut node = Node::new("KI7EST", Some(get_default_config()), RetryConfig::default(1200));
    let mut packet_writer = FrameSink::new();
    let mut events = vec![];
    node.tick(LISTEN_TIMEOUT, &mut packet_writer, &mut events).unwrap();
    node.connect(&mut packet_writer, &mut events).unwrap();
    events.clear();

    let callsign = "KI7EST".as_bytes().to_vec();
    let ctrl_bytes = calc_ctrl_bytes(&callsign, &callsign, true);
    let retry_ms = RetryConfig::default(1200).calc_delay(ctrl_bytes, ctrl_bytes);
    let retry_attempts = RetryConfig::default(1200).retry_attempts * 2;

    for i in 0..retry_attempts + 2 {
        if i % 2 == 0 {
            node.tick(1, &mut packet_writer, &mut events).unwrap();
            assert!(events.is_empty(), "{} {:?}", i, events);
        } else {
            node.tick(retry_ms - 1, &mut packet_writer, &mut events).unwrap();
            if i == retry_attempts + 1 {
                assert_eq!(
                    events,
                    vec![
                        ClientEvent::ConnectionFailed,
                        ClientEvent::StateChange(
                            ClientState::Negotiating,
                            ClientState::Listening
                        ),
                    ]
                );
                events.clear();
            } else {
                assert!(events.is_empty(), "{} {:?}", i, events);
            }
        }
    }
    assert_eq!(node.get_state(), ClientState::Listening);
}

fn drain_events(events: &mut Vec<ClientEvent>, send_complete: &mut bool) {
    for e in events.drain(..) {
        match e {
            ClientEvent::ResponseComplete => *send_complete = true,
            ClientEvent::StateChange(old, new) => {
                match old {
                    ClientState::Established | ClientState::Sending | ClientState::Receiving => {}
                    o => panic!("{:?}", o),
                }
                match new {
                    ClientState::Established | ClientState::Sending | ClientState::Receiving => {}
                    o => panic!("{:?}", o),
                }
            }
            o => panic!("{:?}", o),
        }
    }
}

fn flush(sink: &mut FrameSink, chan: &mut rfnet_core::framed::KISSFramed<rfnet_core::framed::LoopbackIo>) {
    for frame in sink.take_frames() {
        chan.write_frame(&frame).unwrap();
    }
}

#[test]
fn test_no_response() {
    let mut node = connect();
    let mut rr = RequestResponse::new();

    let mut recv_block = RecvBlock::new(true);
    let mut recv_data = vec![];
    let mut recv_complete = false;

    let mut send = KISSFramed::new(LoopbackIo::new(), 0);
    let mut recv = KISSFramed::new(LoopbackIo::new(), 0);

    let mut node_sink = FrameSink::new();
    let mut peer_sink = FrameSink::new();

    let mut send_complete = false;
    let mut events = vec![];

    rr.new_request(
        (1, 0),
        "KI7EST@rfnet.net",
        0,
        RESTMethod::GET,
        "http://www.rfnet.net/test",
        "",
        "BODY",
        &vec![0; 64],
    )
    .unwrap();

    let data_len = rr.request.get_data().len();
    node.start_request(&mut rr.request, data_len, &mut node_sink, &mut events).unwrap();
    drain_events(&mut events, &mut send_complete);
    flush(&mut node_sink, &mut send);

    for _ in 0..100 {
        if let Some(frame) = recv.read_frame() {
            node.on_data(&frame, &mut node_sink, &mut rr.response, &mut rr.request, &mut events)
                .unwrap();
            node.tick(100, &mut node_sink, &mut events).unwrap();
            drain_events(&mut events, &mut send_complete);
        }
        flush(&mut node_sink, &mut send);

        if let Some(frame) = send.read_frame() {
            let packet = decode(&frame, true).unwrap();
            match recv_block.on_packet(&packet, &mut peer_sink, &mut recv_data).unwrap() {
                RecvResult::Active => {}
                RecvResult::CompleteSendResponse => {
                    recv_block.send_response(false, &mut peer_sink).unwrap();
                }
                RecvResult::Complete => recv_complete = true,
            }

            recv_block.tick(100, &mut peer_sink).unwrap();
        }
        flush(&mut peer_sink, &mut recv);
    }

    assert!(send_complete);
    assert!(recv_complete);
    assert_eq!(rr.request.get_data(), &recv_data);
    assert_eq!(node.get_state(), ClientState::Established);
}

#[test]
fn node_test_response() {
    let mut node = connect();
    let mut rr = RequestResponse::new();

    let mut recv_block = RecvBlock::new(true);
    let mut recv_data = vec![];
    let mut recv_started = false;
    let mut recv_complete = false;

    let response_data = (0..100).collect::<Vec<u8>>();
    let mut send_block = SendBlock::new(
        response_data.len(),
        32,
        Some(0),
        true,
        RetryConfig::default(1200),
    );
    let mut response_reader = ByteReader::from_data(response_data.clone());

    let mut send = KISSFramed::new(LoopbackIo::new(), 0);
    let mut recv = KISSFramed::new(LoopbackIo::new(), 0);

    let mut node_sink = FrameSink::new();
    let mut peer_sink = FrameSink::new();

    let mut send_complete = false;
    let mut events = vec![];

    rr.new_request(
        (1, 0),
        "KI7EST@rfnet.net",
        0,
        RESTMethod::GET,
        "http://www.rfnet.net/test",
        "",
        "BODY",
        &vec![0; 64],
    )
    .unwrap();

    let data_len = rr.request.get_data().len();
    node.start_request(&mut rr.request, data_len, &mut node_sink, &mut events).unwrap();
    drain_events(&mut events, &mut send_complete);
    flush(&mut node_sink, &mut send);

    for _ in 0..100 {
        if let Some(frame) = recv.read_frame() {
            node.on_data(&frame, &mut node_sink, &mut rr.response, &mut rr.request, &mut events)
                .unwrap();
            node.tick(100, &mut node_sink, &mut events).unwrap();
            drain_events(&mut events, &mut send_complete);
        }
        flush(&mut node_sink, &mut send);

        if let Some(frame) = send.read_frame() {
            let packet = decode(&frame, true).unwrap();

            if !recv_started {
                let mut start_send = false;

                match recv_block.on_packet(&packet, &mut peer_sink, &mut recv_data).unwrap() {
                    RecvResult::Active => {}
                    RecvResult::CompleteSendResponse => {
                        match recv_block.send_response(true, &mut peer_sink).unwrap() {
                            RecvResult::Complete => start_send = true,
                            _ => {}
                        }
                    }
                    RecvResult::Complete => start_send = true,
                }

                if start_send {
                    recv_started = true;
                    send_block.send(&mut peer_sink, &mut response_reader).unwrap();
                } else {
                    recv_block.tick(100, &mut peer_sink).unwrap();
                }
            } else {
                match send_block.on_packet(&packet.0, &mut peer_sink, &mut response_reader).unwrap()
                {
                    SendResult::Active => {}
                    SendResult::CompleteNoResponse => recv_complete = true,
                    SendResult::CompleteResponse => panic!(),
                    SendResult::PendingResponse => {}
                }

                if !recv_complete {
                    send_block.tick(100, &mut peer_sink).unwrap();
                }
            }
        }
        flush(&mut peer_sink, &mut recv);
    }

    assert!(recv_complete);
    assert!(send_complete);
    assert_eq!(rr.response.get_data(), &response_data);
    assert_eq!(rr.request.get_data(), &recv_data);
    assert_eq!(node.get_state(), ClientState::Established);
}

#[test]
fn invalid_events_are_refused() {
    // A Node that is still listening handles neither a connect request nor
    // a disconnect; foreign traffic only restarts its idle clock.
    let mut node = Node::new("KI7EST", Some(get_default_config()), RetryConfig::default(1200));
    let mut packet_writer = FrameSink::new();
    let mut events = vec![];
    assert_eq!(node.get_state(), ClientState::Listening);
    assert_eq!(
        node.connect(&mut packet_writer, &mut events),
        Err(NodeError::InvalidEvent)
    );
    let mut response_writer = ResponseReceiver::new();
    let mut request_reader = ByteReader::new();
    node.tick(LISTEN_TIMEOUT - 1, &mut packet_writer, &mut events).unwrap();
    node.on_data(
        &[0; 8],
        &mut packet_writer,
        &mut response_writer,
        &mut request_reader,
        &mut events,
    )
    .unwrap();
    assert_eq!(node.get_state(), ClientState::Listening);
    // The clock restarted: one more millisecond does not end listening.
    node.tick(1, &mut packet_writer, &mut events).unwrap();
    assert_eq!(node.get_state(), ClientState::Listening);
    assert!(events.is_empty());
    assert_eq!(
        node.disconnect(&mut packet_writer, &mut events),
        Err(NodeError::InvalidEvent)
    );
}

#[test]
fn oversized_request_is_refused() {
    // A transfer that cannot fit the fourteen-bit index space is refused.
    let mut node = connect();
    let mut packet_writer = FrameSink::new();
    let mut events = vec![];
    let big = vec![0u8; 400_000];
    let mut reader = ByteReader::from_data(big);
    assert_eq!(
        node.start_request(&mut reader, 400_000, &mut packet_writer, &mut events),
        Err(NodeError::TooLarge)
    );
    assert_eq!(node.get_state(), ClientState::Established);
}
