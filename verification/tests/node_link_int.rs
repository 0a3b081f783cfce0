use rfnet_core::buffers::FrameSink;
use rfnet_core::framed::{KISSFramed, LoopbackIo};
use rfnet_core::http::{HttpProvider, HttpRequest, HttpResponse};
use rfnet_core::kiss;
use rfnet_core::link::{Link, LinkConfig};
use rfnet_core::message::{ResponseMessage, ResponseType, RESTMethod};
use rfnet_core::node::{ClientEvent, ClientState, Node};
use rfnet_core::request_response::RequestResponse;
use rfnet_core::send_block::RetryConfig;

type Channel = KISSFramed<LoopbackIo>;

fn flush(sink: &mut FrameSink, chan: &mut Channel) {
    for frame in sink.take_frames() {
        chan.write_frame(&frame).unwrap();
    }
}

fn cycle_node(
    node: &mut Node,
    send_channel: &mut Channel,
    recv_channel: &mut Channel,
    rr: &mut RequestResponse,
    request_size: usize,
) -> bool {
    let mut resp_complete = false;
    let mut connect = false;
    let mut start_req = false;

    let mut sink = FrameSink::new();
    let mut events = vec![];

    if let Some(frame) = recv_channel.read_frame() {
        node.on_data(&frame, &mut sink, &mut rr.response, &mut rr.request, &mut events)
            .unwrap();
    }
    node.tick(100, &mut sink, &mut events).unwrap();

    for e in events.drain(..) {
        match e {
            ClientEvent::ConnectionFailed => panic!(),
            ClientEvent::ResponseComplete => resp_complete = true,
            ClientEvent::StateChange(ClientState::Listening, ClientState::Idle) => connect = true,
            ClientEvent::Connected => start_req = true,
            _ => {}
        }
    }

    if connect {
        node.connect(&mut sink, &mut events).unwrap();
    }

    if start_req {
        node.start_request(&mut rr.request, request_size, &mut sink, &mut events).unwrap();
    }

    if resp_complete {
        node.disconnect(&mut sink, &mut events).unwrap();
    }

    flush(&mut sink, send_channel);
    resp_complete
}

struct MockHttp;

impl HttpProvider for MockHttp {
    fn request(&mut self, _request: HttpRequest) -> Result<HttpResponse, Vec<u8>> {
        Ok(HttpResponse {
            code: 200,
            body: b"Response".to_vec(),
        })
    }
}

fn cycle_link(link: &mut Link, send_channel: &mut Channel, recv_channel: &mut Channel) {
    let mut http = MockHttp;
    let mut sink = FrameSink::new();

    if let Some(frame) = send_channel.read_frame() {
        link.recv_data(&frame, &mut sink, &mut http).unwrap();
    }

    link.elapsed(100, &mut sink).unwrap();
    flush(&mut sink, recv_channel);
}

fn cycle_data<S, R>(mut drop_send_fn: S, mut drop_recv_fn: R)
where
    S: FnMut(usize, usize, &mut Vec<u8>),
    R: FnMut(usize, usize, &mut Vec<u8>),
{
    let mut node = Node::new("KI7EST", None, RetryConfig::default(1200));

    let link_config = LinkConfig {
        link_width: 32,
        fec: true,
        retry_enabled: true,
        retry: RetryConfig::default(1200),
        broadcast_rate: Some(100),
    };
    let mut link = Link::new("KI7EST", link_config);

    let mut rr = RequestResponse::new();
    rr.new_request(
        (1, 0),
        "KI7EST@rfnet.net",
        0,
        RESTMethod::GET,
        "http://www.rfnet.net/test",
        "",
        "BODY",
        &vec![0; 64],
    )
    .unwrap();

    let mut send_idx = 0;
    let mut recv_idx = 0;

    let mut response_complete = false;
    {
        let mut send_chan = KISSFramed::new(LoopbackIo::new(), 0);
        let mut recv_chan = KISSFramed::new(LoopbackIo::new(), 0);

        for i in 0..4096 {
            let request_size = rr.request.get_data().len();
            response_complete |=
                cycle_node(&mut node, &mut send_chan, &mut recv_chan, &mut rr, request_size);

            if recv_chan.get_tnc().buffer().len() > 0 {
                send_idx += 1;

                drop_send_fn(i, send_idx, recv_chan.get_tnc_mut().buffer_mut());
            }

            cycle_link(&mut link, &mut send_chan, &mut recv_chan);

            if send_chan.get_tnc().buffer().len() > 0 {
                recv_idx += 1;

                drop_recv_fn(i, recv_idx, send_chan.get_tnc_mut().buffer_mut());
            }

            if response_complete {
                break;
            }
        }
    }

    let response = ResponseMessage {
        resp_type: ResponseType::REST {
            code: 200,
            body: b"Response".to_vec(),
        },
    };

    assert!(response_complete);
    assert_eq!(rr.response.decode().unwrap(), response);
}

#[test]
fn node_link_int_send_recv_full() {
    cycle_data(|_idx, _sidx, _data| {}, |_idx, _ridx, _data| {});
}

#[test]
fn node_link_int_send_send_alt() {
    cycle_data(
        |_idx, sidx, data| {
            if sidx % 2 == 1 {
                data.clear();
            }
        },
        |_idx, _ridx, _data| {},
    );
}

#[test]
fn node_link_int_send_recv_alt() {
    cycle_data(
        |_idx, _sidx, _data| {},
        |_idx, ridx, data| {
            if ridx % 2 == 1 {
                data.clear();
            }
        },
    );
}

fn flip_byte(idx: usize, data: &mut Vec<u8>) {
    let mut decode_data = vec![];
    kiss::decode(data, &mut decode_data).unwrap();

    let i = idx % decode_data.len();
    decode_data[i] = !decode_data[i];

    data.clear();
    kiss::encode(&decode_data, data, 0);
}

#[test]
fn node_link_int_send_flip() {
    cycle_data(
        |_idx, sidx, data| {
            flip_byte(sidx, data);
        },
        |_idx, _ridx, _data| {},
    );
}

#[test]
fn node_link_int_recv_flip() {
    cycle_data(
        |_idx, _sidx, _data| {},
        |_idx, ridx, data| {
            flip_byte(ridx, data);
        },
    );
}
