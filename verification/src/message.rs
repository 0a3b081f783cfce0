//! The request/response envelope above the Data stream. A request carries a
//! 64-byte Ed25519 detached signature over everything after it, then the
//! sender address, a sequence number, and a typed payload; a response carries
//! a typed payload alone. The signature itself is computed and checked by the
//! application's signer: here it is carried and framed, byte for byte.

use vstd::prelude::*;

use crate::buffers::{copy_range, push_range};
use crate::packet::spec_u16_from;
use vstd::utf8::valid_utf8;

verus! {

/// Length of the detached signature that leads a request.
pub const SIGNATURE_LEN: usize = 64;

/// REST methods a request can carry.
#[derive(Debug, Clone, Copy, PartialEq, Eq, Structural)]
pub enum RESTMethod {
    GET,
    PUT,
    PATCH,
    POST,
    DELETE,
}

/// Payload of a request.
#[derive(Debug, Clone, PartialEq)]
pub enum RequestType {
    Reserved,
    REST { method: RESTMethod, url: Vec<u8>, headers: Vec<u8>, body: Vec<u8> },
    Raw(Vec<u8>),
}

/// Payload of a response.
#[derive(Debug, Clone, PartialEq)]
pub enum ResponseType {
    Reserved,
    REST { code: u16, body: Vec<u8> },
    Raw(Vec<u8>),
}

/// A decoded request, less its signature.
#[derive(Debug, Clone, PartialEq)]
pub struct RequestMessage {
    pub sequence_id: u16,
    pub req_type: RequestType,
    pub addr: Vec<u8>,
}

/// A decoded request with its signature and the signed byte range.
#[derive(Debug, Clone, PartialEq)]
pub struct RequestEnvelope {
    pub signature: Vec<u8>,
    pub contents: Vec<u8>,
    pub msg: RequestMessage,
}

/// A decoded response.
#[derive(Debug, Clone, PartialEq)]
pub struct ResponseMessage {
    pub resp_type: ResponseType,
}

/// Why an envelope could not be decoded or encoded.
#[derive(Debug, Clone, Copy, PartialEq, Eq, Structural)]
pub enum MessageError {
    Truncated,
    MissingTerminator,
    InvalidUtf8,
    InvalidType,
    InvalidMethod,
    BadSignature,
}

/// The ASCII token of a method.
pub open spec fn spec_method_token(m: RESTMethod) -> Seq<u8> {
    match m {
        RESTMethod::GET => seq![71u8, 69u8, 84u8],
        RESTMethod::PUT => seq![80u8, 85u8, 84u8],
        RESTMethod::PATCH => seq![80u8, 65u8, 84u8, 67u8, 72u8],
        RESTMethod::POST => seq![80u8, 79u8, 83u8, 84u8],
        RESTMethod::DELETE => seq![68u8, 69u8, 76u8, 69u8, 84u8, 69u8],
    }
}

/// The method whose token starts the payload, if any.
pub open spec fn spec_method_of(pl: Seq<u8>) -> Option<RESTMethod> {
    if pl.len() >= 3 && pl.take(3) == spec_method_token(RESTMethod::GET) {
        Some(RESTMethod::GET)
    } else if pl.len() >= 3 && pl.take(3) == spec_method_token(RESTMethod::PUT) {
        Some(RESTMethod::PUT)
    } else if pl.len() >= 5 && pl.take(5) == spec_method_token(RESTMethod::PATCH) {
        Some(RESTMethod::PATCH)
    } else if pl.len() >= 4 && pl.take(4) == spec_method_token(RESTMethod::POST) {
        Some(RESTMethod::POST)
    } else if pl.len() >= 6 && pl.take(6) == spec_method_token(RESTMethod::DELETE) {
        Some(RESTMethod::DELETE)
    } else {
        None
    }
}

/// The signed bytes of a request: address, NUL, sequence number big-endian,
/// payload type, payload.
pub open spec fn spec_encode_payload(msg: RequestMessage) -> Seq<u8> {
    msg.addr@ + seq![
        0u8,
        (msg.sequence_id / 256) as u8,
        (msg.sequence_id % 256) as u8,
    ] + match msg.req_type {
        RequestType::Reserved => seq![0u8],
        RequestType::REST { method, url, headers, body } => seq![1u8] + spec_method_token(method)
            + url@ + seq![0u8] + headers@ + seq![0u8] + body@,
        RequestType::Raw(payload) => seq![2u8] + payload@,
    }
}

/// A whole request: the signature, then the signed bytes.
pub open spec fn spec_encode_request(msg: RequestMessage, signature: Seq<u8>) -> Seq<u8> {
    signature + spec_encode_payload(msg)
}

/// A whole response: payload type, then the payload.
pub open spec fn spec_encode_response(msg: ResponseMessage) -> Seq<u8> {
    match msg.resp_type {
        ResponseType::Reserved => seq![0u8],
        ResponseType::REST { code, body } => seq![1u8, (code / 256) as u8, (code % 256) as u8]
            + body@,
        ResponseType::Raw(payload) => seq![2u8] + payload@,
    }
}

/// First index at or after `i` holding a NUL byte.
pub open spec fn spec_find_nul(s: Seq<u8>, i: int) -> Option<int>
    decreases s.len() - i,
{
    if i < 0 || i >= s.len() {
        None
    } else if s[i] == 0 {
        Some(i)
    } else {
        spec_find_nul(s, i + 1)
    }
}

/// Why a REST payload would be rejected, in the order the checks run; None
/// means it parses.
pub open spec fn spec_rest_error(pl: Seq<u8>) -> Option<MessageError> {
    match spec_method_of(pl) {
        None => Some(MessageError::InvalidMethod),
        Some(m) => {
            let t = spec_method_token(m).len() as int;
            match spec_find_nul(pl, t) {
                None => Some(MessageError::MissingTerminator),
                Some(u) => {
                    if !valid_utf8(pl.subrange(t, u)) {
                        Some(MessageError::InvalidUtf8)
                    } else {
                        match spec_find_nul(pl, u + 1) {
                            None => Some(MessageError::MissingTerminator),
                            Some(h) => {
                                if !valid_utf8(pl.subrange(u + 1, h)) {
                                    Some(MessageError::InvalidUtf8)
                                } else if !valid_utf8(pl.skip(h + 1)) {
                                    Some(MessageError::InvalidUtf8)
                                } else {
                                    None
                                }
                            },
                        }
                    }
                },
            }
        },
    }
}

/// Why a request would be rejected, in the order the checks run; None means
/// it parses.
pub open spec fn spec_request_error(data: Seq<u8>) -> Option<MessageError> {
    if data.len() < 68 {
        Some(MessageError::Truncated)
    } else {
        match spec_find_nul(data, 64) {
            None => Some(MessageError::MissingTerminator),
            Some(nul) => {
                if !valid_utf8(data.subrange(64, nul)) {
                    Some(MessageError::InvalidUtf8)
                } else if nul + 4 > data.len() {
                    Some(MessageError::Truncated)
                } else {
                    let ty = data[nul + 3];
                    if ty == 0 || ty == 2 {
                        None
                    } else if ty != 1 {
                        Some(MessageError::InvalidType)
                    } else {
                        spec_rest_error(data.skip(nul + 4))
                    }
                }
            },
        }
    }
}

/// What request bytes decode to. Relational: the envelope's owned buffers
/// hold exactly the denoted byte ranges.
pub open spec fn spec_request_decodes_to(data: Seq<u8>, env: RequestEnvelope) -> bool {
    spec_request_error(data) is None && env.signature@ == data.take(64) && env.contents@
        == data.skip(64) && {
        let nul = spec_find_nul(data, 64).unwrap();
        &&& env.msg.addr@ == data.subrange(64, nul)
        &&& env.msg.sequence_id == spec_u16_from(data[nul + 1], data[nul + 2])
        &&& {
            let ty = data[nul + 3];
            let pl = data.skip(nul + 4);
            if ty == 0 {
                env.msg.req_type matches RequestType::Reserved
            } else if ty == 2 {
                env.msg.req_type matches RequestType::Raw(payload) && payload@ == pl
            } else {
                env.msg.req_type matches RequestType::REST { method, url, headers, body } && Some(
                    method,
                ) == spec_method_of(pl) && {
                    let t = spec_method_token(method).len() as int;
                    let u = spec_find_nul(pl, t).unwrap();
                    let h = spec_find_nul(pl, u + 1).unwrap();
                    url@ == pl.subrange(t, u) && headers@ == pl.subrange(u + 1, h) && body@
                        == pl.skip(h + 1)
                }
            }
        }
    }
}

/// Why a response would be rejected; None means it parses.
pub open spec fn spec_response_error(data: Seq<u8>) -> Option<MessageError> {
    if data.len() <= 3 {
        Some(MessageError::Truncated)
    } else {
        let ty = data[0];
        if ty == 0 || ty == 2 {
            None
        } else if ty != 1 {
            Some(MessageError::InvalidType)
        } else if !valid_utf8(data.skip(3)) {
            Some(MessageError::InvalidUtf8)
        } else {
            None
        }
    }
}

/// What response bytes decode to.
pub open spec fn spec_response_decodes_to(data: Seq<u8>, msg: ResponseMessage) -> bool {
    spec_response_error(data) is None && {
        let ty = data[0];
        if ty == 0 {
            msg.resp_type matches ResponseType::Reserved
        } else if ty == 2 {
            msg.resp_type matches ResponseType::Raw(payload) && payload@ == data.skip(1)
        } else {
            msg.resp_type matches ResponseType::REST { code, body } && code == spec_u16_from(
                data[1],
                data[2],
            ) && body@ == data.skip(3)
        }
    }
}

/// Fields that survive the round trip: NUL-free where NUL terminates them on
/// the wire, and valid UTF-8 where decoding checks it.
pub open spec fn spec_valid_request(msg: RequestMessage) -> bool {
    !msg.addr@.contains(0u8) && valid_utf8(msg.addr@) && match msg.req_type {
        RequestType::Reserved => true,
        RequestType::REST { method: _, url, headers, body } => !url@.contains(0u8) && valid_utf8(
            url@,
        ) && !headers@.contains(0u8) && valid_utf8(headers@) && valid_utf8(body@),
        RequestType::Raw(_) => true,
    }
}

/// The messages hold equal values: equal fields and equal byte contents.
pub open spec fn spec_request_eq(a: RequestMessage, b: RequestMessage) -> bool {
    a.sequence_id == b.sequence_id && a.addr@ == b.addr@ && match (a.req_type, b.req_type) {
        (RequestType::Reserved, RequestType::Reserved) => true,
        (
            RequestType::REST { method: m1, url: u1, headers: h1, body: b1 },
            RequestType::REST { method: m2, url: u2, headers: h2, body: b2 },
        ) => m1 == m2 && u1@ == u2@ && h1@ == h2@ && b1@ == b2@,
        (RequestType::Raw(p1), RequestType::Raw(p2)) => p1@ == p2@,
        _ => false,
    }
}

/// Relies on core::str::from_utf8: it accepts a byte slice exactly when the
/// slice is valid UTF-8.
#[verifier::external_body]
pub(crate) fn utf8_check(v: &[u8]) -> (r: bool)
    ensures
        r == valid_utf8(v@),
{
    match core::str::from_utf8(v) {
        Ok(_) => true,
        Err(_) => false,
    }
}

/// First index at or after `from` holding a NUL byte.
fn find_nul(data: &[u8], from: usize) -> (r: Option<usize>)
    requires
        from <= data@.len(),
    ensures
        match r {
            Some(i) => spec_find_nul(data@, from as int) == Some(i as int) && from <= i
                < data@.len() && data@[i as int] == 0,
            None => spec_find_nul(data@, from as int) is None,
        },
{
    let mut i: usize = from;
    while i < data.len() && data[i] != 0
        invariant
            from <= i <= data@.len(),
            spec_find_nul(data@, from as int) == spec_find_nul(data@, i as int),
        decreases data@.len() - i,
    {
        i = i + 1;
    }
    if i == data.len() {
        None
    } else {
        Some(i)
    }
}

/// Encodes the signed bytes of a request: everything after the signature.
pub fn encode_request_payload(msg: &RequestMessage, writer: &mut Vec<u8>) -> (r: Result<
    (),
    MessageError,
>)
    ensures
        r is Ok,
        final(writer)@ == old(writer)@ + spec_encode_payload(*msg),
{
    push_range(writer, msg.addr.as_slice(), 0, msg.addr.len());
    writer.push(0u8);
    writer.push((msg.sequence_id / 256) as u8);
    writer.push((msg.sequence_id % 256) as u8);
    match &msg.req_type {
        RequestType::Reserved => {
            writer.push(0u8);
        },
        RequestType::REST { method, url, headers, body } => {
            writer.push(1u8);
            match method {
                RESTMethod::GET => {
                    writer.push(71u8);
                    writer.push(69u8);
                    writer.push(84u8);
                },
                RESTMethod::PUT => {
                    writer.push(80u8);
                    writer.push(85u8);
                    writer.push(84u8);
                },
                RESTMethod::PATCH => {
                    writer.push(80u8);
                    writer.push(65u8);
                    writer.push(84u8);
                    writer.push(67u8);
                    writer.push(72u8);
                },
                RESTMethod::POST => {
                    writer.push(80u8);
                    writer.push(79u8);
                    writer.push(83u8);
                    writer.push(84u8);
                },
                RESTMethod::DELETE => {
                    writer.push(68u8);
                    writer.push(69u8);
                    writer.push(76u8);
                    writer.push(69u8);
                    writer.push(84u8);
                    writer.push(69u8);
                },
            }
            push_range(writer, url.as_slice(), 0, url.len());
            writer.push(0u8);
            push_range(writer, headers.as_slice(), 0, headers.len());
            writer.push(0u8);
            push_range(writer, body.as_slice(), 0, body.len());
        },
        RequestType::Raw(payload) => {
            writer.push(2u8);
            push_range(writer, payload.as_slice(), 0, payload.len());
        },
    }
    proof {
        lemma_full_subrange(msg.addr@);
        match &msg.req_type {
            RequestType::REST { method: _, url, headers, body } => {
                lemma_full_subrange(url@);
                lemma_full_subrange(headers@);
                lemma_full_subrange(body@);
            },
            RequestType::Raw(payload) => {
                lemma_full_subrange(payload@);
            },
            RequestType::Reserved => {},
        }
        assert(writer@ =~= old(writer)@ + spec_encode_payload(*msg));
    }
    Ok(())
}

/// A sequence is its own full subrange.
proof fn lemma_full_subrange(s: Seq<u8>)
    ensures
        s.subrange(0, s.len() as int) == s,
{
    assert(s.subrange(0, s.len() as int) =~= s);
}

/// Encodes a whole request: the given detached signature, then the signed
/// bytes. The signature must be exactly 64 bytes; the application's signer
/// produces it over the bytes that `encode_request_payload` emits.
pub fn encode_request_message(
    msg: &RequestMessage,
    signature: &Vec<u8>,
    writer: &mut Vec<u8>,
) -> (r: Result<(), MessageError>)
    ensures
        r is Ok <==> signature@.len() == 64,
        r is Ok ==> final(writer)@ == old(writer)@ + spec_encode_request(*msg, signature@),
        r is Err ==> final(writer)@ == old(writer)@ && r == Err::<(), MessageError>(
            MessageError::BadSignature,
        ),
{
    if signature.len() != 64 {
        return Err(MessageError::BadSignature);
    }
    push_range(writer, signature.as_slice(), 0, signature.len());
    let res = encode_request_payload(msg, writer);
    proof {
        lemma_full_subrange(signature@);
        assert(writer@ =~= old(writer)@ + spec_encode_request(*msg, signature@));
    }
    res
}

/// Encodes a whole response.
pub fn encode_response_message(msg: &ResponseMessage, writer: &mut Vec<u8>) -> (r: Result<
    (),
    MessageError,
>)
    ensures
        r is Ok,
        final(writer)@ == old(writer)@ + spec_encode_response(*msg),
{
    match &msg.resp_type {
        ResponseType::Reserved => {
            writer.push(0u8);
        },
        ResponseType::REST { code, body } => {
            writer.push(1u8);
            writer.push((*code / 256) as u8);
            writer.push((*code % 256) as u8);
            push_range(writer, body.as_slice(), 0, body.len());
            proof {
                lemma_full_subrange(body@);
            }
        },
        ResponseType::Raw(payload) => {
            writer.push(2u8);
            push_range(writer, payload.as_slice(), 0, payload.len());
            proof {
                lemma_full_subrange(payload@);
            }
        },
    }
    proof {
        assert(writer@ =~= old(writer)@ + spec_encode_response(*msg));
    }
    Ok(())
}

/// Parses the method token at the front of a REST payload, returning the
/// method and the token's length.
fn decode_rest_method(pl: &[u8]) -> (r: Option<(RESTMethod, usize)>)
    ensures
        match r {
            Some(t) => spec_method_of(pl@) == Some(t.0) && t.1 == spec_method_token(t.0).len(),
            None => spec_method_of(pl@) is None,
        },
{
    proof {
        if pl@.len() >= 3 {
            assert(pl@.take(3) =~= seq![pl@[0], pl@[1], pl@[2]]);
        }
        if pl@.len() >= 4 {
            assert(pl@.take(4) =~= seq![pl@[0], pl@[1], pl@[2], pl@[3]]);
        }
        if pl@.len() >= 5 {
            assert(pl@.take(5) =~= seq![pl@[0], pl@[1], pl@[2], pl@[3], pl@[4]]);
        }
        if pl@.len() >= 6 {
            assert(pl@.take(6) =~= seq![pl@[0], pl@[1], pl@[2], pl@[3], pl@[4], pl@[5]]);
        }
    }
    if pl.len() >= 3 && pl[0] == 71 && pl[1] == 69 && pl[2] == 84 {
        Some((RESTMethod::GET, 3))
    } else if pl.len() >= 3 && pl[0] == 80 && pl[1] == 85 && pl[2] == 84 {
        Some((RESTMethod::PUT, 3))
    } else if pl.len() >= 5 && pl[0] == 80 && pl[1] == 65 && pl[2] == 84 && pl[3] == 67 && pl[4]
        == 72 {
        Some((RESTMethod::PATCH, 5))
    } else if pl.len() >= 4 && pl[0] == 80 && pl[1] == 79 && pl[2] == 83 && pl[3] == 84 {
        Some((RESTMethod::POST, 4))
    } else if pl.len() >= 6 && pl[0] == 68 && pl[1] == 69 && pl[2] == 76 && pl[3] == 69 && pl[4]
        == 84 && pl[5] == 69 {
        Some((RESTMethod::DELETE, 6))
    } else {
        None
    }
}

/// Decodes a request envelope. The checks run in the order the fields lie on
/// the wire, and the first failure names the error; what decodes holds
/// exactly the denoted byte ranges.
pub fn decode_request_message(data: &[u8]) -> (r: Result<RequestEnvelope, MessageError>)
    ensures
        r matches Ok(env) ==> spec_request_decodes_to(data@, env),
        r is Ok <==> spec_request_error(data@) is None,
        r matches Err(e) ==> Some(e) == spec_request_error(data@),
{
    if data.len() < 68 {
        return Err(MessageError::Truncated);
    }
    let nul = match find_nul(data, 64) {
        Some(n) => n,
        None => {
            return Err(MessageError::MissingTerminator);
        },
    };
    let addr = copy_range(data, 64, nul);
    if !utf8_check(addr.as_slice()) {
        return Err(MessageError::InvalidUtf8);
    }
    if nul > data.len() - 4 {
        return Err(MessageError::Truncated);
    }
    let sequence_id: u16 = (data[nul + 1] as u16) * 256 + (data[nul + 2] as u16);
    let ty = data[nul + 3];
    let req_type: RequestType = if ty == 0 {
        RequestType::Reserved
    } else if ty == 2 {
        let payload = copy_range(data, nul + 4, data.len());
        proof {
            assert(payload@ =~= data@.skip(nul + 4));
        }
        RequestType::Raw(payload)
    } else if ty != 1 {
        return Err(MessageError::InvalidType);
    } else {
        let pl = copy_range(data, nul + 4, data.len());
        proof {
            assert(pl@ =~= data@.skip(nul + 4));
        }
        let (method, tok) = match decode_rest_method(pl.as_slice()) {
            Some(t) => t,
            None => {
                return Err(MessageError::InvalidMethod);
            },
        };
        let u = match find_nul(pl.as_slice(), tok) {
            Some(n) => n,
            None => {
                return Err(MessageError::MissingTerminator);
            },
        };
        let url = copy_range(pl.as_slice(), tok, u);
        if !utf8_check(url.as_slice()) {
            return Err(MessageError::InvalidUtf8);
        }
        let h = match find_nul(pl.as_slice(), u + 1) {
            Some(n) => n,
            None => {
                return Err(MessageError::MissingTerminator);
            },
        };
        let headers = copy_range(pl.as_slice(), u + 1, h);
        if !utf8_check(headers.as_slice()) {
            return Err(MessageError::InvalidUtf8);
        }
        let body = copy_range(pl.as_slice(), h + 1, pl.len());
        if !utf8_check(body.as_slice()) {
            return Err(MessageError::InvalidUtf8);
        }
        proof {
            assert(body@ =~= pl@.skip(h + 1));
        }
        RequestType::REST { method, url, headers, body }
    };
    let signature = copy_range(data, 0, 64);
    let contents = copy_range(data, 64, data.len());
    proof {
        assert(signature@ =~= data@.take(64));
        assert(contents@ =~= data@.skip(64));
        assert(addr@ =~= data@.subrange(64, nul as int));
    }
    Ok(RequestEnvelope { signature, contents, msg: RequestMessage { sequence_id, req_type, addr } })
}

/// Decodes a response message.
pub fn decode_response_message(data: &[u8]) -> (r: Result<ResponseMessage, MessageError>)
    ensures
        r matches Ok(msg) ==> spec_response_decodes_to(data@, msg),
        r is Ok <==> spec_response_error(data@) is None,
        r matches Err(e) ==> Some(e) == spec_response_error(data@),
{
    if data.len() <= 3 {
        return Err(MessageError::Truncated);
    }
    let ty = data[0];
    if ty == 0 {
        Ok(ResponseMessage { resp_type: ResponseType::Reserved })
    } else if ty == 2 {
        let payload = copy_range(data, 1, data.len());
        proof {
            assert(payload@ =~= data@.skip(1));
        }
        Ok(ResponseMessage { resp_type: ResponseType::Raw(payload) })
    } else if ty != 1 {
        Err(MessageError::InvalidType)
    } else {
        let code: u16 = (data[1] as u16) * 256 + (data[2] as u16);
        let body = copy_range(data, 3, data.len());
        proof {
            assert(body@ =~= data@.skip(3));
        }
        if !utf8_check(body.as_slice()) {
            return Err(MessageError::InvalidUtf8);
        }
        Ok(ResponseMessage { resp_type: ResponseType::REST { code, body } })
    }
}

/// The first NUL at or after `i` is `k`, when everything between is not NUL.
proof fn lemma_find_nul_at(s: Seq<u8>, i: int, k: int)
    requires
        0 <= i <= k < s.len(),
        s[k] == 0u8,
        forall|j: int| i <= j < k ==> s[j] != 0u8,
    ensures
        spec_find_nul(s, i) == Some(k),
    decreases k - i,
{
    if i < k {
        lemma_find_nul_at(s, i + 1, k);
    }
}

/// Decoding undoes encoding of a request: a valid message's bytes parse
/// under any 64-byte signature, and whatever they parse to holds the
/// message's values, the signature, and the signed bytes.
pub proof fn lemma_request_round_trip(msg: RequestMessage, signature: Seq<u8>)
    requires
        signature.len() == 64,
        spec_valid_request(msg),
    ensures
        spec_request_error(spec_encode_request(msg, signature)) is None,
        forall|env: RequestEnvelope|
            #[trigger] spec_request_decodes_to(spec_encode_request(msg, signature), env) ==> (
            spec_request_eq(env.msg, msg) && env.signature@ == signature && env.contents@
                == spec_encode_payload(msg)),
{
    let payload = spec_encode_payload(msg);
    let enc = spec_encode_request(msg, signature);
    let hi = (msg.sequence_id / 256) as u8;
    let lo = (msg.sequence_id % 256) as u8;
    let tail: Seq<u8> = match msg.req_type {
        RequestType::Reserved => seq![0u8],
        RequestType::REST { method, url, headers, body } => seq![1u8] + spec_method_token(method)
            + url@ + seq![0u8] + headers@ + seq![0u8] + body@,
        RequestType::Raw(raw) => seq![2u8] + raw@,
    };
    let a = msg.addr@.len() as int;
    let nul = 64 + a;
    assert(payload =~= msg.addr@ + seq![0u8, hi, lo] + tail);
    assert(tail.len() >= 1);
    assert(enc =~= signature + msg.addr@ + seq![0u8, hi, lo] + tail);
    assert(enc.len() == 68 + a + (tail.len() - 1));
    assert(enc[nul] == 0u8);
    assert(enc[nul + 1] == hi && enc[nul + 2] == lo && enc[nul + 3] == tail[0]);
    assert forall|j: int| 64 <= j < nul implies enc[j] != 0u8 by {
        assert(enc[j] == msg.addr@[j - 64]);
        assert(msg.addr@.contains(msg.addr@[j - 64]));
    }
    lemma_find_nul_at(enc, 64, nul);
    assert(enc.subrange(64, nul) =~= msg.addr@);
    assert(enc.take(64) =~= signature);
    assert(enc.skip(64) =~= payload);
    vstd::arithmetic::div_mod::lemma_fundamental_div_mod(msg.sequence_id as int, 256);
    assert(msg.sequence_id / 256 < 256);
    assert(spec_u16_from(enc[nul + 1], enc[nul + 2]) == msg.sequence_id);
    let pl = enc.skip(nul + 4);
    assert(pl =~= tail.skip(1));
    match msg.req_type {
        RequestType::Reserved => {
            assert(tail[0] == 0u8);
        },
        RequestType::Raw(raw) => {
            assert(tail[0] == 2u8);
            assert(pl =~= raw@);
        },
        RequestType::REST { method, url, headers, body } => {
            assert(tail[0] == 1u8);
            assert(pl =~= spec_method_token(method) + url@ + seq![0u8] + headers@ + seq![0u8]
                + body@);
            lemma_rest_payload_round_trip(method, url@, headers@, body@);
        },
    }
}

/// A well-formed REST payload parses back to its own parts.
proof fn lemma_rest_payload_round_trip(
    method: RESTMethod,
    url: Seq<u8>,
    headers: Seq<u8>,
    body: Seq<u8>,
)
    requires
        !url.contains(0u8),
        valid_utf8(url),
        !headers.contains(0u8),
        valid_utf8(headers),
        valid_utf8(body),
    ensures
        ({
            let pl = spec_method_token(method) + url + seq![0u8] + headers + seq![0u8] + body;
            let t = spec_method_token(method).len() as int;
            let u = t + url.len() as int;
            let h = u + 1 + headers.len() as int;
            &&& spec_rest_error(pl) is None
            &&& spec_method_of(pl) == Some(method)
            &&& spec_find_nul(pl, t) == Some(u) && pl.subrange(t, u) == url
            &&& spec_find_nul(pl, u + 1) == Some(h) && pl.subrange(u + 1, h) == headers
            &&& pl.skip(h + 1) == body
        }),
{
    let pl = spec_method_token(method) + url + seq![0u8] + headers + seq![0u8] + body;
    let t = spec_method_token(method).len() as int;
    let u = t + url.len() as int;
    let h = u + 1 + headers.len() as int;
    lemma_method_token_of(method, url + seq![0u8] + headers + seq![0u8] + body);
    assert(spec_method_token(method) + (url + seq![0u8] + headers + seq![0u8] + body) =~= pl);
    assert(pl[u] == 0u8);
    assert forall|j: int| t <= j < u implies pl[j] != 0u8 by {
        assert(pl[j] == url[j - t]);
        assert(url.contains(url[j - t]));
    }
    lemma_find_nul_at(pl, t, u);
    assert(pl[h] == 0u8);
    assert forall|j: int| u + 1 <= j < h implies pl[j] != 0u8 by {
        assert(pl[j] == headers[j - u - 1]);
        assert(headers.contains(headers[j - u - 1]));
    }
    lemma_find_nul_at(pl, u + 1, h);
    assert(pl.subrange(t, u) =~= url);
    assert(pl.subrange(u + 1, h) =~= headers);
    assert(pl.skip(h + 1) =~= body);
}

/// A payload that starts with a method's own token parses to that method.
proof fn lemma_method_token_of(method: RESTMethod, rest: Seq<u8>)
    ensures
        spec_method_of(spec_method_token(method) + rest) == Some(method),
{
    let pl = spec_method_token(method) + rest;
    match method {
        RESTMethod::GET => {
            assert(pl.take(3) =~= spec_method_token(RESTMethod::GET));
        },
        RESTMethod::PUT => {
            assert(pl.take(3) =~= spec_method_token(RESTMethod::PUT));
            assert(pl.take(3) != spec_method_token(RESTMethod::GET));
        },
        RESTMethod::PATCH => {
            assert(pl.take(3) =~= seq![80u8, 65u8, 84u8]);
            assert(pl.take(5) =~= spec_method_token(RESTMethod::PATCH));
            assert(pl.take(3) != spec_method_token(RESTMethod::GET));
            assert(pl.take(3) != spec_method_token(RESTMethod::PUT));
        },
        RESTMethod::POST => {
            assert(pl.take(3) =~= seq![80u8, 79u8, 83u8]);
            assert(pl.take(4) =~= spec_method_token(RESTMethod::POST));
            assert(pl.take(3) != spec_method_token(RESTMethod::GET));
            assert(pl.take(3) != spec_method_token(RESTMethod::PUT));
            if pl.len() >= 5 {
                assert(pl.take(5)[1] == 79u8);
                assert(pl.take(5) != spec_method_token(RESTMethod::PATCH));
            }
        },
        RESTMethod::DELETE => {
            assert(pl.take(3) =~= seq![68u8, 69u8, 76u8]);
            assert(pl.take(6) =~= spec_method_token(RESTMethod::DELETE));
            assert(pl.take(3) != spec_method_token(RESTMethod::GET));
            assert(pl.take(3) != spec_method_token(RESTMethod::PUT));
            if pl.len() >= 5 {
                assert(pl.take(5)[0] == 68u8);
                assert(pl.take(5) != spec_method_token(RESTMethod::PATCH));
            }
            if pl.len() >= 4 {
                assert(pl.take(4)[0] == 68u8);
                assert(pl.take(4) != spec_method_token(RESTMethod::POST));
            }
        },
    }
}

} // verus!
