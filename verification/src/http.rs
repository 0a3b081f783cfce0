//! The boundary to the HTTP side of a gateway. The protocol builds a plain
//! request value out of a decoded envelope: method, url, parsed header pairs
//! with the signature and sequence number added, and the body. What carries
//! it to an HTTP server, and how, is the application's business, behind the
//! `HttpProvider` trait.

use vstd::prelude::*;

use crate::buffers::copy_range;
use crate::message::{utf8_check, RESTMethod, RequestEnvelope, RequestType};
use vstd::utf8::valid_utf8;

verus! {

/// A materialized HTTP request, ready for whatever client carries it.
#[derive(Debug, Clone, PartialEq)]
pub struct HttpRequest {
    pub method: RESTMethod,
    /// The request URL, as the UTF-8 bytes the envelope carried.
    pub url: Vec<u8>,
    /// Header pairs, trimmed; the signature and sequence-number headers come
    /// first, then the envelope's own lines in order.
    pub headers: Vec<(Vec<u8>, Vec<u8>)>,
    /// The request body; may be empty.
    pub body: Vec<u8>,
}

/// A materialized HTTP response.
#[derive(Debug, Clone, PartialEq)]
pub struct HttpResponse {
    pub code: u16,
    pub body: Vec<u8>,
}

/// What carries a request to an HTTP server. The application implements
/// this; an error carries a description that ends up in the failure body.
/// Nothing is assumed of the outcome: the session logic is checked against
/// every response and every error a provider may return.
pub trait HttpProvider {
    fn request(&mut self, request: HttpRequest) -> Result<HttpResponse, Vec<u8>>;
}

/// The base64 text of a byte string; a pure function of the bytes. Its
/// digits are left uninterpreted here.
pub uninterp spec fn base64_of(bytes: Seq<u8>) -> Seq<u8>;

/// Relies on base64::encode: standard alphabet with padding, a function of
/// the input bytes alone.
#[verifier::external_body]
fn base64_encode(bytes: &Vec<u8>) -> (r: Vec<u8>)
    ensures
        r@ == base64_of(bytes@),
{
    base64::encode(bytes.as_slice()).into_bytes()
}

/// The decimal digits of a number.
pub open spec fn spec_u16_decimal(v: u16) -> Seq<u8>
    decreases v,
{
    if v < 10 {
        seq![(48 + v) as u8]
    } else {
        spec_u16_decimal((v / 10) as u16) + seq![(48 + v % 10) as u8]
    }
}

/// Appends the decimal digits of a number.
fn push_u16_decimal(v: u16, out: &mut Vec<u8>)
    ensures
        final(out)@ == old(out)@ + spec_u16_decimal(v),
    decreases v,
{
    if v < 10 {
        out.push(48 + v as u8);
    } else {
        push_u16_decimal(v / 10, out);
        out.push(48 + (v % 10) as u8);
    }
    proof {
        assert(out@ =~= old(out)@ + spec_u16_decimal(v));
    }
}

/// An ASCII byte that header trimming removes.
pub open spec fn spec_is_ws(b: u8) -> bool {
    b == 9 || b == 10 || b == 13 || b == 32
}

/// The bytes with leading whitespace removed.
pub open spec fn spec_trim_front(s: Seq<u8>) -> Seq<u8>
    decreases s.len(),
{
    if s.len() > 0 && spec_is_ws(s[0]) {
        spec_trim_front(s.skip(1))
    } else {
        s
    }
}

/// The bytes with trailing whitespace removed.
pub open spec fn spec_trim_back(s: Seq<u8>) -> Seq<u8>
    decreases s.len(),
{
    if s.len() > 0 && spec_is_ws(s.last()) {
        spec_trim_back(s.drop_last())
    } else {
        s
    }
}

/// The bytes with whitespace removed at both ends.
pub open spec fn spec_trim(s: Seq<u8>) -> Seq<u8> {
    spec_trim_back(spec_trim_front(s))
}

/// First index at or after `i` holding the given byte.
pub open spec fn spec_find_byte(s: Seq<u8>, b: u8, i: int) -> Option<int>
    decreases s.len() - i,
{
    if i < 0 || i >= s.len() {
        None
    } else if s[i] == b {
        Some(i)
    } else {
        spec_find_byte(s, b, i + 1)
    }
}

/// One header line parsed at its first colon, a trailing carriage return
/// dropped first, both sides trimmed; None when the line has no colon.
pub open spec fn spec_parse_header_line(line: Seq<u8>) -> Option<(Seq<u8>, Seq<u8>)> {
    let l = if line.len() > 0 && line.last() == 13 {
        line.drop_last()
    } else {
        line
    };
    match spec_find_byte(l, 58, 0) {
        None => None,
        Some(j) => Some((spec_trim(l.take(j)), spec_trim(l.skip(j + 1)))),
    }
}

/// The header text parsed line by line, splitting at line feeds; None when
/// any line is malformed. Empty text holds no headers.
pub open spec fn spec_parse_headers(s: Seq<u8>) -> Option<Seq<(Seq<u8>, Seq<u8>)>>
    decreases s.len(),
{
    if s.len() == 0 {
        Some(Seq::empty())
    } else {
        let cut = spec_find_byte(s, 10, 0);
        let split = cut is Some && 0 <= cut.unwrap() < s.len();
        let line = if split {
            s.take(cut.unwrap())
        } else {
            s
        };
        let rest = if split {
            s.skip(cut.unwrap() + 1)
        } else {
            Seq::<u8>::empty()
        };
        match spec_parse_header_line(line) {
            None => None,
            Some(kv) => match spec_parse_headers(rest) {
                None => None,
                Some(tail) => Some(seq![kv] + tail),
            },
        }
    }
}

/// Key of the header that carries the envelope signature:
/// "X-rfnet-signature".
pub open spec fn spec_signature_header_key() -> Seq<u8> {
    seq![
        88u8, 45u8, 114u8, 102u8, 110u8, 101u8, 116u8, 45u8, 115u8, 105u8, 103u8, 110u8, 97u8,
        116u8, 117u8, 114u8, 101u8,
    ]
}

/// Key of the header that carries the sequence number:
/// "X-rfnet-sequence_id".
pub open spec fn spec_sequence_header_key() -> Seq<u8> {
    seq![
        88u8, 45u8, 114u8, 102u8, 110u8, 101u8, 116u8, 45u8, 115u8, 101u8, 113u8, 117u8, 101u8,
        110u8, 99u8, 101u8, 95u8, 105u8, 100u8,
    ]
}

/// The two headers the gateway adds in front of the envelope's own.
pub open spec fn spec_rfnet_headers(signature: Seq<u8>, sequence_id: u16) -> Seq<
    (Seq<u8>, Seq<u8>),
> {
    seq![
        (spec_signature_header_key(), base64_of(signature)),
        (spec_sequence_header_key(), spec_u16_decimal(sequence_id)),
    ]
}

/// Whether a built request holds exactly what a REST envelope denotes.
pub open spec fn spec_request_matches(env: RequestEnvelope, r: HttpRequest) -> bool {
    env.msg.req_type matches RequestType::REST { method, url, headers, body } && {
        &&& r.method == method
        &&& r.url@ == url@
        &&& r.body@ == body@
        &&& (spec_parse_headers(headers@) matches Some(hs) && r.headers.deep_view()
            == spec_rfnet_headers(env.signature@, env.msg.sequence_id) + hs)
    }
}

/// Finds the first occurrence of a byte at or after `from`.
fn find_byte(data: &[u8], b: u8, from: usize) -> (r: Option<usize>)
    requires
        from <= data@.len(),
    ensures
        match r {
            Some(i) => spec_find_byte(data@, b, from as int) == Some(i as int) && from <= i
                < data@.len() && data@[i as int] == b,
            None => spec_find_byte(data@, b, from as int) is None,
        },
{
    let mut i: usize = from;
    while i < data.len() && data[i] != b
        invariant
            from <= i <= data@.len(),
            spec_find_byte(data@, b, from as int) == spec_find_byte(data@, b, i as int),
        decreases data@.len() - i,
    {
        i = i + 1;
    }
    if i == data.len() {
        None
    } else {
        Some(i)
    }
}

/// A found byte lies at or after the start of the search.
proof fn lemma_find_byte_ge(s: Seq<u8>, b: u8, i: int)
    requires
        0 <= i,
    ensures
        match spec_find_byte(s, b, i) {
            Some(e) => i <= e < s.len() && s[e] == b,
            None => true,
        },
    decreases s.len() - i,
{
    if i < s.len() && s[i] != b {
        lemma_find_byte_ge(s, b, i + 1);
    }
}

/// Searching a suffix finds the same byte as searching the whole from there.
proof fn lemma_find_byte_shift(s: Seq<u8>, b: u8, from: int, i: int)
    requires
        0 <= from <= i <= s.len(),
    ensures
        match spec_find_byte(s, b, i) {
            Some(e) => spec_find_byte(s.skip(from), b, i - from) == Some(e - from),
            None => spec_find_byte(s.skip(from), b, i - from) is None,
        },
    decreases s.len() - i,
{
    if i < s.len() {
        assert(s.skip(from)[i - from] == s[i]);
        if s[i] != b {
            lemma_find_byte_shift(s, b, from, i + 1);
        }
    }
}

/// Searching a prefix finds a byte exactly when the whole finds it before
/// the cut.
proof fn lemma_find_byte_prefix(s: Seq<u8>, b: u8, to: int, i: int)
    requires
        0 <= i <= to <= s.len(),
    ensures
        match spec_find_byte(s.take(to), b, i) {
            Some(e) => spec_find_byte(s, b, i) == Some(e) && e < to,
            None => (match spec_find_byte(s, b, i) {
                Some(e2) => e2 >= to,
                None => true,
            }),
        },
    decreases to - i,
{
    lemma_find_byte_ge(s.take(to), b, i);
    if i < to {
        assert(s.take(to)[i] == s[i]);
        if s[i] != b {
            lemma_find_byte_prefix(s, b, to, i + 1);
        }
    } else {
        lemma_find_byte_ge(s, b, i);
    }
}

/// Copies a range with whitespace trimmed at both ends.
fn trimmed_range(data: &[u8], from: usize, to: usize) -> (r: Vec<u8>)
    requires
        from <= to <= data@.len(),
    ensures
        r@ == spec_trim(data@.subrange(from as int, to as int)),
{
    let ghost whole: Seq<u8> = data@.subrange(from as int, to as int);
    let mut a: usize = from;
    while a < to && (data[a] == 9 || data[a] == 10 || data[a] == 13 || data[a] == 32)
        invariant
            from <= a <= to <= data@.len(),
            spec_trim_front(whole) == spec_trim_front(data@.subrange(a as int, to as int)),
            whole == data@.subrange(from as int, to as int),
        decreases to - a,
    {
        proof {
            assert(data@.subrange(a as int, to as int).skip(1) =~= data@.subrange(
                a + 1,
                to as int,
            ));
        }
        a = a + 1;
    }
    let ghost fronted: Seq<u8> = data@.subrange(a as int, to as int);
    proof {
        assert(spec_trim_front(whole) == fronted);
    }
    let mut z: usize = to;
    while z > a && (data[z - 1] == 9 || data[z - 1] == 10 || data[z - 1] == 13 || data[z - 1]
        == 32)
        invariant
            a <= z <= to <= data@.len(),
            spec_trim_back(fronted) == spec_trim_back(data@.subrange(a as int, z as int)),
            fronted == data@.subrange(a as int, to as int),
        decreases z,
    {
        proof {
            assert(data@.subrange(a as int, z as int).drop_last() =~= data@.subrange(
                a as int,
                z - 1,
            ));
        }
        z = z - 1;
    }
    let r = copy_range(data, a, z);
    proof {
        assert(spec_trim_back(data@.subrange(a as int, z as int)) == data@.subrange(
            a as int,
            z as int,
        ));
    }
    r
}

/// Parses the header text from `from` on, appending trimmed pairs to `out`;
/// a line without a colon fails the whole parse.
#[verifier::rlimit(50)]
fn parse_headers_from(data: &[u8], from: usize, out: &mut Vec<(Vec<u8>, Vec<u8>)>) -> (r: Result<
    (),
    (),
>)
    requires
        from <= data@.len(),
    ensures
        match spec_parse_headers(data@.skip(from as int)) {
            Some(hs) => r is Ok && final(out).deep_view() == old(out).deep_view() + hs,
            None => r is Err,
        },
    decreases data@.len() - from,
{
    let ghost rest: Seq<u8> = data@.skip(from as int);
    if from == data.len() {
        proof {
            assert(rest =~= Seq::<u8>::empty());
            assert(final(out).deep_view() =~~= old(out).deep_view() + Seq::<
                (Seq<u8>, Seq<u8>),
            >::empty());
        }
        return Ok(());
    }

    let (end, next) = match find_byte(data, 10, from) {
        Some(e) => (e, e + 1),
        None => (data.len(), data.len()),
    };
    let ghost line: Seq<u8> = data@.subrange(from as int, end as int);
    proof {
        lemma_find_byte_shift(data@, 10u8, from as int, from as int);
        match spec_find_byte(data@, 10u8, from as int) {
            Some(e) => {
                assert(rest.take(e - from) =~= line);
                assert(rest.skip(e - from + 1) =~= data@.skip(e + 1));
            },
            None => {
                assert(rest =~= line);
                assert(data@.skip(next as int) =~= Seq::<u8>::empty());
            },
        }
    }

    // Drop a trailing carriage return, then split at the first colon.
    let line_end = if end > from && data[end - 1] == 13 {
        end - 1
    } else {
        end
    };
    let ghost l: Seq<u8> = data@.subrange(from as int, line_end as int);
    proof {
        if end > from && data@[end - 1] == 13 {
            assert(line.drop_last() =~= l);
            assert(line.len() > 0 && line.last() == 13);
        } else {
            assert(line =~= l);
            assert(!(line.len() > 0 && line.last() == 13));
        }
    }

    let colon_opt = find_byte(data, 58, from);
    let colon = match colon_opt {
        Some(c) => if c < line_end {
            c
        } else {
            proof {
                lemma_find_byte_prefix(data@, 58u8, line_end as int, from as int);
                lemma_find_byte_shift(data@.take(line_end as int), 58u8, from as int, from as int);
                assert(l =~= data@.take(line_end as int).skip(from as int));
                assert(spec_find_byte(l, 58u8, 0) is None);
            }
            return Err(());
        },
        None => {
            proof {
                lemma_find_byte_prefix(data@, 58u8, line_end as int, from as int);
                lemma_find_byte_shift(data@.take(line_end as int), 58u8, from as int, from as int);
                assert(l =~= data@.take(line_end as int).skip(from as int));
                assert(spec_find_byte(l, 58u8, 0) is None);
            }
            return Err(());
        },
    };
    proof {
        lemma_find_byte_prefix(data@, 58u8, line_end as int, from as int);
        lemma_find_byte_shift(data@.take(line_end as int), 58u8, from as int, from as int);
        assert(l =~= data@.take(line_end as int).skip(from as int));
        assert(spec_find_byte(l, 58u8, 0) == Some(colon - from));
        assert(l.take(colon - from) =~= data@.subrange(from as int, colon as int));
        assert(l.skip(colon - from + 1) =~= data@.subrange(colon + 1, line_end as int));
    }

    let key = trimmed_range(data, from, colon);
    let value = trimmed_range(data, colon + 1, line_end);
    let ghost kv: (Seq<u8>, Seq<u8>) = (key@, value@);
    proof {
        assert(spec_parse_header_line(line) == Some(kv));
    }
    out.push((key, value));
    proof {
        assert(out.deep_view() =~~= old(out).deep_view() + seq![kv]);
    }
    let res = parse_headers_from(data, next, out);
    proof {
        if spec_parse_headers(data@.skip(next as int)) is Some {
            let tail = spec_parse_headers(data@.skip(next as int)).unwrap();
            assert(spec_parse_headers(rest) == Some(seq![kv] + tail));
            assert((old(out).deep_view() + seq![kv]) + tail =~~= old(out).deep_view() + (seq![kv]
                + tail));
        }
    }
    res
}

/// Builds the HTTP request a REST envelope denotes: its method, url and body
/// as they stand, and its header lines parsed, behind the signature and
/// sequence-number headers. A non-REST envelope, or a malformed header line,
/// yields an error description instead.
pub fn build_request(env: &RequestEnvelope) -> (r: Result<HttpRequest, Vec<u8>>)
    ensures
        env.msg.req_type matches RequestType::REST { method, url, headers, body } ==> (match
            spec_parse_headers(headers@) {
            Some(hs) => r matches Ok(req) && spec_request_matches(*env, req),
            None => r is Err,
        }),
        (env.msg.req_type matches RequestType::Reserved) || (env.msg.req_type
            matches RequestType::Raw(_)) ==> r is Err,
{
    match &env.msg.req_type {
        RequestType::REST { method, url, headers, body } => {
            let mut pairs: Vec<(Vec<u8>, Vec<u8>)> = Vec::new();
            let sig_value = base64_encode(&env.signature);
            pairs.push((signature_header_key(), sig_value));
            let mut seq_value: Vec<u8> = Vec::new();
            push_u16_decimal(env.msg.sequence_id, &mut seq_value);
            pairs.push((sequence_header_key(), seq_value));
            proof {
                assert(pairs.deep_view() =~~= spec_rfnet_headers(
                    env.signature@,
                    env.msg.sequence_id,
                ));
                assert(headers@.skip(0) =~= headers@);
            }
            match parse_headers_from(headers.as_slice(), 0, &mut pairs) {
                Ok(()) => {
                    proof {
                        assert(url@.subrange(0, url@.len() as int) =~= url@);
                        assert(body@.subrange(0, body@.len() as int) =~= body@);
                    }
                    Ok(
                        HttpRequest {
                            method: *method,
                            url: copy_range(url.as_slice(), 0, url.len()),
                            headers: pairs,
                            body: copy_range(body.as_slice(), 0, body.len()),
                        },
                    )
                },
                Err(()) => Err(malformed_header_text()),
            }
        },
        _ => Err(unsupported_request_text()),
    }
}

/// "malformed header"
fn malformed_header_text() -> (r: Vec<u8>)
    ensures
        r@.len() > 0,
{
    let mut v: Vec<u8> = Vec::new();
    v.push(109);
    v.push(97);
    v.push(108);
    v.push(102);
    v.push(111);
    v.push(114);
    v.push(109);
    v.push(101);
    v.push(100);
    v.push(32);
    v.push(104);
    v.push(101);
    v.push(97);
    v.push(100);
    v.push(101);
    v.push(114);
    v
}

/// "unsupported request"
fn unsupported_request_text() -> (r: Vec<u8>)
    ensures
        r@.len() > 0,
{
    let mut v: Vec<u8> = Vec::new();
    v.push(117);
    v.push(110);
    v.push(115);
    v.push(117);
    v.push(112);
    v.push(112);
    v.push(111);
    v.push(114);
    v.push(116);
    v.push(101);
    v.push(100);
    v.push(32);
    v.push(114);
    v.push(101);
    v.push(113);
    v.push(117);
    v.push(101);
    v.push(115);
    v.push(116);
    v
}

/// "X-rfnet-signature"
fn signature_header_key() -> (r: Vec<u8>)
    ensures
        r@ == spec_signature_header_key(),
{
    let mut v: Vec<u8> = Vec::new();
    v.push(88);
    v.push(45);
    v.push(114);
    v.push(102);
    v.push(110);
    v.push(101);
    v.push(116);
    v.push(45);
    v.push(115);
    v.push(105);
    v.push(103);
    v.push(110);
    v.push(97);
    v.push(116);
    v.push(117);
    v.push(114);
    v.push(101);
    proof {
        assert(v@ =~= spec_signature_header_key());
    }
    v
}

/// "X-rfnet-sequence_id"
fn sequence_header_key() -> (r: Vec<u8>)
    ensures
        r@ == spec_sequence_header_key(),
{
    let mut v: Vec<u8> = Vec::new();
    v.push(88);
    v.push(45);
    v.push(114);
    v.push(102);
    v.push(110);
    v.push(101);
    v.push(116);
    v.push(45);
    v.push(115);
    v.push(101);
    v.push(113);
    v.push(117);
    v.push(101);
    v.push(110);
    v.push(99);
    v.push(101);
    v.push(95);
    v.push(105);
    v.push(100);
    proof {
        assert(v@ =~= spec_sequence_header_key());
    }
    v
}

/// "invalid utf-8 in response body"
fn invalid_utf8_text() -> (r: Vec<u8>)
    ensures
        r@.len() > 0,
        valid_utf8(r@),
{
    let mut v: Vec<u8> = Vec::new();
    v.push(105);
    v.push(110);
    v.push(118);
    v.push(97);
    v.push(108);
    v.push(105);
    v.push(100);
    v.push(32);
    v.push(117);
    v.push(116);
    v.push(102);
    v.push(45);
    v.push(56);
    proof {
        lemma_ascii_valid_utf8(v@);
    }
    v
}

/// A sequence of plain ASCII bytes is valid UTF-8.
proof fn lemma_ascii_valid_utf8(s: Seq<u8>)
    requires
        forall|i: int| 0 <= i < s.len() ==> s[i] < 128,
    ensures
        valid_utf8(s),
    decreases s.len(),
{
    if s.len() > 0 {
        let b0 = s[0];
        assert(b0 < 128);
        assert(b0 & 0x80 == 0x00 && (b0 & 0x7f) < 0xd0) by (bit_vector)
            requires
                b0 < 128,
        ;
        assert(vstd::utf8::is_leading_byte_width_1(b0));
        assert(vstd::utf8::length_of_first_codepoint(s) == 1);
        assert(vstd::utf8::valid_first_scalar(s));
        assert(vstd::utf8::pop_first_scalar(s) =~= s.skip(1));
        lemma_ascii_valid_utf8(s.skip(1));
    }
}

/// The bytes encode a REST response message: the REST tag, two code bytes,
/// then a UTF-8 body.
pub open spec fn spec_rest_response_bytes(r: Seq<u8>) -> bool {
    r.len() >= 3 && r[0] == 1 && valid_utf8(r.skip(3))
}

/// "bad request envelope"
pub(crate) fn bad_envelope_text() -> (r: Vec<u8>)
    ensures
        r@.len() > 0,
{
    let mut v: Vec<u8> = Vec::new();
    v.push(98);
    v.push(97);
    v.push(100);
    v.push(32);
    v.push(114);
    v.push(101);
    v.push(113);
    v.push(117);
    v.push(101);
    v.push(115);
    v.push(116);
    v.push(32);
    v.push(101);
    v.push(110);
    v.push(118);
    v.push(101);
    v.push(108);
    v.push(111);
    v.push(112);
    v.push(101);
    v
}

/// The response message a gateway forms from an HTTP outcome: the status
/// code with the body as it stands when the body is UTF-8, or with a fixed
/// description when it is not.
pub fn response_from_http(code: u16, body: Vec<u8>) -> (r: crate::message::ResponseMessage)
    ensures
        r.resp_type matches crate::message::ResponseType::REST { code: c, body: b } && c == code
            && (valid_utf8(body@) ==> b@ == body@) && valid_utf8(b@),
{
    if utf8_check(body.as_slice()) {
        crate::message::ResponseMessage {
            resp_type: crate::message::ResponseType::REST { code, body },
        }
    } else {
        crate::message::ResponseMessage {
            resp_type: crate::message::ResponseType::REST { code, body: invalid_utf8_text() },
        }
    }
}

} // verus!
