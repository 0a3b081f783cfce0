//! One request/response exchange as the application sees it: the encoded
//! request bytes waiting to be sent, and a buffer that collects the decoded
//! response payload.

use vstd::prelude::*;

use crate::buffers::ByteReader;
use crate::message::{
    encode_request_message, spec_encode_request, spec_method_token, spec_response_decodes_to,
    spec_response_error, decode_response_message, MessageError, RESTMethod, RequestMessage,
    RequestType, ResponseMessage,
};
use vstd::string::StringSliceAdditionalSpecFns;
use vstd::string::StrSliceExecFns;

verus! {

/// The outgoing request bytes, consumed front to back as Data packets are
/// filled.
pub type RequestBuilder = ByteReader;

/// Collects the reassembled response payload.
pub struct ResponseReceiver {
    buffer: Vec<u8>,
}

impl View for ResponseReceiver {
    type V = Seq<u8>;

    closed spec fn view(&self) -> Seq<u8> {
        self.buffer@
    }
}

impl ResponseReceiver {
    pub fn new() -> (r: ResponseReceiver)
        ensures
            r@ == Seq::<u8>::empty(),
    {
        ResponseReceiver { buffer: Vec::new() }
    }

    /// The buffer that reassembled payload bytes are appended to.
    pub fn sink_mut(&mut self) -> (r: &mut Vec<u8>)
        ensures
            r@ == old(self)@,
            final(self)@ == final(r)@,
    {
        &mut self.buffer
    }

    /// The collected payload bytes.
    pub fn get_data(&self) -> (r: &Vec<u8>)
        ensures
            r@ == self@,
    {
        &self.buffer
    }

    /// Decodes the collected bytes as a response message.
    pub fn decode(&self) -> (r: Result<ResponseMessage, MessageError>)
        ensures
            r matches Ok(msg) ==> spec_response_decodes_to(self@, msg),
            r is Ok <==> spec_response_error(self@) is None,
            r matches Err(e) ==> Some(e) == spec_response_error(self@),
    {
        decode_response_message(self.buffer.as_slice())
    }
}

/// The signed bytes of a REST request, after the signature.
pub open spec fn spec_rest_request_payload(
    addr: Seq<u8>,
    sequence_id: u16,
    method: RESTMethod,
    url: Seq<u8>,
    headers: Seq<u8>,
    body: Seq<u8>,
) -> Seq<u8> {
    addr + seq![0u8, (sequence_id / 256) as u8, (sequence_id % 256) as u8, 1u8]
        + spec_method_token(method) + url + seq![0u8] + headers + seq![0u8] + body
}

/// A request waiting to go out and the response being collected for it.
pub struct RequestResponse {
    pub request: RequestBuilder,
    pub response: ResponseReceiver,
}

impl RequestResponse {
    pub fn new() -> (r: RequestResponse)
        ensures
            r.request.wf(),
            r.request.data@ == Seq::<u8>::empty(),
            r.request.position == 0,
            r.response@ == Seq::<u8>::empty(),
    {
        RequestResponse { request: ByteReader::new(), response: ResponseReceiver::new() }
    }

    /// Starts a fresh REST exchange: encodes the request under the given
    /// 64-byte detached signature and clears the response buffer. The version
    /// pair is carried for the caller's own bookkeeping.
    pub fn new_request(
        &mut self,
        _ver: (u8, u8),
        callsign: &str,
        sequence_id: u16,
        method: RESTMethod,
        url: &str,
        headers: &str,
        body: &str,
        signature: &Vec<u8>,
    ) -> (r: Result<(), MessageError>)
        ensures
            r is Ok <==> signature@.len() == 64,
            r is Ok ==> {
                &&& final(self).request.data@ == signature@ + spec_rest_request_payload(
                    callsign.spec_bytes(),
                    sequence_id,
                    method,
                    url.spec_bytes(),
                    headers.spec_bytes(),
                    body.spec_bytes(),
                )
                &&& final(self).request.position == 0
                &&& final(self).response@ == Seq::<u8>::empty()
            },
    {
        let msg = RequestMessage {
            sequence_id,
            addr: callsign.as_bytes_vec(),
            req_type: RequestType::REST {
                method,
                url: url.as_bytes_vec(),
                headers: headers.as_bytes_vec(),
                body: body.as_bytes_vec(),
            },
        };
        let mut data: Vec<u8> = Vec::new();
        let res = encode_request_message(&msg, signature, &mut data);
        match res {
            Ok(()) => {
                proof {
                    assert(spec_encode_request(msg, signature@) =~= signature@
                        + spec_rest_request_payload(
                        callsign.spec_bytes(),
                        sequence_id,
                        method,
                        url.spec_bytes(),
                        headers.spec_bytes(),
                        body.spec_bytes(),
                    ));
                }
                self.request = ByteReader::from_data(data);
                self.response = ResponseReceiver::new();
                Ok(())
            },
            Err(e) => Err(e),
        }
    }
}

} // verus!
