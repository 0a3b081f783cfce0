//! Framing over a transport handle: outbound packet frames are KISS encoded,
//! inbound bytes are buffered until a whole KISS frame can be decoded. The
//! transport itself is opaque here; the loopback transport used by tests and
//! by in-process wiring is a plain byte buffer.

use vstd::prelude::*;

use crate::buffers::copy_range;
use crate::kiss;

verus! {

/// An in-memory transport: bytes written wait in a buffer until read.
pub struct LoopbackIo {
    buffer: Vec<u8>,
}

impl View for LoopbackIo {
    type V = Seq<u8>;

    closed spec fn view(&self) -> Seq<u8> {
        self.buffer@
    }
}

impl LoopbackIo {
    pub fn new() -> (r: LoopbackIo)
        ensures
            r@ == Seq::<u8>::empty(),
    {
        LoopbackIo { buffer: Vec::new() }
    }

    /// The bytes in transit, open to inspection and tampering: fault
    /// injection rewrites them between endpoints.
    pub fn buffer_mut(&mut self) -> (r: &mut Vec<u8>)
        ensures
            r@ == old(self)@,
            final(self)@ == final(r)@,
    {
        &mut self.buffer
    }

    /// The bytes in transit.
    pub fn buffer(&self) -> (r: &Vec<u8>)
        ensures
            r@ == self@,
    {
        &self.buffer
    }
}

/// A KISS framer around a transport handle `T`. Inbound bytes collect in
/// `pending_recv` until they hold a complete frame. What the transport is,
/// and how bytes move through it, is the application's business: it feeds
/// `push_recv_bytes` and sends what `encode_frame` yields.
pub struct KISSFramed<T> {
    kiss_tnc: T,
    port: u8,
    pending_recv: Vec<u8>,
}

impl<T> KISSFramed<T> {
    /// Bytes received and not yet consumed as frames.
    pub closed spec fn pending(&self) -> Seq<u8> {
        self.pending_recv@
    }

    /// The transport handle.
    pub closed spec fn tnc(&self) -> T {
        self.kiss_tnc
    }

    /// The TNC port frames are sent on.
    pub closed spec fn spec_port(&self) -> u8 {
        self.port
    }

    pub fn new(kiss_tnc: T, port: u8) -> (r: KISSFramed<T>)
        ensures
            r.tnc() == kiss_tnc,
            r.spec_port() == port,
            r.pending() == Seq::<u8>::empty(),
    {
        KISSFramed { kiss_tnc, port, pending_recv: Vec::new() }
    }

    pub fn get_tnc(&self) -> (r: &T)
        ensures
            *r == self.tnc(),
    {
        &self.kiss_tnc
    }

    pub fn get_tnc_mut(&mut self) -> (r: &mut T)
        ensures
            *r == old(self).tnc(),
            final(self).tnc() == *final(r),
            final(self).pending() == old(self).pending(),
            final(self).spec_port() == old(self).spec_port(),
    {
        &mut self.kiss_tnc
    }

    /// KISS encodes one outbound frame for this framer's port.
    pub fn encode_frame(&self, frame: &[u8]) -> (r: Vec<u8>)
        ensures
            r@ == kiss::spec_frame(frame@, self.spec_port()),
    {
        let mut out: Vec<u8> = Vec::new();
        kiss::encode(frame, &mut out, self.port);
        out
    }

    /// Buffers inbound transport bytes.
    pub fn push_recv_bytes(&mut self, bytes: &[u8])
        ensures
            final(self).pending() == old(self).pending() + bytes@,
            final(self).tnc() == old(self).tnc(),
            final(self).spec_port() == old(self).spec_port(),
    {
        self.pending_recv.extend_from_slice(bytes);
    }

    /// Decodes the first complete frame out of the buffered bytes, consuming
    /// it; None when no complete frame is buffered yet.
    pub fn next_frame(&mut self) -> (r: Option<Vec<u8>>)
        ensures
            final(self).tnc() == old(self).tnc(),
            final(self).spec_port() == old(self).spec_port(),
            match kiss::spec_decode(old(self).pending()) {
                None => r is None && final(self).pending() == old(self).pending(),
                Some(t) => r matches Some(f) && f@ == t.2 && final(self).pending() == old(
                    self,
                ).pending().skip(t.1),
            },
    {
        let mut decoded: Vec<u8> = Vec::new();
        match kiss::decode(self.pending_recv.as_slice(), &mut decoded) {
            Some(df) => {
                let rest = copy_range(
                    self.pending_recv.as_slice(),
                    df.bytes_read,
                    self.pending_recv.len(),
                );
                proof {
                    assert(rest@ =~= old(self).pending().skip(
                        kiss::spec_decode(old(self).pending()).unwrap().1,
                    ));
                }
                self.pending_recv = rest;
                Some(decoded)
            },
            None => None,
        }
    }
}

impl KISSFramed<LoopbackIo> {
    /// Writes one frame: its KISS encoding joins the bytes in transit.
    pub fn write_frame(&mut self, frame: &[u8]) -> (r: Result<(), ()>)
        ensures
            r is Ok,
            final(self).tnc()@ == old(self).tnc()@ + kiss::spec_frame(
                frame@,
                old(self).spec_port(),
            ),
            final(self).pending() == old(self).pending(),
            final(self).spec_port() == old(self).spec_port(),
    {
        kiss::encode(frame, &mut self.kiss_tnc.buffer, self.port);
        Ok(())
    }

    /// Moves the bytes in transit into the receive buffer, then decodes the
    /// first complete frame, if any.
    pub fn read_frame(&mut self) -> (r: Option<Vec<u8>>)
        ensures
            final(self).tnc()@ == Seq::<u8>::empty(),
            final(self).spec_port() == old(self).spec_port(),
            ({
                let stream = old(self).pending() + old(self).tnc()@;
                match kiss::spec_decode(stream) {
                    None => r is None && final(self).pending() == stream,
                    Some(t) => r matches Some(f) && f@ == t.2 && final(self).pending()
                        == stream.skip(t.1),
                }
            }),
    {
        let mut transit: Vec<u8> = Vec::new();
        core::mem::swap(&mut transit, &mut self.kiss_tnc.buffer);
        self.pending_recv.extend_from_slice(transit.as_slice());
        proof {
            assert(self.pending() =~= old(self).pending() + old(self).tnc()@);
            assert(self.tnc()@ =~= Seq::<u8>::empty());
        }
        self.next_frame()
    }
}

} // verus!
