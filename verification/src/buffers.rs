//! Plain byte buffers that the protocol reads payloads from and writes frames
//! into. The surrounding application moves their contents to and from the
//! actual transport.

use vstd::prelude::*;

verus! {

/// A byte source: a buffer and a read position. Payload senders consume it
/// front to back, a chunk per packet.
pub struct ByteReader {
    /// The whole payload.
    pub data: Vec<u8>,
    /// Count of bytes already consumed.
    pub position: usize,
}

impl ByteReader {
    /// The bytes not yet consumed.
    pub open spec fn remaining_seq(&self) -> Seq<u8> {
        self.data@.skip(self.position as int)
    }

    /// The position never passes the end.
    pub open spec fn wf(&self) -> bool {
        self.position <= self.data@.len()
    }

    pub fn new() -> (r: ByteReader)
        ensures
            r.wf(),
            r.data@ == Seq::<u8>::empty(),
            r.position == 0,
    {
        ByteReader { data: Vec::new(), position: 0 }
    }

    pub fn from_data(data: Vec<u8>) -> (r: ByteReader)
        ensures
            r.wf(),
            r.data@ == data@,
            r.position == 0,
    {
        ByteReader { data, position: 0 }
    }

    /// The whole underlying buffer, the consumed part included.
    pub fn get_data(&self) -> (r: &Vec<u8>)
        ensures
            r@ == self.data@,
    {
        &self.data
    }

    /// Count of bytes not yet consumed.
    pub fn remaining(&self) -> (r: usize)
        requires
            self.wf(),
        ensures
            r == self.remaining_seq().len(),
    {
        self.data.len() - self.position
    }

    /// Consumes up to `max` bytes, appending them to `out`.
    pub fn read_into(&mut self, max: usize, out: &mut Vec<u8>) -> (read: usize)
        requires
            old(self).wf(),
        ensures
            final(self).wf(),
            final(self).data@ == old(self).data@,
            read == if old(self).remaining_seq().len() <= max {
                old(self).remaining_seq().len() as int
            } else {
                max as int
            },
            final(self).position == old(self).position + read,
            final(out)@ == old(out)@ + old(self).remaining_seq().take(read as int),
    {
        let len: usize = self.data.len();
        let avail: usize = len - self.position;
        let count: usize = if avail <= max {
            avail
        } else {
            max
        };
        let ghost orig_out: Seq<u8> = out@;
        let mut i: usize = 0;
        while i < count
            invariant
                i <= count,
                count <= avail,
                len == self.data@.len(),
                avail == self.data@.len() - self.position,
                self.position + count <= self.data@.len(),
                out@ == orig_out + self.data@.subrange(
                    self.position as int,
                    self.position + i as int,
                ),
            decreases count - i,
        {
            out.push(self.data[self.position + i]);
            proof {
                assert(self.data@.subrange(self.position as int, self.position + i + 1)
                    =~= self.data@.subrange(self.position as int, self.position + i as int).push(
                    self.data@[self.position + i],
                ));
            }
            i = i + 1;
        }
        proof {
            assert(self.data@.subrange(self.position as int, self.position + count)
                =~= old(self).remaining_seq().take(count as int));
        }
        self.position = self.position + count;
        count
    }
}

/// A saturating sum, at the spec level.
pub open spec fn sat_add_spec(a: int, b: int) -> int {
    if a + b <= usize::MAX {
        a + b
    } else {
        usize::MAX as int
    }
}

/// One saturating increment, at the spec level.
pub open spec fn sat_one(a: usize) -> int {
    sat_add_spec(a as int, 1)
}

/// Adds without overflowing: the sum, or the top of the range.
pub fn sat_add(a: usize, b: usize) -> (r: usize)
    ensures
        r == if a + b <= usize::MAX {
            a + b
        } else {
            usize::MAX as int
        },
{
    if a <= usize::MAX - b {
        a + b
    } else {
        usize::MAX
    }
}

/// Whether two byte strings hold the same bytes.
pub fn bytes_eq(a: &[u8], b: &[u8]) -> (r: bool)
    ensures
        r <==> a@ == b@,
{
    if a.len() != b.len() {
        proof {
            assert(a@ != b@);
        }
        return false;
    }
    let mut i: usize = 0;
    while i < a.len()
        invariant
            0 <= i <= a@.len(),
            a@.len() == b@.len(),
            forall|j: int| 0 <= j < i ==> a@[j] == b@[j],
        decreases a@.len() - i,
    {
        if a[i] != b[i] {
            proof {
                assert(a@ != b@);
            }
            return false;
        }
        i = i + 1;
    }
    proof {
        assert(a@ =~= b@);
    }
    true
}

/// Copies `src[from..to]` into a fresh vector.
pub fn copy_range(src: &[u8], from: usize, to: usize) -> (r: Vec<u8>)
    requires
        from <= to <= src@.len(),
    ensures
        r@ == src@.subrange(from as int, to as int),
{
    let mut r: Vec<u8> = Vec::new();
    push_range(&mut r, src, from, to);
    proof {
        assert(r@ =~= src@.subrange(from as int, to as int));
    }
    r
}

/// Appends `src[from..to]` to `dst`.
pub fn push_range(dst: &mut Vec<u8>, src: &[u8], from: usize, to: usize)
    requires
        from <= to <= src@.len(),
    ensures
        final(dst)@ == old(dst)@ + src@.subrange(from as int, to as int),
{
    let ghost orig: Seq<u8> = dst@;
    let mut i: usize = from;
    while i < to
        invariant
            from <= i <= to <= src@.len(),
            dst@ == orig + src@.subrange(from as int, i as int),
        decreases to - i,
    {
        dst.push(src[i]);
        proof {
            assert(src@.subrange(from as int, i + 1) =~= src@.subrange(from as int, i as int).push(
                src@[i as int],
            ));
        }
        i = i + 1;
    }
}

/// Where the protocol publishes outbound frames: each entry is one raw packet
/// frame, ready to be KISS framed and written to the transport.
pub struct FrameSink {
    /// The frames, oldest first.
    pub frames: Vec<Vec<u8>>,
}

impl View for FrameSink {
    type V = Seq<Seq<u8>>;

    open spec fn view(&self) -> Seq<Seq<u8>> {
        self.frames.deep_view()
    }
}

impl FrameSink {
    pub fn new() -> (r: FrameSink)
        ensures
            r@ == Seq::<Seq<u8>>::empty(),
    {
        let frames: Vec<Vec<u8>> = Vec::new();
        FrameSink { frames }
    }

    /// Publishes one frame.
    pub fn write_frame(&mut self, frame: &Vec<u8>) -> (r: Result<(), ()>)
        ensures
            r is Ok,
            final(self)@ == old(self)@.push(frame@),
    {
        let copy = copy_range(frame.as_slice(), 0, frame.len());
        proof {
            assert(copy@ =~= frame@);
        }
        self.frames.push(copy);
        proof {
            assert(self@ =~~= old(self)@.push(frame@));
        }
        Ok(())
    }

    /// Count of frames held.
    pub fn len(&self) -> (r: usize)
        ensures
            r == self@.len(),
    {
        self.frames.len()
    }

    /// Hands all held frames out, oldest first, leaving the sink empty.
    pub fn take_frames(&mut self) -> (r: Vec<Vec<u8>>)
        ensures
            r.deep_view() == old(self)@,
            final(self)@ == Seq::<Seq<u8>>::empty(),
    {
        let mut taken: Vec<Vec<u8>> = Vec::new();
        core::mem::swap(&mut taken, &mut self.frames);
        proof {
            assert(self@ =~~= Seq::<Seq<u8>>::empty());
        }
        taken
    }
}

} // verus!
