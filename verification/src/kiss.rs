//! KISS framing: frames are delimited by FEND bytes, and FEND/FESC bytes
//! inside a payload are escaped so that a delimiter is never ambiguous.

use vstd::prelude::*;

verus! {

/// Frame delimiter code, marks the start and the end of a frame.
pub const FEND: u8 = 0xC0;

/// Frame escape code, introduces an escaped FEND or FESC payload byte.
pub const FESC: u8 = 0xDB;

/// Escaped form of FEND.
pub const TFEND: u8 = 0xDC;

/// Escaped form of FESC.
pub const TFESC: u8 = 0xDD;

/// Command code of a data frame.
pub const CMD_DATA: u8 = 0x00;

/// Command code that exits KISS mode; it applies to every port.
pub const CMD_RETURN: u8 = 0xFF;

/// Escape sequence of one payload byte.
pub open spec fn spec_escape_byte(b: u8) -> Seq<u8> {
    if b == FEND {
        seq![FESC, TFEND]
    } else if b == FESC {
        seq![FESC, TFESC]
    } else {
        seq![b]
    }
}

/// A payload with every byte replaced by its escape sequence.
pub open spec fn spec_escaped(data: Seq<u8>) -> Seq<u8>
    decreases data.len(),
{
    if data.len() == 0 {
        Seq::empty()
    } else {
        spec_escape_byte(data[0]) + spec_escaped(data.skip(1))
    }
}

/// First byte after the opening FEND: command in the low nibble, port in the
/// high nibble.
pub open spec fn spec_port_byte(port: u8) -> u8 {
    (CMD_DATA | ((port & 0x0f) << 4)) as u8
}

/// A complete data frame for the given port.
pub open spec fn spec_frame(data: Seq<u8>, port: u8) -> Seq<u8> {
    seq![FEND, spec_port_byte(port)] + spec_escaped(data) + seq![FEND]
}

/// A command frame: CMD_RETURN is portless and carries no argument.
pub open spec fn spec_cmd_frame(cmd: u8, data: u8, port: u8) -> Seq<u8> {
    if cmd == CMD_RETURN {
        seq![FEND, CMD_RETURN, FEND]
    } else {
        seq![FEND, (cmd | ((port & 0x0f) << 4)) as u8, data, FEND]
    }
}

/// Undoes the escaping, one byte at a time; `esc` says whether the previous
/// byte was an unconsumed FESC. A FESC directly followed by anything other
/// than TFEND or TFESC drops that byte.
pub open spec fn spec_unescape_from(s: Seq<u8>, esc: bool) -> Seq<u8>
    decreases s.len(),
{
    if s.len() == 0 {
        Seq::empty()
    } else {
        let b = s[0];
        if b == FESC {
            spec_unescape_from(s.skip(1), true)
        } else if esc {
            (if b == TFEND {
                seq![FEND]
            } else if b == TFESC {
                seq![FESC]
            } else {
                Seq::<u8>::empty()
            }) + spec_unescape_from(s.skip(1), false)
        } else {
            seq![b] + spec_unescape_from(s.skip(1), false)
        }
    }
}

/// Undoes the escaping of a whole payload.
pub open spec fn spec_unescape(s: Seq<u8>) -> Seq<u8> {
    spec_unescape_from(s, false)
}

/// Index of the first FEND at or after `i`.
pub open spec fn spec_find_fend(s: Seq<u8>, i: int) -> Option<int>
    decreases s.len() - i,
{
    if i < 0 || i >= s.len() {
        None
    } else if s[i] == FEND {
        Some(i)
    } else {
        spec_find_fend(s, i + 1)
    }
}

/// Index of the last FEND of the consecutive run that starts at `i`.
pub open spec fn spec_run_end(s: Seq<u8>, i: int) -> int
    decreases s.len() - i,
{
    if 0 <= i && i + 1 < s.len() && s[i + 1] == FEND {
        spec_run_end(s, i + 1)
    } else {
        i
    }
}

/// What decoding a buffer yields: the port, the count of bytes consumed, and
/// the unescaped payload; or nothing, when no complete frame is present.
/// Bytes before the first FEND are skipped, back-to-back FENDs count as empty
/// frames and are skipped too.
pub open spec fn spec_decode(s: Seq<u8>) -> Option<(u8, int, Seq<u8>)> {
    match spec_find_fend(s, 0) {
        None => None,
        Some(f) => {
            let start = spec_run_end(s, f);
            if start + 1 >= s.len() {
                None
            } else {
                match spec_find_fend(s, start + 2) {
                    None => None,
                    Some(e) => Some(
                        ((s[start + 1] >> 4) as u8, e + 1, spec_unescape(s.subrange(start + 2, e))),
                    ),
                }
            }
        },
    }
}

/// Result of a successful decode.
pub struct DecodedFrame {
    /// Port the frame was addressed to.
    pub port: u8,
    /// Count of input bytes consumed, the closing FEND included; the caller
    /// drops that many bytes before the next decode.
    pub bytes_read: usize,
    /// Count of payload bytes appended to the output.
    pub payload_size: usize,
}

/// Appends the escaped form of `data` to `encoded`.
pub fn encode_part(data: &[u8], encoded: &mut Vec<u8>) -> (written: usize)
    ensures
        final(encoded)@ == old(encoded)@ + spec_escaped(data@),
        written == spec_escaped(data@).len(),
{
    let ghost orig: Seq<u8> = encoded@;
    let start_len: usize = encoded.len();
    let mut i: usize = 0;
    while i < data.len()
        invariant
            i <= data@.len(),
            encoded@ == orig + spec_escaped(data@.take(i as int)),
            start_len == orig.len(),
        decreases data@.len() - i,
    {
        let b = data[i];
        if b == FEND {
            encoded.push(FESC);
            encoded.push(TFEND);
        } else if b == FESC {
            encoded.push(FESC);
            encoded.push(TFESC);
        } else {
            encoded.push(b);
        }
        proof {
            lemma_escaped_push(data@.take(i as int), data@[i as int]);
            assert(data@.take(i + 1) =~= data@.take(i as int).push(data@[i as int]));
        }
        i = i + 1;
    }
    proof {
        assert(data@.take(data@.len() as int) =~= data@);
    }
    encoded.len() - start_len
}

/// Appends one whole KISS data frame holding `data` to `encoded`.
pub fn encode(data: &[u8], encoded: &mut Vec<u8>, port: u8) -> (written: usize)
    ensures
        final(encoded)@ == old(encoded)@ + spec_frame(data@, port),
        written == spec_frame(data@, port).len(),
{
    let start_len: usize = encoded.len();
    encoded.push(FEND);
    encoded.push(CMD_DATA | ((port & 0x0f) << 4));
    encode_part(data, encoded);
    encoded.push(FEND);
    proof {
        assert(encoded@ =~= old(encoded)@ + spec_frame(data@, port));
    }
    encoded.len() - start_len
}

/// Appends a command frame to `encoded`.
pub fn encode_cmd(encoded: &mut Vec<u8>, cmd: u8, data: u8, port: u8)
    ensures
        final(encoded)@ == old(encoded)@ + spec_cmd_frame(cmd, data, port),
{
    encoded.push(FEND);
    if cmd == CMD_RETURN {
        encoded.push(CMD_RETURN);
    } else {
        encoded.push(cmd | ((port & 0x0f) << 4));
        encoded.push(data);
    }
    encoded.push(FEND);
    proof {
        assert(encoded@ =~= old(encoded)@ + spec_cmd_frame(cmd, data, port));
    }
}

/// Decodes the first complete frame found in `data`, appending its unescaped
/// payload to `decoded`. Returns None, and leaves `decoded` unchanged, when no
/// complete frame is present.
pub fn decode(data: &[u8], decoded: &mut Vec<u8>) -> (r: Option<DecodedFrame>)
    ensures
        spec_decode(data@) is None ==> r is None && final(decoded)@ == old(decoded)@,
        spec_decode(data@) matches Some(t) ==> {
            &&& r matches Some(df) && df.port == t.0 && df.bytes_read == t.1
                && df.payload_size == t.2.len()
            &&& t.1 <= data@.len()
            &&& final(decoded)@ == old(decoded)@ + t.2
        },
{
    // Find the first FEND.
    let n: usize = data.len();
    let mut f: usize = 0;
    while f < data.len() && data[f] != FEND
        invariant
            f <= data@.len(),
            spec_find_fend(data@, 0) == spec_find_fend(data@, f as int),
            forall|j: int| 0 <= j < f ==> data@[j] != FEND,
        decreases data@.len() - f,
    {
        f = f + 1;
    }
    if f == data.len() {
        return None;
    }

    // Walk to the end of the run of consecutive FENDs: back-to-back FENDs are
    // empty frames and are skipped.
    let mut start: usize = f;
    while start + 1 < data.len() && data[start + 1] == FEND
        invariant
            n == data@.len(),
            f <= start < n,
            data@[start as int] == FEND,
            spec_run_end(data@, f as int) == spec_run_end(data@, start as int),
        decreases data@.len() - start,
    {
        start = start + 1;
    }
    assert(spec_run_end(data@, f as int) == start);
    if start + 1 >= data.len() {
        return None;
    }

    // Find the closing FEND, past the port byte.
    let mut e: usize = start + 2;
    while e < data.len() && data[e] != FEND
        invariant
            start + 2 <= e <= data@.len(),
            spec_find_fend(data@, start + 2) == spec_find_fend(data@, e as int),
        decreases data@.len() - e,
    {
        e = e + 1;
    }
    if e == data.len() {
        return None;
    }

    // Unescape the payload bytes between the port byte and the closing FEND.
    let ghost payload: Seq<u8> = data@.subrange(start + 2, e as int);
    let ghost orig: Seq<u8> = decoded@;
    let start_len: usize = decoded.len();
    let mut i: usize = start + 2;
    let mut esc: bool = false;
    while i < e
        invariant
            start + 2 <= i <= e <= data@.len(),
            payload == data@.subrange(start + 2, e as int),
            spec_unescape_from(payload, false) == decoded@.skip(orig.len() as int)
                + spec_unescape_from(data@.subrange(i as int, e as int), esc),
            orig.is_prefix_of(decoded@),
            start_len == orig.len(),
        decreases e - i,
    {
        let ghost pre: Seq<u8> = data@.subrange(i as int, e as int);
        proof {
            assert(pre.len() > 0);
            assert(pre[0] == data@[i as int]);
            assert(pre.skip(1) =~= data@.subrange(i + 1, e as int));
        }
        let b = data[i];
        if b == FESC {
            esc = true;
        } else if esc {
            if b == TFEND {
                decoded.push(FEND);
            } else if b == TFESC {
                decoded.push(FESC);
            }
            esc = false;
        } else {
            decoded.push(b);
            esc = false;
        }
        i = i + 1;
        proof {
            assert(decoded@.skip(orig.len() as int) + spec_unescape_from(
                data@.subrange(i as int, e as int),
                esc,
            ) =~= spec_unescape_from(payload, false));
        }
    }
    proof {
        assert(data@.subrange(e as int, e as int) =~= Seq::<u8>::empty());
        assert(decoded@ =~= orig + spec_unescape(payload));
    }

    Some(
        DecodedFrame {
            port: data[start + 1] >> 4,
            bytes_read: e + 1,
            payload_size: decoded.len() - start_len,
        },
    )
}

/// Appending one byte to the payload appends its escape sequence.
proof fn lemma_escaped_push(data: Seq<u8>, b: u8)
    ensures
        spec_escaped(data.push(b)) == spec_escaped(data) + spec_escape_byte(b),
    decreases data.len(),
{
    if data.len() == 0 {
        assert(data.push(b)[0] == b);
        assert(data.push(b).skip(1) =~= Seq::<u8>::empty());
        assert(spec_escaped(data.push(b)) == spec_escape_byte(b) + spec_escaped(
            Seq::<u8>::empty(),
        ));
        assert(spec_escaped(data.push(b)) =~= spec_escaped(data) + spec_escape_byte(b));
    } else {
        assert(data.push(b)[0] == data[0]);
        assert(data.push(b).skip(1) =~= data.skip(1).push(b));
        assert(spec_escaped(data.push(b)) == spec_escape_byte(data[0]) + spec_escaped(
            data.skip(1).push(b),
        ));
        lemma_escaped_push(data.skip(1), b);
        assert(spec_escaped(data.push(b)) =~= spec_escaped(data) + spec_escape_byte(b));
    }
}

/// No escaped payload contains a FEND or a bare FESC-then-ordinary pattern
/// that unescaping would drop; in particular no FEND at all.
proof fn lemma_escaped_fend_free(data: Seq<u8>)
    ensures
        forall|i: int| 0 <= i < spec_escaped(data).len() ==> spec_escaped(data)[i] != FEND,
    decreases data.len(),
{
    if data.len() > 0 {
        lemma_escaped_fend_free(data.skip(1));
        let h = spec_escape_byte(data[0]);
        let t = spec_escaped(data.skip(1));
        assert forall|i: int| 0 <= i < spec_escaped(data).len() implies spec_escaped(data)[i]
            != FEND by {
            if i < h.len() {
                assert(h[i] != FEND);
            } else {
                assert(spec_escaped(data)[i] == t[i - h.len()]);
            }
        }
    }
}

/// Unescaping undoes escaping.
proof fn lemma_unescape_escaped(data: Seq<u8>)
    ensures
        spec_unescape(spec_escaped(data)) == data,
    decreases data.len(),
{
    if data.len() == 0 {
        assert(spec_unescape(spec_escaped(data)) =~= data);
    } else {
        let b = data[0];
        let tail = spec_escaped(data.skip(1));
        let whole = spec_escaped(data);
        lemma_unescape_escaped(data.skip(1));
        if b == FEND {
            assert(whole =~= seq![FESC, TFEND] + tail);
            assert(whole[0] == FESC);
            assert(whole.skip(1) =~= seq![TFEND] + tail);
            assert(spec_unescape_from(whole, false) == spec_unescape_from(
                seq![TFEND] + tail,
                true,
            ));
            assert((seq![TFEND] + tail)[0] == TFEND);
            assert((seq![TFEND] + tail).skip(1) =~= tail);
            assert(spec_unescape_from(seq![TFEND] + tail, true) == seq![FEND]
                + spec_unescape_from(tail, false));
            assert(seq![FEND] + data.skip(1) =~= data);
        } else if b == FESC {
            assert(whole =~= seq![FESC, TFESC] + tail);
            assert(whole[0] == FESC);
            assert(whole.skip(1) =~= seq![TFESC] + tail);
            assert(spec_unescape_from(whole, false) == spec_unescape_from(
                seq![TFESC] + tail,
                true,
            ));
            assert((seq![TFESC] + tail)[0] == TFESC);
            assert((seq![TFESC] + tail).skip(1) =~= tail);
            assert(spec_unescape_from(seq![TFESC] + tail, true) == seq![FESC]
                + spec_unescape_from(tail, false));
            assert(seq![FESC] + data.skip(1) =~= data);
        } else {
            assert(whole =~= seq![b] + tail);
            assert(whole[0] == b);
            assert(whole.skip(1) =~= tail);
            assert(spec_unescape_from(whole, false) == seq![b] + spec_unescape_from(tail, false));
            assert(seq![b] + data.skip(1) =~= data);
        }
    }
}

/// The first FEND at or after `i` is `k`, when everything between is not FEND.
proof fn lemma_find_fend_at(s: Seq<u8>, i: int, k: int)
    requires
        0 <= i <= k < s.len(),
        s[k] == FEND,
        forall|j: int| i <= j < k ==> s[j] != FEND,
    ensures
        spec_find_fend(s, i) == Some(k),
    decreases k - i,
{
    if i < k {
        lemma_find_fend_at(s, i + 1, k);
    }
}

/// Round trip of the framing: decoding an encoded frame yields the same
/// payload and port, and consumes the whole frame. The port must fit the
/// nibble, and a port of 12 is excluded: its port byte would collide with
/// FEND itself.
pub proof fn lemma_kiss_round_trip(data: Seq<u8>, port: u8)
    requires
        port < 16,
        port != 0x0c,
    ensures
        spec_decode(spec_frame(data, port)) == Some(
            (port, spec_frame(data, port).len() as int, data),
        ),
{
    let frame = spec_frame(data, port);
    let esc = spec_escaped(data);
    let pb = spec_port_byte(port);
    assert((CMD_DATA | ((port & 0x0f) << 4)) != FEND && ((CMD_DATA | ((port & 0x0f) << 4)) >> 4)
        == port && port & 0x0f == port) by (bit_vector)
        requires
            port < 16,
            port != 0x0c,
    ;
    assert(frame.len() == esc.len() + 3);
    assert(frame[0] == FEND);
    assert(frame[1] == pb);
    lemma_escaped_fend_free(data);
    assert(forall|i: int| 2 <= i < frame.len() - 1 ==> frame[i] == esc[i - 2] && frame[i] != FEND);
    assert(frame[frame.len() - 1] == FEND);

    assert(spec_find_fend(frame, 0) == Some(0int));
    assert(spec_run_end(frame, 0) == 0);
    lemma_find_fend_at(frame, 2, frame.len() - 1);
    assert(frame.subrange(2, frame.len() - 1) =~= esc);
    lemma_unescape_escaped(data);
}

} // verus!
