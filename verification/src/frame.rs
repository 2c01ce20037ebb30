//! Length-prefixed byte frames over a duplex stream.
//!
//! A frame on the wire is a 4-byte big-endian length followed by that many
//! bytes of payload.  The codec owns a read buffer that accumulates partial
//! reads across calls; a partially-received frame is never exposed.

use vstd::prelude::*;

verus! {

/// The number of bytes of the length header.
pub const FRAME_HEADER_LEN: usize = 4;

/// The big-endian bytes of a 32-bit length, most significant first.
pub open spec fn be_bytes_of_len(n: nat) -> Seq<u8> {
    seq![
        ((n / 0x1000000) % 0x100) as u8,
        ((n / 0x10000) % 0x100) as u8,
        ((n / 0x100) % 0x100) as u8,
        (n % 0x100) as u8,
    ]
}

/// The length encoded by four big-endian header bytes.
pub open spec fn len_of_be_bytes(s: Seq<u8>) -> nat
    recommends
        s.len() >= 4,
{
    (s[0] as nat) * 0x1000000 + (s[1] as nat) * 0x10000 + (s[2] as nat) * 0x100 + (s[3] as nat)
}

/// The encoding of one frame: the length header followed by the payload.
pub open spec fn frame_of(payload: Seq<u8>) -> Seq<u8> {
    be_bytes_of_len(payload.len()) + payload
}

/// What the head of a read buffer parses to: the first complete frame's
/// payload and the number of bytes it occupies, or nothing when fewer than
/// `len + 4` bytes are buffered.
pub open spec fn parse_frame(s: Seq<u8>) -> Option<(Seq<u8>, int)> {
    if s.len() < 4 {
        None
    } else {
        let n = len_of_be_bytes(s) as int;
        if s.len() < 4 + n {
            None
        } else {
            Some((s.subrange(4, 4 + n), 4 + n))
        }
    }
}

/// A 32-bit value equals the number its four big-endian bytes encode.
proof fn lemma_be_decomposition(n: nat)
    requires
        n < 0x100000000,
    ensures
        len_of_be_bytes(be_bytes_of_len(n)) == n,
{
    let b0 = (n / 0x1000000) % 0x100;
    let b1 = (n / 0x10000) % 0x100;
    let b2 = (n / 0x100) % 0x100;
    let b3 = n % 0x100;
    assert(b0 * 0x1000000 + b1 * 0x10000 + b2 * 0x100 + b3 == n) by (nonlinear_arith)
        requires
            n < 0x100000000,
            b0 == (n / 0x1000000) % 0x100,
            b1 == (n / 0x10000) % 0x100,
            b2 == (n / 0x100) % 0x100,
            b3 == n % 0x100,
    ;
}

/// Frame round-trip: a frame built from any payload parses back to exactly
/// that payload, consuming exactly the frame's bytes.
pub proof fn lemma_frame_round_trip(payload: Seq<u8>)
    requires
        payload.len() <= u32::MAX,
    ensures
        parse_frame(frame_of(payload)) == Some((payload, payload.len() + 4 as int)),
{
    let s = frame_of(payload);
    lemma_be_decomposition(payload.len());
    assert(s.subrange(0, 4) =~= be_bytes_of_len(payload.len()));
    assert(len_of_be_bytes(s) == payload.len());
    assert(s.subrange(4, 4 + payload.len() as int) =~= payload);
}

/// Encodes one frame: the payload's length as four big-endian bytes, then
/// the payload itself.
pub fn encode_frame(payload: &[u8]) -> (out: Vec<u8>)
    requires
        payload@.len() <= u32::MAX,
    ensures
        out@ == frame_of(payload@),
{
    let len: u32 = payload.len() as u32;
    let mut out: Vec<u8> = Vec::new();
    out.push((len / 0x1000000) as u8);
    out.push((len / 0x10000 % 0x100) as u8);
    out.push((len / 0x100 % 0x100) as u8);
    out.push((len % 0x100) as u8);
    assert(out@ =~= be_bytes_of_len(payload@.len()));
    let mut i: usize = 0;
    while i < payload.len()
        invariant
            i <= payload@.len(),
            payload@.len() <= u32::MAX,
            out@ == be_bytes_of_len(payload@.len()) + payload@.subrange(0, i as int),
        decreases payload@.len() - i,
    {
        out.push(payload[i]);
        assert(out@ =~= be_bytes_of_len(payload@.len()) + payload@.subrange(0, i + 1 as int));
        i = i + 1;
    }
    assert(out@ =~= frame_of(payload@));
    out
}

/// The frame codec: a read buffer accumulating bytes from the wire and a
/// write buffer holding frames not yet flushed to the wire.
pub struct DistantCodec {
    /// Bytes received from the wire and not yet consumed as frames.
    inbuf: Vec<u8>,
    /// Encoded frames not yet handed to the wire.
    outbuf: Vec<u8>,
}

impl DistantCodec {
    /// The unconsumed inbound bytes.
    pub closed spec fn inbound(&self) -> Seq<u8> {
        self.inbuf@
    }

    /// The pending outbound bytes.
    pub closed spec fn outbound(&self) -> Seq<u8> {
        self.outbuf@
    }

    /// A fresh codec with empty buffers.
    pub fn new() -> (c: Self)
        ensures
            c.inbound() == Seq::<u8>::empty(),
            c.outbound() == Seq::<u8>::empty(),
    {
        Self { inbuf: Vec::new(), outbuf: Vec::new() }
    }

    /// Appends bytes read from the wire to the read buffer.
    pub fn feed(&mut self, data: &[u8])
        ensures
            final(self).inbound() == old(self).inbound() + data@,
            final(self).outbound() == old(self).outbound(),
    {
        let mut i: usize = 0;
        while i < data.len()
            invariant
                i <= data@.len(),
                self.inbuf@ == old(self).inbuf@ + data@.subrange(0, i as int),
                self.outbuf@ == old(self).outbuf@,
            decreases data@.len() - i,
        {
            self.inbuf.push(data[i]);
            assert(self.inbuf@ =~= old(self).inbuf@ + data@.subrange(0, i + 1 as int));
            i = i + 1;
        }
        assert(self.inbuf@ =~= old(self).inbuf@ + data@);
    }

    /// Takes the first complete frame's payload out of the read buffer, or
    /// returns `None` (leaving the buffer unchanged) when fewer than
    /// `len + 4` bytes are buffered.  A partial frame is never exposed.
    pub fn try_read_frame(&mut self) -> (r: Option<Vec<u8>>)
        ensures
            final(self).outbound() == old(self).outbound(),
            match parse_frame(old(self).inbound()) {
                Some((payload, consumed)) => {
                    &&& r is Some
                    &&& r->0@ == payload
                    &&& final(self).inbound() == old(self).inbound().subrange(
                        consumed,
                        old(self).inbound().len() as int,
                    )
                },
                None => r is None && final(self).inbound() == old(self).inbound(),
            },
    {
        if self.inbuf.len() < 4 {
            return None;
        }
        let b0 = self.inbuf[0];
        let b1 = self.inbuf[1];
        let b2 = self.inbuf[2];
        let b3 = self.inbuf[3];
        let n: usize = (b0 as usize) * 0x1000000 + (b1 as usize) * 0x10000 + (b2 as usize) * 0x100
            + (b3 as usize);
        assert(n == len_of_be_bytes(self.inbuf@));
        if self.inbuf.len() < 4 || n > self.inbuf.len() - 4 {
            return None;
        }
        let consumed: usize = 4 + n;
        let mut payload: Vec<u8> = Vec::new();
        let mut i: usize = 4;
        while i < consumed
            invariant
                4 <= i <= consumed,
                consumed <= self.inbuf@.len(),
                self == old(self),
                payload@ == self.inbuf@.subrange(4, i as int),
            decreases consumed - i,
        {
            payload.push(self.inbuf[i]);
            assert(payload@ =~= self.inbuf@.subrange(4, i + 1 as int));
            i = i + 1;
        }
        let mut rest: Vec<u8> = Vec::new();
        let mut j: usize = consumed;
        while j < self.inbuf.len()
            invariant
                consumed <= j <= self.inbuf@.len(),
                self == old(self),
                rest@ == self.inbuf@.subrange(consumed as int, j as int),
            decreases self.inbuf@.len() - j,
        {
            rest.push(self.inbuf[j]);
            assert(rest@ =~= self.inbuf@.subrange(consumed as int, j + 1 as int));
            j = j + 1;
        }
        assert(rest@ =~= self.inbuf@.subrange(consumed as int, self.inbuf@.len() as int));
        self.inbuf = rest;
        Some(payload)
    }

    /// Encodes a frame for the payload and queues it on the write buffer.
    pub fn queue_frame(&mut self, payload: &[u8])
        requires
            payload@.len() <= u32::MAX,
        ensures
            final(self).outbound() == old(self).outbound() + frame_of(payload@),
            final(self).inbound() == old(self).inbound(),
    {
        let frame = encode_frame(payload);
        let mut i: usize = 0;
        while i < frame.len()
            invariant
                i <= frame@.len(),
                frame@ == frame_of(payload@),
                self.outbuf@ == old(self).outbuf@ + frame@.subrange(0, i as int),
                self.inbuf@ == old(self).inbuf@,
            decreases frame@.len() - i,
        {
            self.outbuf.push(frame[i]);
            assert(self.outbuf@ =~= old(self).outbuf@ + frame@.subrange(0, i + 1 as int));
            i = i + 1;
        }
        assert(self.outbuf@ =~= old(self).outbuf@ + frame@);
    }

    /// Drains the write buffer, handing back everything queued so far; the
    /// caller puts these bytes on the wire.
    pub fn take_output(&mut self) -> (out: Vec<u8>)
        ensures
            out@ == old(self).outbound(),
            final(self).outbound() == Seq::<u8>::empty(),
            final(self).inbound() == old(self).inbound(),
    {
        let mut out: Vec<u8> = Vec::new();
        core::mem::swap(&mut out, &mut self.outbuf);
        out
    }

    /// The number of bytes waiting in the write buffer.
    pub fn pending_output_len(&self) -> (n: usize)
        ensures
            n == self.outbound().len(),
    {
        self.outbuf.len()
    }
}

} // verus!
