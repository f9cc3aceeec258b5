//! TPKT (RFC 1006): the four-octet header that carries an OSI TPDU over TCP.
//!
//! ```text
//! 0         1         2 .. 3
//! version   reserved  length, big-endian, of the whole packet with these four octets
//! ```
//!
//! The header may arrive in a segment of its own, so reading TPKT off a socket is a state
//! machine over a growing buffer: [`Reader`].

use vstd::prelude::*;
use vstd::slice::*;
use crate::ber::push_all;
use crate::common::{DecodeReason, Error};

verus! {

/// The version octet of TPKT.
pub const VERSION: u8 = 3;
/// Octets in a TPKT header.
pub const HEADER_LEN: usize = 4;
/// The largest packet a TPKT length field can describe.
pub const MAX_PACKET: usize = 65_535;

/// The length of the packet that starts a buffer; nothing while its header is incomplete.
pub open spec fn packet_len_of(b: Seq<u8>) -> Result<Option<usize>, Error> {
    if b.len() < HEADER_LEN {
        Ok(None)
    } else if b[0] != VERSION {
        Err(Error::Decode { reason: DecodeReason::UnexpectedTag, offset: 0 })
    } else {
        let len = (b[2] * 256 + b[3]) as usize;
        if len < HEADER_LEN {
            Err(Error::Decode { reason: DecodeReason::BadLength, offset: 2 })
        } else {
            Ok(Some(len))
        }
    }
}

/// The header for a payload of `n` octets.
pub open spec fn header_octets(n: nat) -> Seq<u8> {
    seq![VERSION, 0, ((n + HEADER_LEN) / 256) as u8, ((n + HEADER_LEN) % 256) as u8]
}

/// A payload in its packet.
pub open spec fn packet(payload: Seq<u8>) -> Seq<u8> {
    header_octets(payload.len()) + payload
}

/// The length of the packet that starts at `buf`, or `None` while the header is incomplete.
///
/// An error means the stream is not TPKT and cannot be resynchronised.
pub fn packet_len(buf: &[u8]) -> (r: Result<Option<usize>, Error>)
    ensures
        r == packet_len_of(buf@),
{
    if buf.len() < HEADER_LEN {
        return Ok(None);
    }
    if buf[0] != VERSION {
        return Err(Error::decode(DecodeReason::UnexpectedTag, 0));
    }
    let len: usize = buf[2] as usize * 256 + buf[3] as usize;
    if len < HEADER_LEN {
        return Err(Error::decode(DecodeReason::BadLength, 2));
    }
    Ok(Some(len))
}

/// The TPKT header for a payload of `payload_len` octets.
pub fn header(payload_len: usize) -> (r: Result<[u8; 4], Error>)
    ensures
        match r {
            Ok(h) => payload_len + HEADER_LEN <= MAX_PACKET && h@ == header_octets(
                payload_len as nat,
            ),
            Err(e) => payload_len + HEADER_LEN > MAX_PACKET && e == Error::Encode(
                "TPKT packet exceeds 65535 octets",
            ),
        },
{
    if payload_len > MAX_PACKET - HEADER_LEN {
        return Err(Error::Encode("TPKT packet exceeds 65535 octets"));
    }
    let n: usize = payload_len + HEADER_LEN;
    let h: [u8; 4] = [VERSION, 0, (n / 256) as u8, (n % 256) as u8];
    assert(h@ =~= header_octets(payload_len as nat));
    Ok(h)
}

/// Reassembles a TCP byte stream into whole TPDUs.
///
/// Each TPDU borrows the reader's own buffer and stays valid until the next call.
#[derive(Debug)]
pub struct Reader {
    /// What has arrived and has not been removed yet.
    buf: Vec<u8>,
    /// Octets handed out by the previous [`Reader::next_tpdu`], removed by the next one.
    consumed: usize,
}

impl View for Reader {
    type V = Seq<u8>;

    /// The octets that have arrived and have not been handed out.
    closed spec fn view(&self) -> Seq<u8> {
        if self.consumed <= self.buf@.len() {
            self.buf@.skip(self.consumed as int)
        } else {
            Seq::empty()
        }
    }
}

impl Default for Reader {
    fn default() -> (r: Reader)
        ensures
            r@ == Seq::<u8>::empty(),
    {
        Reader::new()
    }
}

/// What taking the next TPDU off a stream gives, and what it leaves.
pub open spec fn take_tpdu(b: Seq<u8>) -> (Result<Option<Seq<u8>>, Error>, Seq<u8>) {
    match packet_len_of(b) {
        Err(e) => (Err(e), b),
        Ok(None) => (Ok(None), b),
        Ok(Some(len)) => if b.len() < len {
            (Ok(None), b)
        } else {
            (Ok(Some(b.subrange(HEADER_LEN as int, len as int))), b.skip(len as int))
        },
    }
}

impl Reader {
    /// An empty reader.
    pub fn new() -> (r: Reader)
        ensures
            r@ == Seq::<u8>::empty(),
    {
        let r = Reader { buf: Vec::new(), consumed: 0 };
        assert(r@ =~= Seq::<u8>::empty());
        r
    }

    fn compact(&mut self)
        ensures
            final(self)@ == old(self)@,
            final(self).consumed == 0,
            final(self).buf@ == old(self)@,
    {
        if self.consumed > 0 {
            if self.consumed <= self.buf.len() {
                let rest = slice_to_vec(slice_subrange(&self.buf, self.consumed, self.buf.len()));
                assert(rest@ =~= self@);
                self.buf = rest;
            } else {
                self.buf = Vec::new();
            }
            self.consumed = 0;
        }
        assert(self@ =~= self.buf@);
        assert(self@ =~= old(self)@);
    }

    /// Append received bytes.
    pub fn push(&mut self, bytes: &[u8])
        ensures
            final(self)@ == old(self)@ + bytes@,
    {
        self.compact();
        push_all(&mut self.buf, bytes);
        assert(self@ =~= old(self)@ + bytes@);
    }

    /// Octets held that are not yet a complete packet the caller has taken.
    pub fn buffered(&self) -> (r: usize)
        ensures
            r == self@.len(),
    {
        self.buf.len().saturating_sub(self.consumed)
    }

    /// Take the next complete TPDU, which is the packet without its TPKT header, if one is
    /// there.
    ///
    /// `Ok(None)` means that more bytes are needed. An `Err` means the stream is not TPKT.
    pub fn next_tpdu(&mut self) -> (r: Result<Option<&[u8]>, Error>)
        ensures
            match r {
                Ok(Some(t)) => take_tpdu(old(self)@).0 == Ok::<Option<Seq<u8>>, Error>(Some(t@)),
                Ok(None) => take_tpdu(old(self)@).0 == Ok::<Option<Seq<u8>>, Error>(None),
                Err(e) => take_tpdu(old(self)@).0 == Err::<Option<Seq<u8>>, Error>(e),
            },
            final(self)@ == take_tpdu(old(self)@).1,
    {
        self.compact();
        let len: usize = match packet_len(&self.buf)? {
            Some(len) => len,
            None => return Ok(None),
        };
        if self.buf.len() < len {
            return Ok(None);
        }
        self.consumed = len;
        assert(self@ =~= old(self)@.skip(len as int));
        Ok(Some(slice_subrange(&self.buf, HEADER_LEN, len)))
    }
}

/// A packet at the front of a stream gives its payload and leaves the rest, and a stream that
/// ends inside a packet gives nothing yet.
pub proof fn lemma_packet_round_trip(payload: Seq<u8>, rest: Seq<u8>, n: int)
    requires
        payload.len() + HEADER_LEN <= MAX_PACKET,
        0 <= n < packet(payload).len(),
    ensures
        take_tpdu(packet(payload) + rest) == (
            Ok::<Option<Seq<u8>>, Error>(Some(payload)),
            rest,
        ),
        take_tpdu(packet(payload).take(n)) == (
            Ok::<Option<Seq<u8>>, Error>(None),
            packet(payload).take(n),
        ),
{
    let b = packet(payload) + rest;
    let len = payload.len() + HEADER_LEN;
    assert(b[2] * 256 + b[3] == len);
    assert(b.subrange(HEADER_LEN as int, len as int) =~= payload);
    assert(b.skip(len as int) =~= rest);
    let t = packet(payload).take(n);
    if n >= HEADER_LEN {
        assert(t[2] * 256 + t[3] == len);
    }
}

} // verus!
