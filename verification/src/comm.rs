//! Record-oriented duplex channels.
//!
//! A protocol instance exchanges opaque byte blobs, in order and atomically.
//! `Duplex` is the in-memory mailbox a protocol engine owns: its peer's blobs
//! are queued into it and the blobs it sends accumulate until they are
//! delivered.  `LoopbackChannel` carries blobs over a single byte stream with
//! the length-prefixed record framing that a stream transport uses.
use vstd::prelude::*;

use crate::encoding::u64_be_bytes;
use crate::encoding::u64_from_be_bytes;
use crate::encoding::u64_to_be_bytes;
use crate::OtError;

verus! {

/// The byte-blob views of a sequence of vectors.
pub open spec fn blob_views(s: Seq<Vec<u8>>) -> Seq<Seq<u8>> {
    Seq::new(s.len(), |i: int| s[i]@)
}

/// An in-memory record channel endpoint: a queue of blobs waiting to be
/// received and a queue of blobs sent but not yet delivered to the peer.
pub struct Duplex {
    inbox: Vec<Vec<u8>>,
    outbox: Vec<Vec<u8>>,
}

impl Duplex {
    /// The blobs that are queued and not yet received, in arrival order.
    pub closed spec fn pending(&self) -> Seq<Seq<u8>> {
        blob_views(self.inbox@)
    }

    /// The blobs sent on this endpoint and not yet delivered, in send order.
    pub closed spec fn sent(&self) -> Seq<Seq<u8>> {
        blob_views(self.outbox@)
    }

    pub fn new() -> (r: Duplex)
        ensures
            r.pending() == Seq::<Seq<u8>>::empty(),
            r.sent() == Seq::<Seq<u8>>::empty(),
    {
        let r = Duplex { inbox: Vec::new(), outbox: Vec::new() };
        proof {
            assert(r.pending() =~= Seq::<Seq<u8>>::empty());
            assert(r.sent() =~= Seq::<Seq<u8>>::empty());
        }
        r
    }

    /// Sends one blob: it is appended to the outgoing queue.
    pub fn send(&mut self, data: Vec<u8>) -> (r: Result<(), OtError>)
        ensures
            r is Ok,
            final(self).sent() == old(self).sent().push(data@),
            final(self).pending() == old(self).pending(),
    {
        self.outbox.push(data);
        proof {
            assert(self.sent() =~= old(self).sent().push(data@));
            assert(self.pending() =~= old(self).pending());
        }
        Ok(())
    }

    /// Receives the next blob in order, or fails if none is queued.
    pub fn receive(&mut self) -> (r: Result<Vec<u8>, OtError>)
        ensures
            final(self).sent() == old(self).sent(),
            old(self).pending().len() > 0 ==> (r matches Ok(v) && v@ == old(self).pending()[0]
                && final(self).pending() == old(self).pending().skip(1)),
            old(self).pending().len() == 0 ==> (r matches Err(e) && e == OtError::TransportError
                && final(self).pending() == old(self).pending()),
    {
        if self.inbox.len() > 0 {
            let v = self.inbox.remove(0);
            proof {
                assert(v@ == old(self).pending()[0]);
                assert(self.pending() =~= old(self).pending().skip(1));
                assert(self.sent() =~= old(self).sent());
            }
            Ok(v)
        } else {
            Err(OtError::TransportError)
        }
    }

    /// Queues one blob as arrived from the peer.
    pub fn push_incoming(&mut self, data: Vec<u8>)
        ensures
            final(self).pending() == old(self).pending().push(data@),
            final(self).sent() == old(self).sent(),
    {
        self.inbox.push(data);
        proof {
            assert(self.pending() =~= old(self).pending().push(data@));
            assert(self.sent() =~= old(self).sent());
        }
    }

    /// Takes every undelivered outgoing blob, leaving none.
    pub fn take_outgoing(&mut self) -> (r: Vec<Vec<u8>>)
        ensures
            blob_views(r@) == old(self).sent(),
            final(self).sent() == Seq::<Seq<u8>>::empty(),
            final(self).pending() == old(self).pending(),
    {
        let mut out: Vec<Vec<u8>> = Vec::new();
        core::mem::swap(&mut self.outbox, &mut out);
        proof {
            assert(blob_views(out@) =~= old(self).sent());
            assert(self.sent() =~= Seq::<Seq<u8>>::empty());
            assert(self.pending() =~= old(self).pending());
        }
        out
    }

    /// Delivers every blob this endpoint has sent into the peer's queue,
    /// preserving order.
    pub fn deliver_to(&mut self, other: &mut Duplex)
        ensures
            final(self).sent() == Seq::<Seq<u8>>::empty(),
            final(self).pending() == old(self).pending(),
            final(other).sent() == old(other).sent(),
            final(other).pending() == old(other).pending() + old(self).sent(),
    {
        let blobs = self.take_outgoing();
        let n = blobs.len();
        let mut i: usize = 0;
        while i < n
            invariant
                n == blobs@.len(),
                i <= n,
                other.sent() == old(other).sent(),
                other.pending() == old(other).pending() + blob_views(blobs@).take(i as int),
            decreases n - i,
        {
            other.push_incoming(blobs[i].clone());
            proof {
                assert(blobs@[i as int]@ == blob_views(blobs@)[i as int]);
                assert(old(other).pending() + blob_views(blobs@).take(i + 1) =~= (old(
                    other,
                ).pending() + blob_views(blobs@).take(i as int)).push(blobs@[i as int]@));
            }
            i = i + 1;
        }
        proof {
            assert(blob_views(blobs@).take(n as int) =~= blob_views(blobs@));
            assert(blob_views(blobs@) == old(self).sent());
        }
    }
}

/// A corruptor that changes nothing: a channel observer's do-nothing write
/// hook.
pub fn empty_corruptor<S: Default>(_state: &mut S, data: &mut Vec<u8>)
    ensures
        final(data)@ == old(data)@,
{
}

/// An eavesdropper that records nothing: a channel observer's do-nothing
/// read hook.
pub fn empty_eavesdropper<S: Default>(_state: &mut S, _data: &Vec<u8>) {
}

/// Releases the underlying channel of a protocol object so that it can be
/// handed to a follow-on protocol over the same connection.
pub trait GetConn: Sized {
    spec fn conn_view(self) -> Duplex;

    fn get_conn(self) -> (r: Duplex)
        ensures
            r == self.conn_view(),
    ;
}

/// The length-prefixed record framing of a blob: its length as 8 big-endian
/// bytes, then the blob itself.
pub open spec fn frame_bytes(x: Seq<u8>) -> Seq<u8>
    recommends
        x.len() <= u64::MAX,
{
    u64_be_bytes(x.len() as u64) + x
}

/// One frame parsed from `buf` at offset `pos`: the framed blob and the
/// offset just past it, or nothing if no complete frame starts there.
pub open spec fn parse_frame_at(buf: Seq<u8>, pos: int) -> Option<(Seq<u8>, int)> {
    if 0 <= pos && pos + 8 <= buf.len() {
        match u64_be_bytes_len(buf.subrange(pos, pos + 8)) {
            Some(n) => if pos + 8 + n <= buf.len() {
                Some((buf.subrange(pos + 8, pos + 8 + n), pos + 8 + n))
            } else {
                None
            },
            None => None,
        }
    } else {
        None
    }
}

/// The integer a big-endian length prefix encodes, if any integer encodes
/// to exactly these bytes.
pub open spec fn u64_be_bytes_len(s: Seq<u8>) -> Option<int> {
    if exists|x: u64| u64_be_bytes(x) == s {
        Some((choose|x: u64| u64_be_bytes(x) == s) as int)
    } else {
        None
    }
}

/// Appending a framed blob to a buffer makes it the frame parsed at the old
/// end of the buffer: the framing round-trips.
pub proof fn lemma_frame_round_trip(prefix: Seq<u8>, x: Seq<u8>)
    requires
        x.len() <= u64::MAX,
    ensures
        parse_frame_at(prefix + frame_bytes(x), prefix.len() as int) == Some(
            (x, prefix.len() + 8 + x.len() as int),
        ),
{
    let buf = prefix + frame_bytes(x);
    let pos = prefix.len() as int;
    assert(buf.subrange(pos, pos + 8) =~= u64_be_bytes(x.len() as u64));
    assert(u64_be_bytes_len(buf.subrange(pos, pos + 8)) matches Some(n) && n == x.len()) by {
        let hdr = buf.subrange(pos, pos + 8);
        assert(u64_be_bytes(x.len() as u64) == hdr);
        let y = choose|y: u64| u64_be_bytes(y) == hdr;
        crate::encoding::lemma_u64_be_bytes_injective(y, x.len() as u64);
    }
    assert(buf.subrange(pos + 8, pos + 8 + x.len()) =~= x);
}

/// A channel connected back to itself: a blob sent is the next blob
/// received, carried over the byte-stream framing.
pub struct LoopbackChannel {
    buf: Vec<u8>,
    rpos: usize,
}

impl LoopbackChannel {
    /// The read offset never passes the end of the stream.
    pub closed spec fn wf(&self) -> bool {
        self.rpos <= self.buf@.len()
    }

    /// The whole byte stream written so far.
    pub closed spec fn stream(&self) -> Seq<u8> {
        self.buf@
    }

    /// The read offset into the stream.
    pub closed spec fn read_pos(&self) -> int {
        self.rpos as int
    }

    /// True when every framed blob has been read back.
    pub open spec fn caught_up(&self) -> bool {
        self.read_pos() == self.stream().len()
    }

    pub fn new() -> (r: LoopbackChannel)
        ensures
            r.stream() == Seq::<u8>::empty(),
            r.caught_up(),
            r.wf(),
    {
        let r = LoopbackChannel { buf: Vec::new(), rpos: 0 };
        proof {
            assert(r.stream() =~= Seq::<u8>::empty());
        }
        r
    }

    /// Sends one blob: appends its framed form to the stream.
    pub fn send(&mut self, data: &Vec<u8>) -> (r: Result<(), OtError>)
        requires
            data@.len() <= u64::MAX,
            old(self).stream().len() + 8 + data@.len() <= usize::MAX,
        ensures
            r is Ok,
            final(self).stream() == old(self).stream() + frame_bytes(data@),
            final(self).read_pos() == old(self).read_pos(),
            old(self).wf() ==> final(self).wf(),
    {
        let mut header = u64_to_be_bytes(data.len() as u64);
        let mut body = data.clone();
        self.buf.append(&mut header);
        self.buf.append(&mut body);
        proof {
            assert(self.stream() =~= old(self).stream() + frame_bytes(data@));
        }
        Ok(())
    }

    /// Receives the next framed blob from the stream, failing if no
    /// complete frame is available.
    pub fn receive(&mut self) -> (r: Result<Vec<u8>, OtError>)
        requires
            old(self).wf(),
        ensures
            final(self).wf(),
            final(self).stream() == old(self).stream(),
            parse_frame_at(old(self).stream(), old(self).read_pos()) matches Some(p) ==> (r
                matches Ok(v) && v@ == p.0 && final(self).read_pos() == p.1),
            parse_frame_at(old(self).stream(), old(self).read_pos()) is None ==> (r matches Err(e)
                && e == OtError::TransportError && final(self).read_pos() == old(self).read_pos()),
    {
        if self.buf.len() - self.rpos < 8 {
            proof {
                assert(parse_frame_at(self.stream(), self.read_pos()) is None);
            }
            return Err(OtError::TransportError);
        }
        let mut header: Vec<u8> = Vec::new();
        let mut i: usize = 0;
        while i < 8
            invariant
                i <= 8,
                header@.len() == i,
                self.buf@ == old(self).buf@,
                self.rpos == old(self).rpos,
                old(self).rpos + 8 <= old(self).buf@.len(),
                old(self).buf@.len() <= usize::MAX,
                forall|j: int| 0 <= j < i ==> header@[j] == old(self).buf@[old(self).rpos + j],
            decreases 8 - i,
        {
            header.push(self.buf[self.rpos + i]);
            i = i + 1;
        }
        proof {
            assert(header@ =~= self.stream().subrange(self.read_pos(), self.read_pos() + 8));
        }
        let n64 = u64_from_be_bytes(&header);
        if n64 > (usize::MAX as u64) || (n64 as usize) > self.buf.len() - self.rpos - 8 {
            proof {
                lemma_header_mismatch(self.stream(), self.read_pos(), n64);
            }
            return Err(OtError::TransportError);
        }
        let n = n64 as usize;
        let mut body: Vec<u8> = Vec::new();
        let start = self.rpos + 8;
        let mut j: usize = 0;
        while j < n
            invariant
                j <= n,
                body@.len() == j,
                self.buf@ == old(self).buf@,
                self.rpos == old(self).rpos,
                start == old(self).rpos + 8,
                start + n <= old(self).buf@.len(),
                old(self).buf@.len() <= usize::MAX,
                forall|k: int| 0 <= k < j ==> body@[k] == old(self).buf@[start + k],
            decreases n - j,
        {
            body.push(self.buf[start + j]);
            j = j + 1;
        }
        self.rpos = start + n;
        proof {
            lemma_header_match(old(self).stream(), old(self).read_pos(), n64);
            assert(body@ =~= old(self).stream().subrange(
                old(self).read_pos() + 8,
                old(self).read_pos() + 8 + n as int,
            ));
        }
        Ok(body)
    }
}

/// If the bytes at `pos` are the encoding of `n`, the parsed frame has
/// length `n`.
proof fn lemma_header_match(buf: Seq<u8>, pos: int, n: u64)
    requires
        0 <= pos,
        pos + 8 <= buf.len(),
        buf.subrange(pos, pos + 8) == u64_be_bytes(n),
        pos + 8 + n <= buf.len(),
    ensures
        parse_frame_at(buf, pos) == Some(
            (buf.subrange(pos + 8, pos + 8 + n as int), pos + 8 + n as int),
        ),
{
    let hdr = buf.subrange(pos, pos + 8);
    let y = choose|y: u64| u64_be_bytes(y) == hdr;
    crate::encoding::lemma_u64_be_bytes_injective(y, n);
}

/// If the bytes at `pos` encode `n` but fewer than `n` bytes follow, no
/// frame parses at `pos`.
proof fn lemma_header_mismatch(buf: Seq<u8>, pos: int, n: u64)
    requires
        0 <= pos,
        pos + 8 <= buf.len(),
        buf.subrange(pos, pos + 8) == u64_be_bytes(n),
        pos + 8 + n > buf.len(),
    ensures
        parse_frame_at(buf, pos) is None,
{
    let hdr = buf.subrange(pos, pos + 8);
    if u64_be_bytes_len(hdr) matches Some(m) {
        let y = choose|y: u64| u64_be_bytes(y) == hdr;
        crate::encoding::lemma_u64_be_bytes_injective(y, n);
    }
}

/// Sending any blob on a caught-up loopback channel and receiving it back
/// returns the blob itself.
pub fn loopback_round_trip(ch: &mut LoopbackChannel, data: &Vec<u8>) -> (r: Result<
    Vec<u8>,
    OtError,
>)
    requires
        old(ch).caught_up(),
        data@.len() <= u64::MAX,
        old(ch).stream().len() + 8 + data@.len() <= usize::MAX,
    ensures
        r matches Ok(v) && v@ == data@,
        final(ch).caught_up(),
{
    let pos = Ghost(old(ch).read_pos());
    let _ = ch.send(data);
    proof {
        lemma_frame_round_trip(old(ch).stream(), data@);
    }
    ch.receive()
}

} // verus!
