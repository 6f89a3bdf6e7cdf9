//! A plain demonstration transfer with no security whatsoever: the receiver
//! names its index in the clear and the sender answers with the value at
//! that index.
use vstd::prelude::*;

use crate::comm::Duplex;
use crate::comm::GetConn;
use crate::encoding::lemma_u64_be_bytes_injective;
use crate::encoding::u64_be_bytes;
use crate::encoding::u64_from_be_bytes;
use crate::encoding::u64_to_be_bytes;
use crate::OtError;

verus! {

/// The insecure index-in-the-clear transfer over a record channel.
pub struct DummyOT {
    conn: Duplex,
}

impl DummyOT {
    pub closed spec fn channel(&self) -> Duplex {
        self.conn
    }

    pub fn new(conn: Duplex) -> (r: Result<DummyOT, OtError>)
        ensures
            r is Ok,
            r matches Ok(d) ==> d.channel() == conn,
    {
        Ok(DummyOT { conn })
    }

    /// Waits for the peer's index and answers with the value at that index,
    /// or aborts when the index is out of range.
    pub fn send(&mut self, values: &Vec<u64>) -> (r: Result<(), OtError>)
        ensures
            r is Ok ==> old(self).channel().pending().len() > 0 && final(self).channel().pending()
                == old(self).channel().pending().skip(1) && (exists|i: u64|
                old(self).channel().pending()[0] == u64_be_bytes(i) && i < values@.len()
                    && final(self).channel().sent() == old(self).channel().sent().push(
                    u64_be_bytes(#[trigger] values@[i as int]),
                )),
            r matches Err(e) ==> (e == OtError::TransportError || e == OtError::ProtocolError),
            r is Err ==> final(self).channel().sent() == old(self).channel().sent(),
            r matches Err(e) && e == OtError::TransportError ==> old(
                self).channel().pending().len() == 0 && final(self).channel().pending() == old(
                self).channel().pending(),
            r matches Err(e) && e == OtError::ProtocolError ==> old(
                self).channel().pending().len() > 0 && final(self).channel().pending() == old(
                self).channel().pending().skip(1),
            (old(self).channel().pending().len() > 0 && (exists|i: u64|
                old(self).channel().pending()[0] == u64_be_bytes(i))) ==> (r is Ok || (r matches
            Err(e) && e == OtError::ProtocolError)),
            (old(self).channel().pending().len() > 0 && (exists|i: u64|
                old(self).channel().pending()[0] == u64_be_bytes(i) && i < values@.len())) ==> r
                is Ok,
    {
        let blob = match self.conn.receive() {
            Ok(v) => v,
            Err(_) => {
                return Err(OtError::TransportError);
            },
        };
        if blob.len() != 8 {
            proof {
                if exists|i: u64| old(self).channel().pending()[0] == u64_be_bytes(i) {
                    let i = choose|i: u64| old(self).channel().pending()[0] == u64_be_bytes(i);
                    assert(u64_be_bytes(i).len() == 8);
                }
            }
            return Err(OtError::ProtocolError);
        }
        let index = u64_from_be_bytes(&blob);
        proof {
            if exists|i: u64|
                old(self).channel().pending()[0] == u64_be_bytes(i) && i < values@.len() {
                let i = choose|i: u64|
                    old(self).channel().pending()[0] == u64_be_bytes(i) && i < values@.len();
                lemma_u64_be_bytes_injective(i, index);
            }
        }
        if index >= values.len() as u64 {
            return Err(OtError::ProtocolError);
        }
        let reply = u64_to_be_bytes(values[index as usize]);
        proof {
            assert(old(self).channel().pending()[0] == u64_be_bytes(index));
        }
        let _ = self.conn.send(reply);
        Ok(())
    }

    /// Asks for the value at `index`: the first half of the receiving side.
    pub fn request(&mut self, index: u64) -> (r: Result<(), OtError>)
        ensures
            r is Ok,
            final(self).channel().sent() == old(self).channel().sent().push(u64_be_bytes(index)),
            final(self).channel().pending() == old(self).channel().pending(),
    {
        self.conn.send(u64_to_be_bytes(index))
    }

    /// Reads the value the peer answered with: the second half.
    pub fn collect(&mut self) -> (r: Result<u64, OtError>)
        ensures
            final(self).channel().sent() == old(self).channel().sent(),
            r matches Ok(v) ==> old(self).channel().pending().len() > 0
                && final(self).channel().pending() == old(self).channel().pending().skip(1)
                && old(self).channel().pending()[0] == u64_be_bytes(v),
            r matches Err(e) ==> (e == OtError::TransportError || e == OtError::ProtocolError),
            (old(self).channel().pending().len() > 0 && (exists|v: u64|
                old(self).channel().pending()[0] == u64_be_bytes(v))) ==> r is Ok,
    {
        let blob = match self.conn.receive() {
            Ok(v) => v,
            Err(_) => {
                return Err(OtError::TransportError);
            },
        };
        if blob.len() != 8 {
            proof {
                if exists|v: u64| old(self).channel().pending()[0] == u64_be_bytes(v) {
                    let v = choose|v: u64| old(self).channel().pending()[0] == u64_be_bytes(v);
                    assert(u64_be_bytes(v).len() == 8);
                }
            }
            return Err(OtError::ProtocolError);
        }
        let value = u64_from_be_bytes(&blob);
        proof {
            if exists|v: u64| old(self).channel().pending()[0] == u64_be_bytes(v) {
                let v = choose|v: u64| old(self).channel().pending()[0] == u64_be_bytes(v);
                lemma_u64_be_bytes_injective(v, value);
            }
        }
        Ok(value)
    }

    /// Asks for the value at `index` and reads the answer: the whole
    /// receiving side over a full-duplex transport.
    pub fn receive(&mut self, index: u64) -> (r: Result<u64, OtError>)
        ensures
            final(self).channel().sent() == old(self).channel().sent().push(u64_be_bytes(index)),
            r matches Ok(v) ==> old(self).channel().pending().len() > 0
                && final(self).channel().pending() == old(self).channel().pending().skip(1)
                && old(self).channel().pending()[0] == u64_be_bytes(v),
            r matches Err(e) ==> (e == OtError::TransportError || e == OtError::ProtocolError),
            (old(self).channel().pending().len() > 0 && (exists|v: u64|
                old(self).channel().pending()[0] == u64_be_bytes(v))) ==> r is Ok,
    {
        let _ = self.request(index);
        self.collect()
    }
}

impl GetConn for DummyOT {
    closed spec fn conn_view(self) -> Duplex {
        self.conn
    }

    fn get_conn(self) -> (r: Duplex) {
        self.conn
    }
}

/// One dummy exchange over in-memory channels: the receiver gets exactly
/// the value at its index.
pub fn run_dummy_ot(values: &Vec<u64>, index: u64) -> (r: Result<u64, OtError>)
    requires
        index < values@.len(),
    ensures
        r matches Ok(v) && v == values@[index as int],
{
    let mut receiver = match DummyOT::new(Duplex::new()) {
        Ok(d) => d,
        Err(e) => {
            return Err(e);
        },
    };
    let mut sender = match DummyOT::new(Duplex::new()) {
        Ok(d) => d,
        Err(e) => {
            return Err(e);
        },
    };
    let _ = receiver.request(index);
    receiver.conn_deliver(&mut sender);
    proof {
        assert(sender.channel().pending() =~= Seq::<Seq<u8>>::empty().push(u64_be_bytes(index)));
        assert(sender.channel().pending()[0] == u64_be_bytes(index));
        assert(exists|i: u64|
            sender.channel().pending()[0] == u64_be_bytes(i) && i < values@.len()) by {
            assert(sender.channel().pending()[0] == u64_be_bytes(index) && index < values@.len());
        }
    }
    let ghost spend = sender.channel().pending();
    match sender.send(values) {
        Ok(u) => u,
        Err(e) => {
            return Err(e);
        },
    };
    let ghost i0 = choose|i: u64|
        spend[0] == u64_be_bytes(i) && i < values@.len() && sender.channel().sent() == Seq::<
            Seq<u8>,
        >::empty().push(u64_be_bytes(#[trigger] values@[i as int]));
    proof {
        lemma_u64_be_bytes_injective(i0, index);
    }
    sender.conn_deliver(&mut receiver);
    proof {
        assert(receiver.channel().pending() =~= Seq::<Seq<u8>>::empty().push(
            u64_be_bytes(values@[index as int]),
        ));
        assert(receiver.channel().pending()[0] == u64_be_bytes(values@[index as int]));
        assert(exists|v: u64| receiver.channel().pending()[0] == u64_be_bytes(v)) by {
            assert(receiver.channel().pending()[0] == u64_be_bytes(values@[index as int]));
        }
    }
    let out = receiver.collect();
    proof {
        if out is Ok {
            let v = out->Ok_0;
            assert(u64_be_bytes(v) == u64_be_bytes(values@[index as int]));
            lemma_u64_be_bytes_injective(v, values@[index as int]);
        }
    }
    out
}

impl DummyOT {
    /// Delivers this side's sent blobs into the peer's queue.
    pub fn conn_deliver(&mut self, other: &mut DummyOT)
        ensures
            final(self).channel().sent() == Seq::<Seq<u8>>::empty(),
            final(self).channel().pending() == old(self).channel().pending(),
            final(other).channel().sent() == old(other).channel().sent(),
            final(other).channel().pending() == old(other).channel().pending() + old(
                self).channel().sent(),
    {
        self.conn.deliver_to(&mut other.conn);
    }
}

} // verus!
