use ot::bits::BitVec;
use ot::crypto::AesCryptoProvider;
use ot::crypto::SymmetricCryptoProvider;
use ot::comm::Duplex;
use ot::comm::empty_corruptor;
use ot::comm::empty_eavesdropper;
use ot::comm::LoopbackChannel;
use ot::comm::{loopback_round_trip, GetConn};
use ot::dummy_ot::run_dummy_ot;
use ot::dummy_ot::DummyOT;
use ot::encoding::u64_from_be_bytes;
use ot::encoding::u64_to_be_bytes;
use ot::OtError;

#[test]
fn dummy_ot_works() {
    let values: Vec<u64> = vec![36, 7, 2, 10, 6, 0];
    let mut sender = DummyOT::new(Duplex::new()).unwrap();
    let mut receiver = DummyOT::new(Duplex::new()).unwrap();
    receiver.request(3).unwrap();
    receiver.conn_deliver(&mut sender);
    sender.send(&values).unwrap();
    sender.conn_deliver(&mut receiver);
    let val = receiver.collect().unwrap();
    assert_eq!(val, 10);
}

#[test]
#[should_panic]
fn dummy_index_too_large() {
    let values: Vec<u64> = vec![36, 7, 2, 10, 6, 0];
    let mut sender = DummyOT::new(Duplex::new()).unwrap();
    let mut receiver = DummyOT::new(Duplex::new()).unwrap();
    receiver.request(6).unwrap();
    receiver.conn_deliver(&mut sender);
    let _ = sender.send(&values).unwrap();
}

#[test]
fn dummy_ot_loopback_run() {
    let values: Vec<u64> = vec![9, 8, 7, 6];
    assert_eq!(run_dummy_ot(&values, 2).unwrap(), 7);
    // the channel comes back to the caller after the transfer
    let mut released = DummyOT::new(Duplex::new()).unwrap().get_conn();
    assert_eq!(released.receive(), Err(OtError::TransportError));
}

#[test]
fn framing_round_trips_arbitrary_blobs() {
    let mut ch = LoopbackChannel::new();
    for blob in [
        Vec::new(),
        vec![0u8],
        vec![1, 2, 3, 4, 5],
        vec![0xFF; 300],
    ] {
        let got = loopback_round_trip(&mut ch, &blob).unwrap();
        assert_eq!(got, blob);
    }
}

#[test]
fn framing_reports_missing_data() {
    let mut ch = LoopbackChannel::new();
    assert_eq!(ch.receive(), Err(OtError::TransportError));
    ch.send(&vec![1, 2, 3]).unwrap();
    assert_eq!(ch.receive().unwrap(), vec![1, 2, 3]);
    assert_eq!(ch.receive(), Err(OtError::TransportError));
}

#[test]
fn big_endian_encoding_exact_bytes() {
    assert_eq!(
        u64_to_be_bytes(0x0102030405060708),
        vec![1, 2, 3, 4, 5, 6, 7, 8]
    );
    assert_eq!(u64_to_be_bytes(0), vec![0; 8]);
    assert_eq!(
        u64_from_be_bytes(&vec![0, 0, 0, 0, 0, 0, 1, 44]),
        300
    );
    assert_eq!(u64_from_be_bytes(&u64_to_be_bytes(u64::MAX)), u64::MAX);
}

#[test]
fn bit_packing_round_trips() {
    // the bit at position i lives in byte i / 8, MSB first
    let bytes: Vec<u8> = vec![0b1010_0001, 0b0100_0000];
    let bv = BitVec::from_bytes(&bytes);
    assert_eq!(bv.len(), 16);
    assert!(bv.get(0));
    assert!(!bv.get(1));
    assert!(bv.get(2));
    assert!(bv.get(7));
    assert!(bv.get(9));
    assert_eq!(bv.to_bytes(), bytes);

    let mut odd = BitVec::from_bools(vec![true, false, true]);
    assert_eq!(odd.to_bytes(), vec![0b1010_0000]);
    odd.truncate(2);
    assert_eq!(odd.to_bytes(), vec![0b1000_0000]);

    let a = BitVec::from_bools(vec![true, true, false]);
    let b = BitVec::from_bools(vec![true, false, false]);
    let x = a.xor(&b);
    assert!(!x.get(0));
    assert!(x.get(1));
    assert!(!x.get(2));
}

#[test]
fn aes_ciphertext_grows_by_tag() {
    let key = vec![7u8; 32];
    let mut enc = AesCryptoProvider::default();
    let ct = enc.encrypt(&key, b"sixteen tag test".to_vec()).unwrap();
    assert_eq!(ct.len(), 16 + 16);
    let mut dec = AesCryptoProvider::default();
    assert_eq!(dec.decrypt(&key, ct).unwrap(), b"sixteen tag test".to_vec());
    let empty = enc.encrypt(&key, Vec::new()).unwrap();
    assert_eq!(empty.len(), 16);
}

#[test]
fn observer_hooks_change_nothing() {
    let mut state: u8 = 0;
    let mut data = vec![1, 2, 3];
    empty_corruptor(&mut state, &mut data);
    assert_eq!(data, vec![1, 2, 3]);
    empty_eavesdropper(&mut state, &data);
    assert_eq!(state, 0);
}

#[test]
fn rng_draws_requested_lengths() {
    let mut rng = ot::rng::OtRng::from_seed(42);
    assert_eq!(rng.fill(0).len(), 0);
    assert_eq!(rng.fill(17).len(), 17);
    let a = ot::rng::OtRng::from_seed(1).fill(8);
    let b = ot::rng::OtRng::from_seed(2).fill(8);
    assert_ne!(a, b);
}

#[test]
fn duplex_preserves_order() {
    let mut a = Duplex::new();
    let mut b = Duplex::new();
    a.send(vec![1]).unwrap();
    a.send(vec![2, 2]).unwrap();
    a.deliver_to(&mut b);
    assert_eq!(b.receive().unwrap(), vec![1]);
    assert_eq!(b.receive().unwrap(), vec![2, 2]);
    assert_eq!(b.receive(), Err(OtError::TransportError));
}
