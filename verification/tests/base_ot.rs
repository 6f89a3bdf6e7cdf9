use ot::chou::run_base_ot;
use ot::chou::wire_point_is_masked;
use ot::chou::ChouOrlandiOTReceiver;
use ot::chou::ChouOrlandiOTSender;
use ot::comm::Duplex;
use ot::crypto::AesCryptoProvider;
use ot::crypto::DummyCryptoProvider;
use ot::digest::SHA3_256;
use ot::rng::OtRng;
use ot::OtError;

fn random_values(rng: &mut OtRng, n: usize, len: usize) -> Vec<Vec<u8>> {
    let mut out = Vec::new();
    for _ in 0..n {
        out.push(rng.fill(len));
    }
    out
}

#[test]
fn chou_ot_key_exchange() {
    let index: usize = 3;
    let mut sender = ChouOrlandiOTSender::new(
        Duplex::new(),
        SHA3_256::new(),
        DummyCryptoProvider::default(),
        OtRng::from_entropy(),
    )
    .unwrap();
    let mut rconn = Duplex::new();
    sender.channel_mut().deliver_to(&mut rconn);
    let mut receiver = ChouOrlandiOTReceiver::new(
        rconn,
        SHA3_256::new(),
        DummyCryptoProvider::default(),
        OtRng::from_entropy(),
    )
    .unwrap();
    let key = receiver.compute_key(index as u64).unwrap();
    receiver.channel_mut().deliver_to(sender.channel_mut());
    let keys = sender.compute_keys(10).unwrap();
    assert_eq!(keys[index], key);
}

#[test]
fn chou_ot_key_exchange_multiple() {
    let indices: [u64; 5] = [5, 0, 9, 3, 7];
    let mut sender = ChouOrlandiOTSender::new(
        Duplex::new(),
        SHA3_256::new(),
        DummyCryptoProvider::default(),
        OtRng::from_entropy(),
    )
    .unwrap();
    let mut rconn = Duplex::new();
    sender.channel_mut().deliver_to(&mut rconn);
    let mut receiver = ChouOrlandiOTReceiver::new(
        rconn,
        SHA3_256::new(),
        DummyCryptoProvider::default(),
        OtRng::from_entropy(),
    )
    .unwrap();
    for &i in indices.iter() {
        let key = receiver.compute_key(i).unwrap();
        receiver.channel_mut().deliver_to(sender.channel_mut());
        let keys = sender.compute_keys(10).unwrap();
        assert_eq!(keys[i as usize], key);
    }
}

#[test]
fn chou_ot_key_exchange_c0() {
    // with c == 0 a poorly masked R would be torsion free and leak the
    // choice; the wire point must never be torsion free
    let mut sender = ChouOrlandiOTSender::new(
        Duplex::new(),
        SHA3_256::new(),
        DummyCryptoProvider::default(),
        OtRng::from_entropy(),
    )
    .unwrap();
    let mut rconn = Duplex::new();
    sender.channel_mut().deliver_to(&mut rconn);
    let mut receiver = ChouOrlandiOTReceiver::new(
        rconn,
        SHA3_256::new(),
        DummyCryptoProvider::default(),
        OtRng::from_entropy(),
    )
    .unwrap();
    let key = receiver.compute_key(0).unwrap();
    let wire = receiver.channel_mut().take_outgoing();
    assert_eq!(wire.len(), 1);
    assert_eq!(wire[0].len(), 32);
    assert!(wire_point_is_masked(&wire[0]).unwrap());
    sender.channel_mut().push_incoming(wire[0].clone());
    let keys = sender.compute_keys(10).unwrap();
    assert_eq!(keys[0], key);
}

#[test]
fn base_ot_keys_differ_off_choice() {
    let index: usize = 4;
    let mut sender = ChouOrlandiOTSender::new(
        Duplex::new(),
        SHA3_256::new(),
        DummyCryptoProvider::default(),
        OtRng::from_entropy(),
    )
    .unwrap();
    let mut rconn = Duplex::new();
    sender.channel_mut().deliver_to(&mut rconn);
    let mut receiver = ChouOrlandiOTReceiver::new(
        rconn,
        SHA3_256::new(),
        DummyCryptoProvider::default(),
        OtRng::from_entropy(),
    )
    .unwrap();
    let key = receiver.compute_key(index as u64).unwrap();
    receiver.channel_mut().deliver_to(sender.channel_mut());
    let keys = sender.compute_keys(10).unwrap();
    for (j, k) in keys.iter().enumerate() {
        if j == index {
            assert_eq!(*k, key);
        } else {
            assert_ne!(*k, key);
        }
    }
}

#[test]
fn base_ot_minimal_two_values() {
    let values: Vec<Vec<u8>> = vec![b"hello!".to_vec(), b"world!".to_vec()];
    let got = run_base_ot(
        &values,
        1,
        AesCryptoProvider::default(),
        AesCryptoProvider::default(),
        OtRng::from_entropy(),
        OtRng::from_entropy(),
    )
    .unwrap();
    assert_eq!(got, b"world!".to_vec());
}

#[test]
fn base_ot_larger_batch() {
    let mut rng = OtRng::from_seed(7);
    let values = random_values(&mut rng, 10, 64);
    let got = run_base_ot(
        &values,
        3,
        AesCryptoProvider::default(),
        AesCryptoProvider::default(),
        OtRng::from_seed(11),
        OtRng::from_seed(13),
    )
    .unwrap();
    assert_eq!(got, values[3]);
}

#[test]
fn full_exchange_with_dummy_cipher() {
    let mut rng = OtRng::from_entropy();
    let values = random_values(&mut rng, 10, 512);
    for c in [0usize, 4, 9] {
        let got = run_base_ot(
            &values,
            c,
            DummyCryptoProvider::default(),
            DummyCryptoProvider::default(),
            OtRng::from_entropy(),
            OtRng::from_entropy(),
        )
        .unwrap();
        assert_eq!(got, values[c]);
    }
}

#[test]
fn tampered_ciphertext_is_rejected() {
    // flipping any byte of a base-OT ciphertext must fail authentication
    let values: Vec<Vec<u8>> = vec![b"first!".to_vec(), b"second".to_vec()];
    let mut sender = ChouOrlandiOTSender::new(
        Duplex::new(),
        SHA3_256::new(),
        AesCryptoProvider::default(),
        OtRng::from_entropy(),
    )
    .unwrap();
    let mut rconn = Duplex::new();
    sender.channel_mut().deliver_to(&mut rconn);
    let mut receiver = ChouOrlandiOTReceiver::new(
        rconn,
        SHA3_256::new(),
        AesCryptoProvider::default(),
        OtRng::from_entropy(),
    )
    .unwrap();
    let key = receiver.compute_key(0).unwrap();
    receiver.channel_mut().deliver_to(sender.channel_mut());
    sender.send_values(&values).unwrap();
    let mut blobs = sender.channel_mut().take_outgoing();
    blobs[0][3] ^= 0x10;
    for b in blobs {
        receiver.channel_mut().push_incoming(b);
    }
    let got = receiver.receive_ciphertexts(&key, 0, 2);
    assert_eq!(got, Err(OtError::CryptoError));
}

#[test]
fn receive_rejects_index_out_of_range() {
    let mut sender = ChouOrlandiOTSender::new(
        Duplex::new(),
        SHA3_256::new(),
        DummyCryptoProvider::default(),
        OtRng::from_entropy(),
    )
    .unwrap();
    let mut rconn = Duplex::new();
    sender.channel_mut().deliver_to(&mut rconn);
    let mut receiver = ChouOrlandiOTReceiver::new(
        rconn,
        SHA3_256::new(),
        DummyCryptoProvider::default(),
        OtRng::from_entropy(),
    )
    .unwrap();
    let key = receiver.compute_key(2).unwrap();
    let got = receiver.receive_ciphertexts(&key, 5, 3);
    assert_eq!(got, Err(OtError::ProtocolError));
}

#[test]
fn malformed_point_is_rejected() {
    // a wrong-length wire blob aborts with a point error
    let mut conn = Duplex::new();
    conn.push_incoming(vec![1, 2, 3]);
    let r = ChouOrlandiOTReceiver::new(
        conn,
        SHA3_256::new(),
        DummyCryptoProvider::default(),
        OtRng::from_entropy(),
    );
    assert!(matches!(r, Err(OtError::PointError)));
}

#[test]
fn empty_channel_is_a_transport_error() {
    let r = ChouOrlandiOTReceiver::new(
        Duplex::new(),
        SHA3_256::new(),
        DummyCryptoProvider::default(),
        OtRng::from_entropy(),
    );
    assert!(matches!(r, Err(OtError::TransportError)));
}
