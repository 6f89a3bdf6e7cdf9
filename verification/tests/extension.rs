use ot::bits::BitVec;
use ot::chou::ChouOrlandiOTReceiver;
use ot::chou::ChouOrlandiOTSender;
use ot::comm::Duplex;
use ot::comm::GetConn;
use ot::crypto::AesCryptoProvider;
use ot::digest::SHA3_256;
use ot::iknp::run_iknp;
use ot::iknp::setup_extension_pair;
use ot::iknp::IKNPExtendedOTReceiver;
use ot::iknp::IKNPExtendedOTSender;
use ot::rng::OtRng;

fn random_pairs(rng: &mut OtRng, n: usize, len: usize) -> Vec<(Vec<u8>, Vec<u8>)> {
    let mut out = Vec::new();
    for _ in 0..n {
        out.push((rng.fill(len), rng.fill(len)));
    }
    out
}

fn random_choices(rng: &mut OtRng, n: usize) -> BitVec {
    let mut bits = Vec::new();
    for _ in 0..n {
        bits.push(rng.coin());
    }
    BitVec::from_bools(bits)
}

fn check_outputs(values: &[(Vec<u8>, Vec<u8>)], choices: &BitVec, outputs: &[Vec<u8>]) {
    assert_eq!(outputs.len(), values.len());
    for (j, out) in outputs.iter().enumerate() {
        if choices.get(j) {
            assert_eq!(*out, values[j].1, "values differ at position {}", j);
        } else {
            assert_eq!(*out, values[j].0, "values differ at position {}", j);
        }
    }
}

#[test]
fn iknp_test() {
    let len = 100;
    let n = 200;
    let security_param = 16;
    let mut rng = OtRng::from_entropy();
    let choices = random_choices(&mut rng, len);
    let values = random_pairs(&mut rng, len, n);
    let outputs = run_iknp(
        &values,
        &choices,
        security_param,
        AesCryptoProvider::default(),
        AesCryptoProvider::default(),
        OtRng::from_entropy(),
        OtRng::from_entropy(),
        OtRng::from_entropy(),
        OtRng::from_entropy(),
    )
    .unwrap();
    check_outputs(&values, &choices, &outputs);
}

#[test]
fn iknp_small_fixed_choices() {
    let values: Vec<(Vec<u8>, Vec<u8>)> = vec![
        (b"alpha".to_vec(), b"bravo".to_vec()),
        (b"clash".to_vec(), b"delta".to_vec()),
        (b"eagle".to_vec(), b"flock".to_vec()),
        (b"grain".to_vec(), b"hedge".to_vec()),
        (b"inlet".to_vec(), b"joker".to_vec()),
    ];
    let choices = BitVec::from_bools(vec![true, false, true, true, false]);
    let outputs = run_iknp(
        &values,
        &choices,
        16,
        AesCryptoProvider::default(),
        AesCryptoProvider::default(),
        OtRng::from_seed(1),
        OtRng::from_seed(2),
        OtRng::from_seed(3),
        OtRng::from_seed(4),
    )
    .unwrap();
    assert_eq!(outputs[0], b"bravo".to_vec());
    assert_eq!(outputs[1], b"clash".to_vec());
    assert_eq!(outputs[2], b"flock".to_vec());
    assert_eq!(outputs[3], b"hedge".to_vec());
    assert_eq!(outputs[4], b"inlet".to_vec());
}

#[test]
fn iknp_wide_batch() {
    let mut rng = OtRng::from_seed(99);
    let values = random_pairs(&mut rng, 1000, 64);
    let choices = random_choices(&mut rng, 1000);
    let outputs = run_iknp(
        &values,
        &choices,
        16,
        AesCryptoProvider::default(),
        AesCryptoProvider::default(),
        OtRng::from_seed(5),
        OtRng::from_seed(6),
        OtRng::from_seed(7),
        OtRng::from_seed(8),
    )
    .unwrap();
    check_outputs(&values, &choices, &outputs);
}

#[test]
fn iknp_stepped_transfer() {
    // the transfer phase driven step by step over in-memory channels
    let mut rng = OtRng::from_entropy();
    let values = random_pairs(&mut rng, 40, 24);
    let choices = random_choices(&mut rng, 40);
    let (mut ext_r, mut ext_s) = setup_extension_pair(
        8,
        AesCryptoProvider::default(),
        AesCryptoProvider::default(),
        OtRng::from_entropy(),
        OtRng::from_entropy(),
        OtRng::from_entropy(),
        OtRng::from_entropy(),
    )
    .unwrap();
    ext_r.send_masks(&choices).unwrap();
    ext_r.conn.deliver_to(&mut ext_s.conn);
    ext_s.send(&values).unwrap();
    ext_s.conn.deliver_to(&mut ext_r.conn);
    let outputs = ext_r.receive_outputs(&choices).unwrap();
    check_outputs(&values, &choices, &outputs);
}

#[test]
fn crosswise_composition_reuses_transport() {
    // a full extension transfer, then the released channels host a fresh
    // base exchange with the roles crossed
    let mut rng = OtRng::from_entropy();
    let values = random_pairs(&mut rng, 10, 16);
    let choices = random_choices(&mut rng, 10);
    let (mut ext_r, mut ext_s) = setup_extension_pair(
        8,
        AesCryptoProvider::default(),
        AesCryptoProvider::default(),
        OtRng::from_entropy(),
        OtRng::from_entropy(),
        OtRng::from_entropy(),
        OtRng::from_entropy(),
    )
    .unwrap();
    ext_r.send_masks(&choices).unwrap();
    ext_r.conn.deliver_to(&mut ext_s.conn);
    ext_s.send(&values).unwrap();
    ext_s.conn.deliver_to(&mut ext_r.conn);
    let outputs = ext_r.receive_outputs(&choices).unwrap();
    check_outputs(&values, &choices, &outputs);

    // hand the transports back and run the opposite roles over them
    let conn_a = ext_r.get_conn();
    let conn_b = ext_s.get_conn();
    let mut sender2 = ChouOrlandiOTSender::new(
        conn_b,
        SHA3_256::new(),
        AesCryptoProvider::default(),
        OtRng::from_entropy(),
    )
    .unwrap();
    let mut rconn = conn_a;
    sender2.channel_mut().deliver_to(&mut rconn);
    let mut receiver2 = ChouOrlandiOTReceiver::new(
        rconn,
        SHA3_256::new(),
        AesCryptoProvider::default(),
        OtRng::from_entropy(),
    )
    .unwrap();
    let key = receiver2.compute_key(1).unwrap();
    receiver2.channel_mut().deliver_to(sender2.channel_mut());
    let second: Vec<Vec<u8>> = vec![b"left".to_vec(), b"right".to_vec()];
    sender2.send_values(&second).unwrap();
    sender2.channel_mut().deliver_to(receiver2.channel_mut());
    let got = receiver2.receive_ciphertexts(&key, 1, 2).unwrap();
    assert_eq!(got, b"right".to_vec());
}

#[test]
fn extension_setup_round_trips_seeds() {
    // building the pair through the staged constructors directly
    let mut chou_s = ChouOrlandiOTSender::new(
        Duplex::new(),
        SHA3_256::new(),
        AesCryptoProvider::default(),
        OtRng::from_entropy(),
    )
    .unwrap();
    let mut rconn = Duplex::new();
    chou_s.channel_mut().deliver_to(&mut rconn);
    let chou_r = ChouOrlandiOTReceiver::new(
        rconn,
        SHA3_256::new(),
        AesCryptoProvider::default(),
        OtRng::from_entropy(),
    )
    .unwrap();
    let mut setup =
        IKNPExtendedOTSender::begin(SHA3_256::new(), chou_r, OtRng::from_entropy(), 8).unwrap();
    setup.channel_of_base().deliver_to(chou_s.channel_mut());
    let ext_r =
        IKNPExtendedOTReceiver::new(SHA3_256::new(), chou_s, OtRng::from_entropy(), 8).unwrap();
    let mut ext_r = ext_r;
    ext_r.conn.deliver_to(setup.channel_of_base());
    let ext_s = IKNPExtendedOTSender::finish(setup).unwrap();
    assert_eq!(ext_s.seed_count(), 64);
    drop(ext_r);
}
