use k256::elliptic_curve::ops::Reduce;
use zkgc::byteops::xor_bytes;
use zkgc::ot::{
    add_points, bytes_to_point, generate_scalar, get_generator, hash_point, mul_point,
    point_to_bytes, sub_points, OtReceiver, OtSender,
};
use zkgc::rng::generate_random_seed;

#[test]
fn test_utils() {
    // point serialization round trip
    let g = get_generator();
    let g_bytes = point_to_bytes(&g);
    let g_recovered = bytes_to_point(&g_bytes).expect("Failed to deserialize point");
    assert_eq!(g, g_recovered);

    // scalar multiplication distributes over point addition
    let a = generate_scalar();
    let b = generate_scalar();
    let a_g = mul_point(&g, &a);
    let b_g = mul_point(&g, &b);
    let sum = add_points(&a_g, &b_g);
    let a_s = <k256::Scalar as Reduce<k256::U256>>::reduce_bytes(k256::FieldBytes::from_slice(&a));
    let b_s = <k256::Scalar as Reduce<k256::U256>>::reduce_bytes(k256::FieldBytes::from_slice(&b));
    let ab = (a_s + b_s).to_bytes().to_vec();
    let expected_sum = mul_point(&g, &ab);
    assert_eq!(sum, expected_sum);

    // point subtraction undoes addition
    let diff = sub_points(&sum, &a_g);
    assert_eq!(diff, b_g);

    // the key derivation separates message indices
    let seed = generate_random_seed();
    let hash1 = hash_point(&g, &seed, 0);
    let hash2 = hash_point(&g, &seed, 1);
    assert_ne!(hash1, hash2);
}

/// One full OT exchange without a network: the receiver with choice bit 1
/// recovers exactly the second message.
#[test]
fn test_simplest_ot_choice_one() {
    let sender = OtSender::new();
    let (a_bytes, comm) = sender.step1_init_message();

    let receiver = OtReceiver::new(1);
    let a_point = bytes_to_point(&a_bytes).expect("sender's point must be valid");
    let b_point = receiver.step2_send_b(&a_point);

    let (k0, k1) = sender.step3_derive_keys(&b_point).expect("receiver's point must be valid");
    let seed = sender.step4_open_seed();
    assert!(receiver.step3_verify_seed(&seed, &comm));

    let k = receiver.step4_derive_key(&a_point);
    let receiver_pad = receiver.step5_derive_message(&k, &seed);
    let (pad0, pad1) = sender.step5_derive_messages(&k0, &k1);

    // the curve guarantees r·A = a·B − a·A for choice 1
    assert_eq!(receiver_pad, pad1);

    let m0 = b"Message 0".to_vec();
    let m1 = b"Message 1".to_vec();
    let c0 = xor_bytes(&m0, &pad0);
    let c1 = xor_bytes(&m1, &pad1);

    let recovered = xor_bytes(&c1, &receiver_pad);
    assert_eq!(recovered, m1);

    // the other ciphertext does not decrypt under the receiver's pad
    let wrong = xor_bytes(&c0, &receiver_pad);
    assert_ne!(wrong, m0);
}

#[test]
fn test_simplest_ot_choice_zero() {
    let sender = OtSender::new();
    let (a_bytes, comm) = sender.step1_init_message();

    let receiver = OtReceiver::new(0);
    let a_point = bytes_to_point(&a_bytes).unwrap();
    let b_point = receiver.step2_send_b(&a_point);

    let (k0, _k1) = sender.step3_derive_keys(&b_point).unwrap();
    let seed = sender.step4_open_seed();
    assert!(receiver.step3_verify_seed(&seed, &comm));

    let k = receiver.step4_derive_key(&a_point);
    let receiver_pad = receiver.step5_derive_message(&k, &seed);
    let (pad0, _pad1) = sender.step5_derive_messages(&k0, &_k1);
    assert_eq!(receiver_pad, pad0);

    let m0 = b"Message 0".to_vec();
    let c0 = xor_bytes(&m0, &pad0);
    assert_eq!(xor_bytes(&c0, &receiver_pad), m0);
}

/// A seed that does not hash to the commitment is refused.
#[test]
fn test_ot_bad_seed_rejected() {
    let sender = OtSender::new();
    let (_a_bytes, comm) = sender.step1_init_message();
    let receiver = OtReceiver::new(1);
    let mut bad_seed = sender.step4_open_seed();
    bad_seed[0] ^= 0xff;
    assert!(!receiver.step3_verify_seed(&bad_seed, &comm));
}

#[test]
fn test_invalid_point_rejected() {
    let garbage = vec![0x05u8; 33];
    assert!(bytes_to_point(&garbage).is_none());
    let sender = OtSender::new();
    assert!(sender.step3_derive_keys(&garbage).is_none());
}
