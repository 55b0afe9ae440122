use garnet::reloadkey::{
    derive_actor_id, generate_keypair, signing_key_from_hex, ReloadAuth, ReloadReplayGuard,
    RELOAD_SIGNATURE_MAGIC,
};

#[test]
fn sign_and_verify_roundtrip() {
    let (sk, vk) = generate_keypair();
    let auth = ReloadAuth {
        actor_id: [1u8; 32],
        target_version: 7,
        allow_downgrade: false,
        sequence: 100,
    };
    let sig = auth.sign(&sk);
    assert!(auth.verify(&vk, &sig));
}

#[test]
fn wrong_key_rejects_signature() {
    let (sk1, _) = generate_keypair();
    let (_, vk2) = generate_keypair();
    let auth = ReloadAuth {
        actor_id: [1u8; 32],
        target_version: 7,
        allow_downgrade: false,
        sequence: 100,
    };
    let sig = auth.sign(&sk1);
    assert!(!auth.verify(&vk2, &sig));
}

#[test]
fn modified_version_breaks_signature() {
    let (sk, vk) = generate_keypair();
    let auth = ReloadAuth {
        actor_id: [1u8; 32],
        target_version: 7,
        allow_downgrade: false,
        sequence: 100,
    };
    let sig = auth.sign(&sk);
    let tampered = ReloadAuth {
        target_version: 8,
        ..auth
    };
    assert!(!tampered.verify(&vk, &sig));
}

#[test]
fn modified_downgrade_flag_breaks_signature() {
    let (sk, vk) = generate_keypair();
    let auth = ReloadAuth {
        actor_id: [1u8; 32],
        target_version: 7,
        allow_downgrade: false,
        sequence: 100,
    };
    let sig = auth.sign(&sk);
    let tampered = ReloadAuth {
        allow_downgrade: true,
        ..auth
    };
    assert!(!tampered.verify(&vk, &sig));
}

#[test]
fn modified_actor_id_breaks_signature() {
    let (sk, vk) = generate_keypair();
    let auth = ReloadAuth {
        actor_id: [1u8; 32],
        target_version: 7,
        allow_downgrade: false,
        sequence: 100,
    };
    let sig = auth.sign(&sk);
    let tampered = ReloadAuth {
        actor_id: [2u8; 32],
        ..auth
    };
    assert!(!tampered.verify(&vk, &sig));
}

#[test]
fn modified_sequence_breaks_signature() {
    let (sk, vk) = generate_keypair();
    let auth = ReloadAuth {
        actor_id: [1u8; 32],
        target_version: 7,
        allow_downgrade: false,
        sequence: 100,
    };
    let sig = auth.sign(&sk);
    let tampered = ReloadAuth {
        sequence: 101,
        ..auth
    };
    assert!(!tampered.verify(&vk, &sig));
}

#[test]
fn signing_bytes_are_canonical_and_stable() {
    let auth = ReloadAuth {
        actor_id: [7u8; 32],
        target_version: 42,
        allow_downgrade: true,
        sequence: 9999,
    };
    let a = auth.to_signing_bytes();
    let b = auth.to_signing_bytes();
    assert_eq!(a, b);
    assert_eq!(a.len(), RELOAD_SIGNATURE_MAGIC.len() + 32 + 4 + 1 + 8);
    assert!(a.starts_with(&RELOAD_SIGNATURE_MAGIC));
}

#[test]
fn replay_guard_rejects_repeats() {
    let mut g = ReloadReplayGuard::default();
    assert!(g.check_and_record(1).is_ok());
    assert!(g.check_and_record(2).is_ok());
    assert!(g.check_and_record(2).is_err());
    assert!(g.check_and_record(1).is_err());
    assert!(g.check_and_record(100).is_ok());
    assert!(g.check_and_record(50).is_err());
}

#[test]
fn derive_actor_id_is_stable() {
    let a = derive_actor_id(b"seed-one");
    let b = derive_actor_id(b"seed-one");
    let c = derive_actor_id(b"seed-two");
    assert_eq!(a, b);
    assert_ne!(a, c);
}

#[test]
fn signing_key_from_hex_roundtrip() {
    let (sk, _) = generate_keypair();
    let bytes = sk.to_bytes();
    let hex: String = bytes.iter().map(|b| format!("{b:02x}")).collect();
    let sk2 = signing_key_from_hex(&hex).unwrap();
    assert_eq!(sk.to_bytes(), sk2.to_bytes());
}

#[test]
fn signing_key_from_malformed_hex_rejected() {
    assert!(signing_key_from_hex("not-hex").is_err());
    assert!(signing_key_from_hex("ff").is_err());
}

#[test]
fn signing_bytes_layout_is_little_endian_after_the_magic() {
    let auth = ReloadAuth {
        actor_id: [3u8; 32],
        target_version: 0x0102_0304,
        allow_downgrade: false,
        sequence: 0x0A0B_0C0D_0E0F_1011,
    };
    let a = auth.to_signing_bytes();
    assert_eq!(&a[..16], b"garnet-reload-v1");
    assert_eq!(&a[16..48], &[3u8; 32]);
    assert_eq!(&a[48..52], &[0x04, 0x03, 0x02, 0x01]);
    assert_eq!(a[52], 0);
    assert_eq!(&a[53..61], &[0x11, 0x10, 0x0F, 0x0E, 0x0D, 0x0C, 0x0B, 0x0A]);
}

#[test]
fn derive_actor_id_is_blake3_of_the_domain_and_the_seed() {
    let mut data = b"garnet-actor-id-v1".to_vec();
    data.extend_from_slice(b"seed-one");
    assert_eq!(derive_actor_id(b"seed-one"), *blake3::hash(&data).as_bytes());
}

#[test]
fn hex_key_errors_name_the_cause() {
    let err = signing_key_from_hex("ff").unwrap_err();
    assert_eq!(err, "ed25519 secret key hex must be 64 chars, got 2");
    let mut bad = "00".repeat(32);
    bad.replace_range(6..8, "zz");
    let err = signing_key_from_hex(&bad).unwrap_err();
    assert_eq!(err, "invalid hex at byte 3: invalid digit found in string");
    // a leading '+' is accepted by the radix parser on a two-digit window
    let plus = format!("+f{}", "00".repeat(31));
    assert_eq!(signing_key_from_hex(&plus).unwrap().to_bytes()[0], 0x0f);
    let upper = "AB".repeat(32);
    assert_eq!(signing_key_from_hex(&upper).unwrap().to_bytes(), [0xABu8; 32]);
}

#[test]
fn replay_guard_reports_the_conflict() {
    let mut g = ReloadReplayGuard::default();
    assert_eq!(g.check_and_record(5), Ok(()));
    assert_eq!(g.check_and_record(3), Err((5, 3)));
    assert_eq!(g.check_and_record(5), Err((5, 5)));
    assert_eq!(g.check_and_record(6), Ok(()));
}

#[test]
fn verifying_key_matches_the_signing_key_and_survives_bytes() {
    let (sk, vk) = generate_keypair();
    assert_eq!(sk.verifying_key(), vk);
    let auth = ReloadAuth {
        actor_id: [9u8; 32],
        target_version: 1,
        allow_downgrade: false,
        sequence: 1,
    };
    let sig = auth.sign(&sk);
    let vk2 = garnet::reloadkey::VerifyingKey::from_bytes(&vk.to_bytes());
    let sig2 = garnet::reloadkey::Signature::from_bytes(&sig.to_bytes());
    assert!(auth.verify(&vk2, &sig2));
}
