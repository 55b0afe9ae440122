use garnet::statecert::{check_fingerprint, FingerprintMismatch, TypeFingerprint};

/// The fingerprint of a type with this name, sized and aligned like `T`.
fn fingerprint_of<T: 'static>(name: &str) -> TypeFingerprint {
    TypeFingerprint::from_parts(
        name.as_bytes(),
        std::mem::size_of::<T>(),
        std::mem::align_of::<T>(),
    )
}

#[test]
fn same_type_produces_same_fingerprint() {
    assert_eq!(fingerprint_of::<i64>("i64"), fingerprint_of::<i64>("i64"));
    assert_eq!(
        fingerprint_of::<(i64, String)>("(i64, String)"),
        fingerprint_of::<(i64, String)>("(i64, String)")
    );
}

#[test]
fn different_types_produce_different_fingerprints() {
    assert_ne!(fingerprint_of::<i64>("i64"), fingerprint_of::<u64>("u64"));
    assert_ne!(fingerprint_of::<i32>("i32"), fingerprint_of::<i64>("i64"));
    assert_ne!(fingerprint_of::<String>("String"), fingerprint_of::<&'static str>("&str"));
}

#[test]
fn fingerprint_hex_is_64_chars() {
    let fp = fingerprint_of::<i64>("i64");
    assert_eq!(fp.to_hex().len(), 64);
    assert!(fp.to_hex().chars().all(|c| c.is_ascii_hexdigit()));
}

#[test]
fn statecert_fingerprints_are_stable_within_a_run() {
    let first = fingerprint_of::<i64>("i64");
    let second = fingerprint_of::<i64>("i64");
    assert_eq!(first, second);
}

#[test]
fn fingerprint_is_blake3_of_name_size_and_align() {
    let name = "u32";
    let mut h = blake3::Hasher::new();
    h.update(name.as_bytes());
    h.update(&std::mem::size_of::<u32>().to_le_bytes());
    h.update(&std::mem::align_of::<u32>().to_le_bytes());
    assert_eq!(fingerprint_of::<u32>("u32").as_bytes(), h.finalize().as_bytes());
}

#[test]
fn hex_is_lowercase_two_digits_per_byte() {
    let fp = fingerprint_of::<u8>("u8");
    let expected: String = fp.as_bytes().iter().map(|b| format!("{b:02x}")).collect();
    assert_eq!(fp.to_hex(), expected);
}

#[test]
fn check_fingerprint_admits_equal_and_refuses_different() {
    let a = fingerprint_of::<i64>("i64");
    let b = fingerprint_of::<u64>("u64");
    assert_eq!(check_fingerprint(a, a), Ok(()));
    let err = check_fingerprint(a, b).unwrap_err();
    assert_eq!(err, FingerprintMismatch { expected: a, actual: b });
    assert_ne!(err.expected, err.actual);
    assert_eq!(
        err.message(),
        format!(
            "type fingerprint mismatch on hot-reload state extraction (expected {}, got {})",
            a.to_hex(),
            b.to_hex()
        )
    );
}
