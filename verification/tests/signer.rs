use edge_lb::signer::{dingtalk_sign, feishu_sign, hex_encode, hmac_sha256_hex, millis_from_secs};

#[test]
fn hmac_hex_len() {
    assert_eq!(hmac_sha256_hex("k", b"body").len(), 64);
}

#[test]
fn hmac_matches_the_rfc_4231_vector() {
    // RFC 4231 test case 2.
    assert_eq!(
        hmac_sha256_hex("Jefe", b"what do ya want for nothing?"),
        "5bdcc146bf60754e6a042426089575c75a003f089d2739839dec58b964ec3843"
    );
}

#[test]
fn hex_is_lower_case_two_digits_per_byte() {
    assert_eq!(hex_encode(&[0x00, 0x0f, 0xab]), "000fab");
}

#[test]
fn signatures_are_base64_and_differ_by_scheme() {
    let d = dingtalk_sign(1_700_000_000_000, "secret");
    let f = feishu_sign(1_700_000_000, "secret");
    assert!(!d.is_empty() && !f.is_empty());
    assert_ne!(d, f);
    assert!(!d.contains('+') && !d.contains('/'));
}

#[test]
fn millis_are_thousand_times_seconds() {
    assert_eq!(millis_from_secs(2), 2_000);
}
