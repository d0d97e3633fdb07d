use gk_authenticator::otp::dynamic_binary_code;
use gk_authenticator::Algorithm;
use gk_authenticator::Otp;
use gk_authenticator::OtpError;

fn rfc_secret_base32() -> String {
    data_encoding::BASE32_NOPAD.encode(b"12345678901234567890")
}

#[test]
fn rfc4226_vectors_sha1_length6() {
    let key = rfc_secret_base32();
    let expected = [
        "755224", "287082", "359152", "969429", "338314", "254676", "287922", "162583", "399871",
        "520489",
    ];
    for (counter, want) in expected.iter().enumerate() {
        let otp = Otp::new(&key, Algorithm::Sha1, false, Some(counter as u64), 6).unwrap();
        assert_eq!(otp.generate(), *want);
    }
}

#[test]
fn generate_is_deterministic_for_fixed_inputs() {
    let key = rfc_secret_base32();
    let otp = Otp::new(&key, Algorithm::Sha256, false, Some(42), 8).unwrap();
    let first = otp.generate();
    let second = otp.generate();
    assert_eq!(first, second);
}

#[test]
fn output_is_exactly_length_digits_zero_padded() {
    let key = rfc_secret_base32();
    for length in 1..=9usize {
        for alg in [Algorithm::Sha1, Algorithm::Sha256, Algorithm::Sha384, Algorithm::Sha512] {
            let otp = Otp::new(&key, alg, false, Some(7), length).unwrap();
            let code = otp.generate();
            assert_eq!(code.len(), length);
            assert!(code.chars().all(|c| c.is_ascii_digit()));
        }
    }
}

#[test]
fn totp_output_has_requested_shape() {
    let key = rfc_secret_base32();
    let otp = Otp::new(&key, Algorithm::Sha1, true, None, 6).unwrap();
    let code = otp.generate();
    assert_eq!(code.len(), 6);
    assert!(code.chars().all(|c| c.is_ascii_digit()));
}

#[test]
fn truncation_of_documented_digest() {
    // The HMAC-SHA-1 example digest from the HOTP specification: last byte
    // 0x5a selects offset 10, the four bytes there read 0x50ef7f19, and the
    // six-digit code is 872921.
    let tag: [u8; 20] = [
        0x1f, 0x86, 0x98, 0x69, 0x0e, 0x02, 0xca, 0x16, 0x61, 0x85, 0x50, 0xef, 0x7f, 0x19, 0xda,
        0x8e, 0x94, 0x5b, 0x55, 0x5a,
    ];
    assert_eq!(dynamic_binary_code(&tag), 0x50ef7f19);
    let key = rfc_secret_base32();
    let otp = Otp::new(&key, Algorithm::Sha1, false, Some(0), 6).unwrap();
    assert_eq!(otp.compute(&tag), "872921");
}

#[test]
fn time_window_is_thirty_seconds() {
    assert_eq!(gk_authenticator::otp::time_window(0), 0);
    assert_eq!(gk_authenticator::otp::time_window(29), 0);
    assert_eq!(gk_authenticator::otp::time_window(30), 1);
    assert_eq!(gk_authenticator::otp::time_window(59), 1);
    assert_eq!(gk_authenticator::otp::time_window(60), 2);
    assert_eq!(gk_authenticator::otp::time_window(u64::MAX), u64::MAX / 30);
}

#[test]
fn invalid_base32_key_is_rejected() {
    let r = Otp::new("not base32!", Algorithm::Sha1, false, Some(0), 6);
    assert!(matches!(r, Err(OtpError::InvalidKey)));
}

#[test]
fn missing_counter_reads_as_zero() {
    let key = rfc_secret_base32();
    let with_zero = Otp::new(&key, Algorithm::Sha1, false, Some(0), 6).unwrap();
    let with_none = Otp::new(&key, Algorithm::Sha1, false, None, 6).unwrap();
    assert_eq!(with_zero.generate(), with_none.generate());
}

#[test]
fn key_format_check_folds_case_and_validates() {
    let folded = gk_authenticator::codec::is_base32_key("mfrgg").unwrap();
    assert_eq!(folded, "MFRGG");
    let bad = gk_authenticator::codec::is_base32_key("0189");
    assert!(matches!(bad, Err(OtpError::InvalidKey)));
}
