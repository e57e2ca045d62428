use desktop2fa::app_error::AppError;
use desktop2fa::models::{AccountMetadata, AccountPayload};
use desktop2fa::totp_logic::{
    dynamic_truncate, format_code, generate_code, generate_code_at, normalize_otp_uri_parts,
    normalize_payload, normalize_secret, seconds_remaining, seconds_remaining_at, split_label,
    AlgorithmName,
};
use desktop2fa::trusted::UrlParts;

fn test_account(algorithm: AlgorithmName, digits: u32, period: u64) -> AccountMetadata {
    AccountMetadata {
        id: "1".into(),
        service_name: "GitHub".into(),
        issuer: Some("GitHub".into()),
        account_label: Some("user@example.com".into()),
        digits,
        period,
        algorithm,
        icon: None,
        sort_order: 0,
    }
}

fn uri_payload(uri: &str) -> AccountPayload {
    AccountPayload {
        service_name: String::new(),
        issuer: None,
        account_label: None,
        secret: None,
        digits: 6,
        period: 30,
        algorithm: AlgorithmName::SHA1,
        icon: None,
        otp_uri: Some(uri.into()),
    }
}

fn typed_payload(service: &str, secret: Option<&str>, digits: u32, period: u64) -> AccountPayload {
    AccountPayload {
        service_name: service.into(),
        issuer: Some("  Issuer  ".into()),
        account_label: Some("   ".into()),
        secret: secret.map(|s| s.into()),
        digits,
        period,
        algorithm: AlgorithmName::SHA256,
        icon: Some(" icon.png ".into()),
        otp_uri: None,
    }
}

fn validation_text(error: AppError) -> String {
    match error {
        AppError::Validation(text) => text,
        other => panic!("expected a validation error, got {:?}", other),
    }
}

#[test]
fn formats_code_for_display() {
    assert_eq!(format_code("123456"), "123 456");
}

#[test]
fn formats_odd_length_codes() {
    assert_eq!(format_code("1234567"), "123 4567");
    assert_eq!(format_code("12345678"), "1234 5678");
    assert_eq!(format_code(""), " ");
}

#[test]
fn normalizes_secret_and_rejects_invalid_base32() {
    assert_eq!(
        normalize_secret("jbsw y3dp-ehpk 3pxp").expect("secret should normalize"),
        "JBSWY3DPEHPK3PXP"
    );
    assert!(normalize_secret("not-base32!").is_err());
}

#[test]
fn normalizing_strips_padding_and_keeps_canonical_secrets() {
    assert_eq!(normalize_secret("jbswy3dpehpk3pxp====").unwrap(), "JBSWY3DPEHPK3PXP");
    assert_eq!(normalize_secret("JBSWY3DPEHPK3PXP").unwrap(), "JBSWY3DPEHPK3PXP");
    let error = normalize_secret("JBSWY3DPEHPK3PX1").unwrap_err();
    assert_eq!(validation_text(error), "Secret must be valid base32");
}

#[test]
fn parses_otp_uri() {
    let payload = uri_payload(
        "otpauth://totp/GitHub:user@example.com?secret=JBSWY3DPEHPK3PXP&issuer=GitHub",
    );

    let normalized = normalize_payload(&payload, None).expect("payload should parse");
    assert_eq!(normalized.service_name, "GitHub");
    assert_eq!(normalized.account_label.as_deref(), Some("user@example.com"));
    assert_eq!(normalized.secret.as_deref(), Some("JBSWY3DPEHPK3PXP"));
}

#[test]
fn otp_uri_reads_settings_and_decodes_label() {
    let payload = uri_payload(
        "otpauth://totp/Acme%20Co:jane%40example.com?secret=jbswy3dpehpk3pxp&digits=8&period=60&algorithm=sha512",
    );
    let normalized = normalize_payload(&payload, None).unwrap();
    assert_eq!(normalized.service_name, "Acme Co");
    assert_eq!(normalized.issuer, None);
    assert_eq!(normalized.account_label.as_deref(), Some("jane@example.com"));
    assert_eq!(normalized.secret.as_deref(), Some("JBSWY3DPEHPK3PXP"));
    assert_eq!(normalized.digits, 8);
    assert_eq!(normalized.period, 60);
    assert_eq!(normalized.algorithm, AlgorithmName::SHA512);
}

#[test]
fn otp_uri_without_issuer_is_imported_account() {
    let payload = uri_payload("otpauth://totp/alice?secret=JBSWY3DPEHPK3PXP");
    let normalized = normalize_payload(&payload, None).unwrap();
    assert_eq!(normalized.service_name, "Imported account");
    assert_eq!(normalized.account_label.as_deref(), Some("alice"));
    assert_eq!(normalized.digits, 6);
    assert_eq!(normalized.period, 30);
    assert_eq!(normalized.algorithm, AlgorithmName::SHA1);
}

#[test]
fn otp_uri_defaults_come_from_existing_account() {
    let existing = test_account(AlgorithmName::SHA256, 8, 60);
    let payload = uri_payload("otpauth://totp/alice");
    let normalized = normalize_payload(&payload, Some(&existing)).unwrap();
    assert_eq!(normalized.digits, 8);
    assert_eq!(normalized.period, 60);
    assert_eq!(normalized.algorithm, AlgorithmName::SHA256);
    assert_eq!(normalized.secret, None);
}

#[test]
fn otp_uri_errors() {
    let cases = [
        ("not a uri", "Invalid OTP URI"),
        ("https://totp/x?secret=JBSWY3DPEHPK3PXP", "OTP URI must start with otpauth://"),
        ("otpauth://hotp/x?secret=JBSWY3DPEHPK3PXP", "Only otpauth://totp URIs are supported"),
        ("otpauth://totp/%FF?secret=JBSWY3DPEHPK3PXP", "Invalid OTP URI label"),
        ("otpauth://totp/x?secret=JBSWY3DPEHPK3PXP&digits=six", "OTP URI digits must be numeric"),
        ("otpauth://totp/x?secret=JBSWY3DPEHPK3PXP&period=-1", "OTP URI period must be numeric"),
        ("otpauth://totp/x?secret=JBSWY3DPEHPK3PXP&algorithm=MD5", "Algorithm must be SHA1, SHA256, or SHA512"),
        ("otpauth://totp/x?secret=JBSWY3DPEHPK3PXP&digits=9", "Digits must be between 6 and 8"),
        ("otpauth://totp/x?secret=JBSWY3DPEHPK3PXP&period=10", "Period must be between 15 and 120 seconds"),
        ("otpauth://totp/x?secret=!!!", "Secret must be valid base32"),
    ];
    for (uri, message) in cases {
        let error = normalize_payload(&uri_payload(uri), None).unwrap_err();
        assert_eq!(validation_text(error), message, "for {}", uri);
    }
}

#[test]
fn otp_uri_numbers_accept_a_plus_sign() {
    let payload = uri_payload("otpauth://totp/x?secret=JBSWY3DPEHPK3PXP&digits=%2B7&period=045");
    let normalized = normalize_payload(&payload, None).unwrap();
    assert_eq!(normalized.digits, 7);
    assert_eq!(normalized.period, 45);
}

#[test]
fn typed_payload_is_trimmed_and_normalized() {
    let payload = typed_payload("  GitHub ", Some(" jbsw y3dp "), 6, 30);
    let normalized = normalize_payload(&payload, None).unwrap();
    assert_eq!(normalized.service_name, "GitHub");
    assert_eq!(normalized.issuer.as_deref(), Some("Issuer"));
    assert_eq!(normalized.account_label, None);
    assert_eq!(normalized.icon.as_deref(), Some("icon.png"));
    assert_eq!(normalized.secret.as_deref(), Some("JBSWY3DP"));
    assert_eq!(normalized.algorithm, AlgorithmName::SHA256);
}

#[test]
fn typed_payload_errors() {
    let cases = [
        (typed_payload("  ", Some("JBSWY3DP"), 6, 30), "Service name is required"),
        (typed_payload("x", Some("JBSWY3DP"), 5, 30), "Digits must be between 6 and 8"),
        (typed_payload("x", Some("JBSWY3DP"), 6, 121), "Period must be between 15 and 120 seconds"),
        (typed_payload("x", Some("1"), 6, 30), "Secret must be valid base32"),
        (typed_payload("x", None, 6, 30), "Secret is required"),
        (typed_payload("x", Some("   "), 6, 30), "Secret is required"),
    ];
    for (payload, message) in cases {
        assert_eq!(validation_text(normalize_payload(&payload, None).unwrap_err()), message);
    }
}

#[test]
fn edit_may_leave_the_secret_out() {
    let existing = test_account(AlgorithmName::SHA1, 6, 30);
    let normalized = normalize_payload(&typed_payload("x", None, 6, 30), Some(&existing)).unwrap();
    assert_eq!(normalized.secret, None);
}

#[test]
fn splits_labels_at_the_first_colon() {
    assert_eq!(split_label("GitHub:user@example.com"), (Some("GitHub".into()), Some("user@example.com".into())));
    assert_eq!(split_label("a:b:c"), (Some("a".into()), Some("b:c".into())));
    assert_eq!(split_label(" : x "), (None, Some("x".into())));
    assert_eq!(split_label("solo"), (None, Some("solo".into())));
    assert_eq!(split_label(""), (None, None));
}

#[test]
fn generates_codes_for_supported_algorithms() {
    for algorithm in [AlgorithmName::SHA1, AlgorithmName::SHA256, AlgorithmName::SHA512] {
        let code = generate_code(&test_account(algorithm, 6, 30), "JBSWY3DPEHPK3PXP")
            .expect("code should generate");
        assert_eq!(code.len(), 6);
        assert!(code.chars().all(|character| character.is_ascii_digit()));
    }
}

// RFC 6238, appendix B: the test secrets are the ASCII digits "1234567890"
// repeated to 20, 32 and 64 bytes.
const SHA1_SECRET: &str = "GEZDGNBVGY3TQOJQGEZDGNBVGY3TQOJQ";
const SHA256_SECRET: &str = "GEZDGNBVGY3TQOJQGEZDGNBVGY3TQOJQGEZDGNBVGY3TQOJQGEZA";
const SHA512_SECRET: &str = "GEZDGNBVGY3TQOJQGEZDGNBVGY3TQOJQGEZDGNBVGY3TQOJQGEZDGNBVGY3TQOJQGEZDGNBVGY3TQOJQGEZDGNBVGY3TQOJQGEZDGNA";

#[test]
fn matches_rfc_6238_test_vectors() {
    let vectors = [
        (59u64, "94287082", "46119246", "90693936"),
        (1111111109, "07081804", "68084774", "25091201"),
        (1111111111, "14050471", "67062674", "99943326"),
        (1234567890, "89005924", "91819424", "93441116"),
        (2000000000, "69279037", "90698825", "38618901"),
        (20000000000, "65353130", "77737706", "47863826"),
    ];
    for (time, sha1, sha256, sha512) in vectors {
        let code = |algorithm, secret| {
            generate_code_at(&test_account(algorithm, 8, 30), secret, time).unwrap()
        };
        assert_eq!(code(AlgorithmName::SHA1, SHA1_SECRET), sha1);
        assert_eq!(code(AlgorithmName::SHA256, SHA256_SECRET), sha256);
        assert_eq!(code(AlgorithmName::SHA512, SHA512_SECRET), sha512);
    }
}

#[test]
fn six_digit_codes_keep_leading_zeros() {
    // The 8-digit code 07081804 at this time gives 081804 with six digits.
    let code = generate_code_at(&test_account(AlgorithmName::SHA1, 6, 30), SHA1_SECRET, 1111111109).unwrap();
    assert_eq!(code, "081804");
}

#[test]
fn code_stays_the_same_within_a_period() {
    let account = test_account(AlgorithmName::SHA1, 6, 30);
    let a = generate_code_at(&account, SHA1_SECRET, 60).unwrap();
    let b = generate_code_at(&account, SHA1_SECRET, 89).unwrap();
    let c = generate_code_at(&account, SHA1_SECRET, 90).unwrap();
    assert_eq!(a, b);
    assert_ne!(a, c);
}

#[test]
fn bad_secrets_are_refused_before_the_period_is_used() {
    let broken = test_account(AlgorithmName::SHA1, 12, 0);
    for result in [generate_code(&broken, "JBSWY3DPEHPK3PX1"), generate_code_at(&broken, "jbsw y3dp", 5)] {
        assert_eq!(validation_text(result.unwrap_err()), "Secret must be valid base32");
    }
}

#[test]
fn imports_parsed_uri_parts() {
    let parts = UrlParts {
        scheme: "otpauth".into(),
        host: Some("totp".into()),
        path: "//Bank%3A%20x:me".into(),
        query: vec![("issuer".into(), "First".into()), ("issuer".into(), "Second".into()), ("secret".into(), "jbswy3dp".into())],
    };
    let normalized = normalize_otp_uri_parts(parts, Some(" i ".into()), None).unwrap();
    assert_eq!(normalized.service_name, "Second");
    assert_eq!(normalized.issuer.as_deref(), Some("Second"));
    assert_eq!(normalized.account_label.as_deref(), Some("x:me"));
    assert_eq!(normalized.secret.as_deref(), Some("JBSWY3DP"));
    assert_eq!(normalized.icon.as_deref(), Some("i"));

    let wrong_host = UrlParts { scheme: "otpauth".into(), host: None, path: "/x".into(), query: vec![] };
    assert_eq!(
        validation_text(normalize_otp_uri_parts(wrong_host, None, None).unwrap_err()),
        "Only otpauth://totp URIs are supported"
    );
}

#[test]
fn code_generation_rejects_bad_secrets() {
    let account = test_account(AlgorithmName::SHA1, 6, 30);
    let error = generate_code_at(&account, "not base32", 0).unwrap_err();
    assert_eq!(validation_text(error), "Secret must be valid base32");
}

#[test]
fn truncates_as_rfc_4226_shows() {
    let digest = [
        0x1f, 0x86, 0x98, 0x69, 0x0e, 0x02, 0xca, 0x16, 0x61, 0x85, 0x50, 0xef, 0x7f, 0x19, 0xda,
        0x8e, 0x94, 0x5b, 0x55, 0x5a,
    ];
    assert_eq!(dynamic_truncate(&digest), 0x50ef7f19);
    let mut high = [0xffu8; 20];
    high[19] = 0xf0;
    assert_eq!(dynamic_truncate(&high), 0x7fffffff);
}

#[test]
fn supports_non_default_periods() {
    let seconds = seconds_remaining(45).expect("the clock reads after 1970");
    assert!((1..=45).contains(&seconds));
}

#[test]
fn seconds_remaining_counts_down_to_one() {
    assert_eq!(seconds_remaining_at(30, 0), 30);
    assert_eq!(seconds_remaining_at(30, 1), 29);
    assert_eq!(seconds_remaining_at(30, 29), 1);
    assert_eq!(seconds_remaining_at(45, 90), 45);
    assert_eq!(seconds_remaining_at(45, 100), 35);
}

#[test]
fn default_algorithm_is_sha1() {
    assert_eq!(AlgorithmName::default(), AlgorithmName::SHA1);
}

#[test]
fn percent_signs_without_two_hex_digits_stay_in_labels() {
    let parts = UrlParts {
        scheme: "otpauth".into(),
        host: Some("totp".into()),
        path: "/Shop%zz:50%25+off%4".into(),
        query: vec![("secret".into(), "jbswy3dp".into())],
    };
    let normalized = normalize_otp_uri_parts(parts, None, None).unwrap();
    assert_eq!(normalized.service_name, "Shop%zz");
    assert_eq!(normalized.issuer, None);
    assert_eq!(normalized.account_label.as_deref(), Some("50%+off%4"));
}
