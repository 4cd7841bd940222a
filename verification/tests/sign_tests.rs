use station_export::sign::{
    build_auth_header, build_auth_header_at, generate_nonce, generate_timestamp, hex_decode,
    parse_admin_key, percent_encode, sign_request, sort_pairs, TwitterConfig,
};

fn example_config() -> TwitterConfig {
    TwitterConfig {
        api_key: "xvz1evFS4wEEPTGEFPHBog".to_string(),
        api_secret: "kAcSOqF21Fu85e7zjz7ZN2U4ZRhfV3WpwPAoE3Z7kBw".to_string(),
        access_token: "370773112-GmHxMAgYyLbNEtIKZeRNFsMKPR9EyMZeS9weJAEb".to_string(),
        access_secret: "LswwdoUaIvS8ltyTt5jkRh4J50vUPVVHtR2YPi5kE".to_string(),
    }
}

#[test]
fn percent_encoding_follows_the_unreserved_set() {
    assert_eq!(percent_encode("abcXYZ019-._~"), "abcXYZ019-._~");
    assert_eq!(percent_encode("Ladies + Gentlemen"), "Ladies%20%2B%20Gentlemen");
    assert_eq!(percent_encode("An encoded string!"), "An%20encoded%20string%21");
    assert_eq!(percent_encode("Dogs, Cats & Mice"), "Dogs%2C%20Cats%20%26%20Mice");
    assert_eq!(percent_encode("\u{2603}"), "%E2%98%83");
}

#[test]
fn hex_decoding_accepts_even_hex_only() {
    assert_eq!(hex_decode("0aFF").unwrap(), vec![0x0a, 0xff]);
    assert_eq!(hex_decode("").unwrap(), Vec::<u8>::new());
    assert!(hex_decode("abc").is_err());
    assert!(hex_decode("zz").is_err());
}

#[test]
fn parameters_sort_by_key_then_value() {
    let params = vec![
        ("b".to_string(), "2".to_string()),
        ("a".to_string(), "9".to_string()),
        ("a".to_string(), "1".to_string()),
    ];
    let sorted = sort_pairs(&params);
    assert_eq!(sorted[0], ("a".to_string(), "1".to_string()));
    assert_eq!(sorted[1], ("a".to_string(), "9".to_string()));
    assert_eq!(sorted[2], ("b".to_string(), "2".to_string()));
}

#[test]
fn known_request_signs_to_the_documented_value() {
    let config = example_config();
    let params = vec![
        ("status".to_string(), "Hello Ladies + Gentlemen, a signed OAuth request!".to_string()),
        ("include_entities".to_string(), "true".to_string()),
        ("oauth_consumer_key".to_string(), "xvz1evFS4wEEPTGEFPHBog".to_string()),
        (
            "oauth_nonce".to_string(),
            "kYjzVBB8Y0ZFabxSWbWovY3uYSQ2pTgmZeNu2VS4cg".to_string(),
        ),
        ("oauth_signature_method".to_string(), "HMAC-SHA1".to_string()),
        ("oauth_timestamp".to_string(), "1318622958".to_string()),
        (
            "oauth_token".to_string(),
            "370773112-GmHxMAgYyLbNEtIKZeRNFsMKPR9EyMZeS9weJAEb".to_string(),
        ),
        ("oauth_version".to_string(), "1.0".to_string()),
    ];
    let sig = sign_request(
        "post",
        "https://api.twitter.com/1.1/statuses/update.json",
        &params,
        &config,
    );
    assert_eq!(sig, "hCtSmYh+iHYCEqBWrE7C7hYmtUk=");
}

#[test]
fn auth_header_carries_the_oauth_parameters() {
    let config = example_config();
    let body = vec![("status".to_string(), "hi".to_string())];
    let header = build_auth_header_at(
        "POST",
        "https://api.twitter.com/2/tweets",
        &body,
        &config,
        "abc123",
        "1700000000",
    );
    assert!(header.starts_with("OAuth oauth_consumer_key=\"xvz1evFS4wEEPTGEFPHBog\""));
    assert!(header.contains("oauth_nonce=\"abc123\""));
    assert!(header.contains("oauth_signature_method=\"HMAC-SHA1\""));
    assert!(header.contains("oauth_timestamp=\"1700000000\""));
    assert!(header.contains("oauth_version=\"1.0\""));
    assert!(header.contains("oauth_signature=\""));
}

#[test]
fn auth_header_at_is_deterministic_for_fixed_nonce() {
    let config = example_config();
    let body = Vec::new();
    let a = build_auth_header_at("GET", "https://example.org/x", &body, &config, "n", "1");
    let b = build_auth_header_at("GET", "https://example.org/x", &body, &config, "n", "1");
    assert_eq!(a, b);
}

#[test]
fn fresh_header_has_the_oauth_shape() {
    let config = example_config();
    let body = Vec::new();
    let header = build_auth_header("GET", "https://example.org/x", &body, &config);
    assert!(header.starts_with("OAuth "));
    assert!(header.contains("oauth_signature=\""));
}

#[test]
fn nonce_is_hex_and_timestamp_is_decimal() {
    let nonce = generate_nonce();
    assert!(!nonce.is_empty());
    assert!(nonce.chars().all(|c| c.is_ascii_hexdigit()));
    let ts = generate_timestamp();
    assert!(ts.parse::<u64>().is_ok());
    // The clock is past 2001 (timestamp 978307200) on any machine running this.
    assert!(ts.parse::<u64>().unwrap() > 978307200);
}

#[test]
fn admin_keys_split_at_the_first_colon() {
    let (id, secret) = parse_admin_key("abc123:0aff").unwrap();
    assert_eq!(id, "abc123");
    assert_eq!(secret, vec![0x0a, 0xff]);
    assert!(parse_admin_key("no-colon-here").is_err());
    assert!(parse_admin_key("id:nothex").is_err());
}
