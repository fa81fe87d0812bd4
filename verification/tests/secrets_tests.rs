use basalt::secrets::{dpapi_blob, parse_envelope, sealed_value, token_from_bytes, token_from_file_text, Envelope, SecretError, Store};

#[test]
fn platform_store_marker_round_trip() {
    for os in ["windows", "macos", "linux", "freebsd"] {
        let s = Store::for_os(os);
        assert_eq!(Store::from_marker(s.marker()), Some(s));
    }
    assert_eq!(Store::for_os("windows"), Store::Dpapi);
    assert_eq!(Store::for_os("macos"), Store::Keychain);
    assert_eq!(Store::for_os("linux"), Store::File);
    assert_eq!(Store::from_marker("bogus"), None);
}

#[test]
fn file_envelope_round_trip() {
    let env = sealed_value(Store::File, &[]);
    assert_eq!(env, "file:1");
    assert!(env.starts_with("file:"));
    assert!(Store::from_marker("file") == Some(Store::File));
    assert_eq!(parse_envelope(&env), Envelope::File);
}

#[test]
fn legacy_plaintext_passes_through_unseal() {
    let out = parse_envelope("MTU0NDk.x_legacy_plain");
    assert_eq!(out, Envelope::Legacy("MTU0NDk.x_legacy_plain".to_string()));
}

#[test]
fn keychain_marker_envelope() {
    let env = sealed_value(Store::Keychain, b"ignored");
    assert_eq!(env, "keychain:1");
    assert_eq!(parse_envelope(&env), Envelope::Keychain);
    assert_eq!(Store::Keychain.envelope_prefix(), "keychain");
}

#[test]
fn dpapi_envelope_round_trip() {
    let blob = [0u8, 1, 2, 250, 251, 252, 253, 254, 255];
    let env = sealed_value(Store::Dpapi, &blob);
    assert_eq!(env, "dpapi:AAEC+vv8/f7/");
    match parse_envelope(&env) {
        Envelope::Dpapi(b64) => assert_eq!(dpapi_blob(&b64).unwrap(), blob.to_vec()),
        other => panic!("unexpected envelope {:?}", other),
    }
    // Whitespace around the blob (hand-edited config) is tolerated.
    assert_eq!(parse_envelope("dpapi:  aGk= \n"), Envelope::Dpapi("aGk=".to_string()));
}

#[test]
fn bad_base64_and_bad_utf8_are_errors() {
    assert!(matches!(dpapi_blob("not base64!"), Err(SecretError::Base64(_))));
    assert!(matches!(token_from_bytes(vec![0xff, 0xfe]), Err(SecretError::Utf8(_))));
    assert_eq!(token_from_bytes(b"tok.en".to_vec()).unwrap(), "tok.en");
    assert_eq!(token_from_file_text("  tok.en\n"), "tok.en");
}

#[test]
fn keychain_is_unavailable_here() {
    assert_eq!(basalt::keychain::set("tok"), Err(basalt::keychain::KeychainError::Unavailable));
    assert_eq!(basalt::keychain::get(), Err(basalt::keychain::KeychainError::Unavailable));
    assert_eq!(basalt::keychain::delete(), Err(basalt::keychain::KeychainError::Unavailable));
    assert_eq!(basalt::keychain::KeychainError::Unavailable.message(), "Keychain is macOS-only");
}
