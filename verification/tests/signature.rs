use nya::commands::update::{process_inrelease, try_process_inrelease, ProcessError};
use nya::parser;
use nya::signature::{
    parse_public_key, parse_signed_message, validate_signature, verify_inrelease_signature,
    SignatureError,
};
use nya::types::{DownloadedInRelease, Repository};

use pgp::composed::{
    CleartextSignedMessage, KeyType, SecretKeyParamsBuilder, SignedSecretKey, SubkeyParamsBuilder,
};
use pgp::types::Password;
use rand::SeedableRng;

const RELEASE: &str = "Origin: Nya Test\nSuite: stable\nSHA256:\n abcd 12 main/binary-amd64/Packages\n";

fn generate_key(seed: u64) -> SignedSecretKey {
    let mut rng = rand::rngs::StdRng::seed_from_u64(seed);
    let params = SecretKeyParamsBuilder::default()
        .key_type(KeyType::Ed25519Legacy)
        .can_certify(true)
        .can_sign(true)
        .primary_user_id("Nya Test <test@example.org>".into())
        .subkey(
            SubkeyParamsBuilder::default()
                .key_type(KeyType::Ed25519Legacy)
                .can_sign(true)
                .build()
                .unwrap(),
        )
        .build()
        .unwrap();
    params.generate(&mut rng).unwrap()
}

fn armored_public_key(key: &SignedSecretKey) -> String {
    key.to_public_key().to_armored_string(None.into()).unwrap()
}

fn sign_with_primary(key: &SignedSecretKey, text: &str) -> String {
    let mut rng = rand::rngs::StdRng::seed_from_u64(1);
    CleartextSignedMessage::sign(&mut rng, text, &key.primary_key, &Password::empty())
        .unwrap()
        .to_armored_string(None.into())
        .unwrap()
}

fn sign_with_subkey(key: &SignedSecretKey, text: &str) -> String {
    let mut rng = rand::rngs::StdRng::seed_from_u64(2);
    CleartextSignedMessage::sign(&mut rng, text, &key.secret_subkeys[0].key, &Password::empty())
        .unwrap()
        .to_armored_string(None.into())
        .unwrap()
}

#[test]
fn a_message_signed_by_the_primary_key_is_accepted() {
    let secret = generate_key(10);
    let key = parse_public_key(armored_public_key(&secret).as_bytes()).unwrap();
    let signed = sign_with_primary(&secret, RELEASE);
    let message = parse_signed_message(&signed).unwrap();
    assert_eq!(verify_inrelease_signature(&message, &key), Ok(()));
    let text = validate_signature(&signed, &key).unwrap();
    assert!(text.starts_with("Origin: Nya Test\r\nSuite: stable\r\n"));
    assert!(!text.contains("-----BEGIN"));
}

#[test]
fn verifies_inrelease_signed_by_subkey() {
    let secret = generate_key(11);
    let key = parse_public_key(armored_public_key(&secret).as_bytes()).unwrap();
    let signed = sign_with_subkey(&secret, RELEASE);
    let message = parse_signed_message(&signed).unwrap();
    assert_eq!(verify_inrelease_signature(&message, &key), Ok(()));
}

#[test]
fn rejects_tampered_inrelease() {
    let secret = generate_key(12);
    let key = parse_public_key(armored_public_key(&secret).as_bytes()).unwrap();
    let signed = sign_with_subkey(&secret, RELEASE).replace("Origin: Nya Test", "Origin: HACKER");
    let message = parse_signed_message(&signed).unwrap();
    assert_eq!(verify_inrelease_signature(&message, &key), Err(SignatureError::NoMatchingSignature));
    assert_eq!(validate_signature(&signed, &key), Err(SignatureError::NoMatchingSignature));
}

#[test]
fn a_message_signed_by_another_key_is_refused() {
    let secret = generate_key(13);
    let other = generate_key(14);
    let key = parse_public_key(armored_public_key(&other).as_bytes()).unwrap();
    let signed = sign_with_primary(&secret, RELEASE);
    assert_eq!(validate_signature(&signed, &key), Err(SignatureError::NoMatchingSignature));
}

#[test]
fn unreadable_keys_and_messages_are_reported() {
    assert!(matches!(parse_public_key(b"not a key"), Err(SignatureError::InvalidKey(_))));
    let secret = generate_key(15);
    let key = parse_public_key(armored_public_key(&secret).as_bytes()).unwrap();
    assert!(matches!(validate_signature("not signed", &key), Err(SignatureError::InvalidMessage(_))));
    assert!(matches!(parse_signed_message("not signed"), Err(SignatureError::InvalidMessage(_))));
}

#[test]
fn a_signed_release_gives_its_package_index() {
    let secret = generate_key(16);
    let key = parse_public_key(armored_public_key(&secret).as_bytes()).unwrap();
    let signed = sign_with_primary(&secret, RELEASE);
    let repository = Repository::from_parsed(parser::Repository {
        uris: vec!["http://a.example/debian".to_string()],
        suites: vec!["stable".to_string()],
        components: vec!["main".to_string()],
        signed_by: Some("/k.asc".to_string()),
    });
    let downloaded = DownloadedInRelease::new("/cache/InRelease".to_string(), repository);
    let (d, info) = process_inrelease(downloaded.clone(), &key, &signed, "amd64").unwrap();
    assert_eq!(d.inrelease_path(), "/cache/InRelease");
    assert_eq!(info.hash(), "abcd");
    assert_eq!(info.size(), 12);
    assert!(matches!(
        process_inrelease(downloaded.clone(), &key, &signed, "arm64"),
        Err(ProcessError::PackageInfo(_))
    ));
    let no_component = DownloadedInRelease::new(
        "/cache/InRelease".to_string(),
        Repository::from_parsed(parser::Repository {
            uris: vec!["http://a.example/debian".to_string()],
            suites: vec!["stable".to_string()],
            components: vec![],
            signed_by: None,
        }),
    );
    assert_eq!(
        process_inrelease(no_component.clone(), &key, &signed.replace("abcd", "ffff"), "amd64").err(),
        Some(ProcessError::Signature(SignatureError::NoMatchingSignature))
    );
    assert_eq!(
        try_process_inrelease(no_component.clone(), &key, &signed.replace("abcd", "ffff"), "amd64")
            .map(|r| r.err()),
        Some(Some(ProcessError::Signature(SignatureError::NoMatchingSignature)))
    );
    assert!(try_process_inrelease(no_component, &key, &signed, "amd64").is_none());
    let (_, info) = try_process_inrelease(downloaded.clone(), &key, &signed, "amd64").unwrap().unwrap();
    assert_eq!(info.hash(), "abcd");
    let tampered = signed.replace("abcd", "ffff");
    assert_eq!(
        process_inrelease(downloaded, &key, &tampered, "amd64").err(),
        Some(ProcessError::Signature(SignatureError::NoMatchingSignature))
    );
}
