//! The identity of a machine and its handshake.

use tagnetd::configuration::{Configuration, Peer};
use tagnetd::identity::{
    accept_handshake, accept_response, judge, key_from_decoded, peer_url, seed_from_decoded,
    signature_from_decoded, HandshakeError, HandshakeMessage, Identity, KeyError,
};

/// The seed and public key of the first test vector of RFC 8032.
const SEED: [u8; 32] = [
    0x9d, 0x61, 0xb1, 0x9d, 0xef, 0xfd, 0x5a, 0x60, 0xba, 0x84, 0x4a, 0xf4, 0x92, 0xec, 0x2c, 0xc4,
    0x44, 0x49, 0xc5, 0x69, 0x7b, 0x32, 0x69, 0x19, 0x70, 0x3b, 0xac, 0x03, 0x1c, 0xae, 0x7f, 0x60,
];
const PUBLIC_KEY: &str = "11qYAYKxCrfVS/7TyWQHOg7hcvPapiMlrwIaaPcHURo=";

fn peers(keys: &[&str]) -> Configuration {
    Configuration {
        sync_directories: Vec::new(),
        listen_port: None,
        peers: keys
            .iter()
            .map(|key| Peer { address: None, name: "p".to_owned(), public_key: key.to_string() })
            .collect(),
        tags: Vec::new(),
    }
}

#[test]
fn the_public_key_of_a_known_seed() {
    assert_eq!(Identity::from_seed(SEED).public_key(), PUBLIC_KEY);
}

/// An identity survives being stored.
#[test]
fn a_stored_identity_is_read_back() {
    let identity = Identity::generate();
    let text = identity.key_text();
    let back = Identity::from_key_text(&format!("  {text}\n")).ok().unwrap();
    assert_eq!(back.public_key(), identity.public_key());
    assert_eq!(back.key_text(), text);
    assert_eq!(
        Identity::from_seed(SEED).key_text(),
        "nWGxne/9WmC6hEr0kuwsxERJxWl7MmkZcDusAxyuf2A="
    );
}

#[test]
fn fresh_identities_differ() {
    assert_ne!(Identity::generate().key_text(), Identity::generate().key_text());
}

#[test]
fn broken_keys_are_reported() {
    let error = Identity::from_key_text("not base64!").err().unwrap();
    assert!(matches!(error, KeyError::NotBase64(_)));
    assert!(error.describe("/key").starts_with("identity key at /key is not valid base64: "));
    let error = Identity::from_key_text("AAAA").err().unwrap();
    assert_eq!(error, KeyError::WrongLength(3));
    assert_eq!(
        error.describe("/key"),
        "identity key at /key decoded to 3 bytes, expected 32"
    );
    assert_eq!(seed_from_decoded(Ok(vec![0; 31])), Err(KeyError::WrongLength(31)));
    assert_eq!(seed_from_decoded(Ok(SEED.to_vec())), Ok(SEED));
}

/// Each side accepts the handshake that the other made for it.
#[test]
fn a_handshake_proves_the_key() {
    let ours = Identity::from_seed(SEED);
    let theirs = Identity::generate();
    let message = theirs.sign_handshake(&ours.public_key()).unwrap();
    assert_eq!(message.public_key, theirs.public_key());
    assert_eq!(ours.verify_handshake(&message), Ok(theirs.public_key()));
}

/// A handshake made for one machine is worth nothing to another.
#[test]
fn a_handshake_cannot_be_replayed_against_a_third_party() {
    let ours = Identity::from_seed(SEED);
    let theirs = Identity::generate();
    let third = Identity::generate();
    let message = theirs.sign_handshake(&third.public_key()).unwrap();
    assert_eq!(
        ours.verify_handshake(&message),
        Err(HandshakeError::SignatureVerificationFailed)
    );
}

#[test]
fn every_defect_has_its_error() {
    let ours = Identity::from_seed(SEED);
    let theirs = Identity::generate();
    let good = theirs.sign_handshake(&ours.public_key()).unwrap();
    let with = |public_key: &str, signature: &str| HandshakeMessage {
        public_key: public_key.to_owned(),
        signature: signature.to_owned(),
    };
    assert!(matches!(
        ours.verify_handshake(&with("?", &good.signature)),
        Err(HandshakeError::InvalidPublicKeyEncoding(_))
    ));
    assert_eq!(
        ours.verify_handshake(&with("AAAA", &good.signature)),
        Err(HandshakeError::WrongPublicKeyLength { expected: 32, found: 3 })
    );
    // The y coordinate 2 is on no point of the curve.
    assert!(matches!(
        ours.verify_handshake(&with(
            "AgAAAAAAAAAAAAAAAAAAAAAAAAAAAAAAAAAAAAAAAAA=",
            &good.signature
        )),
        Err(HandshakeError::InvalidPublicKey(_))
    ));
    assert!(matches!(
        ours.verify_handshake(&with(&good.public_key, "?")),
        Err(HandshakeError::InvalidSignatureEncoding(_))
    ));
    assert_eq!(
        ours.verify_handshake(&with(&good.public_key, "AAAA")),
        Err(HandshakeError::WrongSignatureLength { expected: 64, found: 3 })
    );
    assert!(matches!(
        ours.sign_handshake("?"),
        Err(HandshakeError::InvalidPublicKeyEncoding(_))
    ));
}

#[test]
fn handshake_errors_have_words() {
    assert_eq!(
        HandshakeError::WrongPublicKeyLength { expected: 32, found: 130 }.to_string(),
        "public key has wrong length: expected 32 bytes, found 130"
    );
    assert_eq!(
        HandshakeError::WrongSignatureLength { expected: 64, found: 0 }.to_string(),
        "signature has wrong length: expected 64 bytes, found 0"
    );
    assert_eq!(
        HandshakeError::InvalidPublicKeyEncoding("e".to_owned()).to_string(),
        "public key is not valid base64: e"
    );
    assert_eq!(
        HandshakeError::InvalidSignatureEncoding("e".to_owned()).to_string(),
        "signature is not valid base64: e"
    );
    assert_eq!(
        HandshakeError::InvalidPublicKey("e".to_owned()).to_string(),
        "public key is not a valid ed25519 key: e"
    );
    assert_eq!(
        HandshakeError::SignatureVerificationFailed.to_string(),
        "signature verification failed"
    );
}

#[test]
fn the_steps_of_a_check_are_judged_one_by_one() {
    assert_eq!(key_from_decoded(Ok(SEED.to_vec())), Ok(SEED));
    assert_eq!(
        key_from_decoded(Err("bad".to_owned())),
        Err(HandshakeError::InvalidPublicKeyEncoding("bad".to_owned()))
    );
    assert_eq!(signature_from_decoded(Ok(vec![7; 64])), Ok([7; 64]));
    assert_eq!(
        signature_from_decoded(Ok(vec![7; 65])),
        Err(HandshakeError::WrongSignatureLength { expected: 64, found: 65 })
    );
    assert_eq!(judge(None, true, "k"), Ok("k".to_owned()));
    assert_eq!(judge(None, false, "k"), Err(HandshakeError::SignatureVerificationFailed));
    assert_eq!(
        judge(Some("e".to_owned()), true, "k"),
        Err(HandshakeError::InvalidPublicKey("e".to_owned()))
    );
}

#[test]
fn only_configured_peers_are_let_in() {
    let ours = Identity::from_seed(SEED);
    let theirs = Identity::generate();
    let message = theirs.sign_handshake(&ours.public_key()).unwrap();
    let key = theirs.public_key();
    assert_eq!(
        accept_handshake(&peers(&["x", &key]), &ours, &message),
        Some(key.clone())
    );
    assert_eq!(accept_handshake(&peers(&["x"]), &ours, &message), None);
    let forged = HandshakeMessage { public_key: key.clone(), signature: "AAAA".to_owned() };
    assert_eq!(accept_handshake(&peers(&[&key]), &ours, &forged), None);

    assert!(accept_response(&key, &ours, &message));
    assert!(!accept_response("other", &ours, &message));
    assert!(!accept_response(&key, &ours, &forged));
}

#[test]
fn peers_are_reached_by_websocket() {
    assert_eq!(peer_url("192.168.188.10", 2468), "ws://192.168.188.10:2468");
}
