//! The identity of a machine, and the handshake that proves it to a peer.

use vstd::prelude::*;

pub mod laws;

use base64::Engine;
use ed25519_dalek::{Signer, Verifier};
use rand::RngCore;
use crate::configuration::Configuration;
use crate::text::{
    decimal, decimal_text, joined, lemma_trimmed_is_identity, same_text, trim, trimmed, white_space,
};

verus! {

/// Whether no character of a text is white space.
pub open spec fn is_unspaced(text: Seq<char>) -> bool {
    forall|i: int| 0 <= i < text.len() ==> !white_space(#[trigger] text[i])
}

/// The outcome of decoding a text that stands for bytes.
pub open spec fn stands_for(bytes: Seq<u8>) -> Result<Seq<u8>, Seq<char>> {
    Ok(bytes)
}

/// The standard base64 form of bytes, with padding. It depends on the bytes alone.
pub uninterp spec fn base64_text(bytes: Seq<u8>) -> Seq<char>;

/// The bytes that a text in base64 stands for, or the words of the error. It depends
/// on the text alone.
pub uninterp spec fn base64_decoded(text: Seq<char>) -> Result<Seq<u8>, Seq<char>>;

/// The ed25519 public key of a seed. It depends on the seed alone.
pub uninterp spec fn ed25519_public_key(seed: Seq<u8>) -> Seq<u8>;

/// The ed25519 signature that the key of a seed makes on a message. It depends on the
/// two alone.
pub uninterp spec fn ed25519_signature(seed: Seq<u8>, message: Seq<u8>) -> Seq<u8>;

/// What is wrong with bytes as an ed25519 public key, in the words of the error. It
/// depends on the bytes alone.
pub uninterp spec fn ed25519_key_error(key: Seq<u8>) -> Option<Seq<char>>;

/// Whether a signature on a message is good under an ed25519 public key. It depends on
/// the three alone.
pub uninterp spec fn ed25519_verifies(
    key: Seq<u8>,
    message: Seq<u8>,
    signature: Seq<u8>,
) -> bool;

/// `Engine::encode` of `base64::engine::general_purpose::STANDARD`: the text decodes
/// to the same bytes, and no character of it is white space.
#[verifier::external_body]
fn encode_base64(bytes: &[u8]) -> (r: String)
    requires
        bytes@.len() <= usize::MAX / 4,
    ensures
        r@ == base64_text(bytes@),
        base64_decoded(r@) == stands_for(bytes@),
        is_unspaced(r@),
{
    base64::engine::general_purpose::STANDARD.encode(bytes)
}

/// `Engine::decode` of `base64::engine::general_purpose::STANDARD`, with the error put
/// into its own words.
#[verifier::external_body]
fn decode_base64(text: &str) -> (r: Result<Vec<u8>, String>)
    ensures
        match r {
            Ok(bytes) => base64_decoded(text@) matches Ok(known) && known == bytes@,
            Err(error) => base64_decoded(text@) matches Err(known) && known == error@,
        },
{
    base64::engine::general_purpose::STANDARD.decode(text).map_err(|error| error.to_string())
}

/// `ed25519_dalek::SigningKey::from_bytes` and the bytes of its `verifying_key`: these
/// are good as a public key.
#[verifier::external_body]
fn public_key_of(seed: &[u8; 32]) -> (r: [u8; 32])
    ensures
        r@ == ed25519_public_key(seed@),
        ed25519_key_error(r@) is None,
{
    ed25519_dalek::SigningKey::from_bytes(seed).verifying_key().to_bytes()
}

/// `Signer::sign` of the `ed25519_dalek::SigningKey` of a seed: the signature is good
/// under the public key of that seed.
#[verifier::external_body]
fn sign(seed: &[u8; 32], message: &[u8]) -> (r: [u8; 64])
    ensures
        r@ == ed25519_signature(seed@, message@),
        ed25519_verifies(ed25519_public_key(seed@), message@, r@),
{
    ed25519_dalek::SigningKey::from_bytes(seed).sign(message).to_bytes()
}

/// `ed25519_dalek::VerifyingKey::from_bytes`: the words of its error, where it has one.
#[verifier::external_body]
fn key_error(key: &[u8; 32]) -> (r: Option<String>)
    ensures
        match r {
            Some(error) => ed25519_key_error(key@) == Some(error@),
            None => ed25519_key_error(key@) is None,
        },
{
    ed25519_dalek::VerifyingKey::from_bytes(key).err().map(|error| error.to_string())
}

/// `Verifier::verify` of an `ed25519_dalek::VerifyingKey`. Bytes that are no key verify
/// nothing.
#[verifier::external_body]
fn verifies(key: &[u8; 32], message: &[u8], signature: &[u8; 64]) -> (r: bool)
    ensures
        r == ed25519_verifies(key@, message@, signature@),
{
    let signature = ed25519_dalek::Signature::from_bytes(signature);
    ed25519_dalek::VerifyingKey::from_bytes(key).and_then(
        |key| key.verify(message, &signature),
    ).is_ok()
}

/// `RngCore::fill_bytes` of `rand::rngs::OsRng`: random bytes. Nothing is known of
/// them. It panics where the operating system gives none.
#[verifier::external_body]
fn random_seed() -> (r: [u8; 32]) {
    let mut seed = [0u8; 32];
    rand::rngs::OsRng.fill_bytes(&mut seed);
    seed
}

/// What a peer sends to prove that it controls the private key behind its public key:
/// a signature on the other peer's public key, so that it cannot be replayed against a
/// third.
#[derive(Debug, Clone, PartialEq, Eq)]
pub struct HandshakeMessage {
    pub public_key: String,
    pub signature: String,
}

/// Why a handshake could not be made or was refused.
#[derive(Debug, Clone, PartialEq, Eq)]
pub enum HandshakeError {
    /// In the words of the decoder.
    InvalidPublicKeyEncoding(String),
    /// In the words of the decoder.
    InvalidSignatureEncoding(String),
    WrongPublicKeyLength { expected: usize, found: usize },
    WrongSignatureLength { expected: usize, found: usize },
    /// In the words of the key check.
    InvalidPublicKey(String),
    SignatureVerificationFailed,
}

/// The mathematical value of a [`HandshakeError`].
#[verifier::ext_equal]
pub enum HandshakeErrorView {
    InvalidPublicKeyEncoding(Seq<char>),
    InvalidSignatureEncoding(Seq<char>),
    WrongPublicKeyLength { expected: nat, found: nat },
    WrongSignatureLength { expected: nat, found: nat },
    InvalidPublicKey(Seq<char>),
    SignatureVerificationFailed,
}

impl View for HandshakeError {
    type V = HandshakeErrorView;

    open spec fn view(&self) -> HandshakeErrorView {
        match *self {
            HandshakeError::InvalidPublicKeyEncoding(error) =>
                HandshakeErrorView::InvalidPublicKeyEncoding(error@),
            HandshakeError::InvalidSignatureEncoding(error) =>
                HandshakeErrorView::InvalidSignatureEncoding(error@),
            HandshakeError::WrongPublicKeyLength { expected, found } =>
                HandshakeErrorView::WrongPublicKeyLength {
                    expected: expected as nat,
                    found: found as nat,
                },
            HandshakeError::WrongSignatureLength { expected, found } =>
                HandshakeErrorView::WrongSignatureLength {
                    expected: expected as nat,
                    found: found as nat,
                },
            HandshakeError::InvalidPublicKey(error) => HandshakeErrorView::InvalidPublicKey(
                error@,
            ),
            HandshakeError::SignatureVerificationFailed =>
                HandshakeErrorView::SignatureVerificationFailed,
        }
    }
}

impl HandshakeErrorView {
    /// The error in words.
    pub open spec fn text(self) -> Seq<char> {
        match self {
            HandshakeErrorView::InvalidPublicKeyEncoding(error) =>
                "public key is not valid base64: "@ + error,
            HandshakeErrorView::InvalidSignatureEncoding(error) =>
                "signature is not valid base64: "@ + error,
            HandshakeErrorView::WrongPublicKeyLength { expected, found } =>
                "public key has wrong length: expected "@ + decimal_text(expected)
                + " bytes, found "@ + decimal_text(found),
            HandshakeErrorView::WrongSignatureLength { expected, found } =>
                "signature has wrong length: expected "@ + decimal_text(expected)
                + " bytes, found "@ + decimal_text(found),
            HandshakeErrorView::InvalidPublicKey(error) =>
                "public key is not a valid ed25519 key: "@ + error,
            HandshakeErrorView::SignatureVerificationFailed => "signature verification failed"@,
        }
    }
}

impl HandshakeError {
    /// The error in words.
    pub fn to_string(&self) -> (r: String)
        ensures
            r@ == self@.text(),
    {
        match self {
            HandshakeError::InvalidPublicKeyEncoding(error) => joined(
                "public key is not valid base64: ",
                error.as_str(),
            ),
            HandshakeError::InvalidSignatureEncoding(error) => joined(
                "signature is not valid base64: ",
                error.as_str(),
            ),
            HandshakeError::WrongPublicKeyLength { expected, found } => {
                let mut out = joined(
                    "public key has wrong length: expected ",
                    decimal(*expected as u64).as_str(),
                );
                out.append(" bytes, found ");
                out.append(decimal(*found as u64).as_str());
                out
            },
            HandshakeError::WrongSignatureLength { expected, found } => {
                let mut out = joined(
                    "signature has wrong length: expected ",
                    decimal(*expected as u64).as_str(),
                );
                out.append(" bytes, found ");
                out.append(decimal(*found as u64).as_str());
                out
            },
            HandshakeError::InvalidPublicKey(error) => joined(
                "public key is not a valid ed25519 key: ",
                error.as_str(),
            ),
            HandshakeError::SignatureVerificationFailed => {
                "signature verification failed".to_owned()
            },
        }
    }
}

/// Why a stored identity key could not be read.
#[derive(Debug, Clone, PartialEq, Eq)]
pub enum KeyError {
    /// In the words of the decoder.
    NotBase64(String),
    /// The key has so many bytes.
    WrongLength(usize),
}

/// The mathematical value of a [`KeyError`].
#[verifier::ext_equal]
pub enum KeyErrorView {
    NotBase64(Seq<char>),
    WrongLength(nat),
}

impl View for KeyError {
    type V = KeyErrorView;

    open spec fn view(&self) -> KeyErrorView {
        match *self {
            KeyError::NotBase64(error) => KeyErrorView::NotBase64(error@),
            KeyError::WrongLength(found) => KeyErrorView::WrongLength(found as nat),
        }
    }
}

impl KeyErrorView {
    /// The error in words, for a key at a path.
    pub open spec fn text(self, path: Seq<char>) -> Seq<char> {
        match self {
            KeyErrorView::NotBase64(error) => "identity key at "@ + path
                + " is not valid base64: "@ + error,
            KeyErrorView::WrongLength(found) => "identity key at "@ + path + " decoded to "@
                + decimal_text(found) + " bytes, expected 32"@,
        }
    }
}

impl KeyError {
    /// The error in words, for a key at a path.
    pub fn describe(&self, path: &str) -> (r: String)
        ensures
            r@ == self@.text(path@),
    {
        let mut out = joined("identity key at ", path);
        match self {
            KeyError::NotBase64(error) => {
                out.append(" is not valid base64: ");
                out.append(error.as_str());
            },
            KeyError::WrongLength(found) => {
                out.append(" decoded to ");
                out.append(decimal(*found as u64).as_str());
                out.append(" bytes, expected 32");
            },
        }
        out
    }
}

/// Copies bytes into an array of 32.
fn to_array_32(bytes: &Vec<u8>) -> (r: [u8; 32])
    requires
        bytes@.len() == 32,
    ensures
        r@ == bytes@,
{
    let mut out: [u8; 32] = [0u8;32];
    let mut i: usize = 0;
    while i < 32
        invariant
            i <= 32,
            bytes@.len() == 32,
            forall|k: int| 0 <= k < i ==> out@[k] == bytes@[k],
        decreases 32 - i,
    {
        out[i] = bytes[i];
        i = i + 1;
    }
    assert(out@ =~= bytes@);
    out
}

/// Copies bytes into an array of 64.
fn to_array_64(bytes: &Vec<u8>) -> (r: [u8; 64])
    requires
        bytes@.len() == 64,
    ensures
        r@ == bytes@,
{
    let mut out: [u8; 64] = [0u8;64];
    let mut i: usize = 0;
    while i < 64
        invariant
            i <= 64,
            bytes@.len() == 64,
            forall|k: int| 0 <= k < i ==> out@[k] == bytes@[k],
        decreases 64 - i,
    {
        out[i] = bytes[i];
        i = i + 1;
    }
    assert(out@ =~= bytes@);
    out
}

/// The mathematical value of a decoded text.
pub open spec fn decoded(r: Result<Vec<u8>, String>) -> Result<Seq<u8>, Seq<char>> {
    match r {
        Ok(bytes) => Ok(bytes@),
        Err(error) => Err(error@),
    }
}

/// The seed that a decoded key holds.
pub open spec fn seed_in(key: Result<Seq<u8>, Seq<char>>) -> Result<Seq<u8>, KeyErrorView> {
    match key {
        Err(error) => Err(KeyErrorView::NotBase64(error)),
        Ok(bytes) => if bytes.len() == 32 {
            Ok(bytes)
        } else {
            Err(KeyErrorView::WrongLength(bytes.len()))
        },
    }
}

/// The public key that a decoded text holds.
pub open spec fn key_in(key: Result<Seq<u8>, Seq<char>>) -> Result<Seq<u8>, HandshakeErrorView> {
    match key {
        Err(error) => Err(HandshakeErrorView::InvalidPublicKeyEncoding(error)),
        Ok(bytes) => if bytes.len() == 32 {
            Ok(bytes)
        } else {
            Err(HandshakeErrorView::WrongPublicKeyLength { expected: 32, found: bytes.len() })
        },
    }
}

/// The signature that a decoded text holds.
pub open spec fn signature_in(signature: Result<Seq<u8>, Seq<char>>) -> Result<
    Seq<u8>,
    HandshakeErrorView,
> {
    match signature {
        Err(error) => Err(HandshakeErrorView::InvalidSignatureEncoding(error)),
        Ok(bytes) => if bytes.len() == 64 {
            Ok(bytes)
        } else {
            Err(HandshakeErrorView::WrongSignatureLength { expected: 64, found: bytes.len() })
        },
    }
}

/// Reads a seed off a decoded key.
pub fn seed_from_decoded(key: Result<Vec<u8>, String>) -> (r: Result<[u8; 32], KeyError>)
    ensures
        match r {
            Ok(seed) => seed_in(decoded(key)) == Ok::<_, KeyErrorView>(seed@),
            Err(error) => seed_in(decoded(key)) == Err::<Seq<u8>, _>(error@),
        },
{
    match key {
        Err(error) => Err(KeyError::NotBase64(error)),
        Ok(bytes) => {
            if bytes.len() == 32 {
                Ok(to_array_32(&bytes))
            } else {
                Err(KeyError::WrongLength(bytes.len()))
            }
        },
    }
}

/// Reads a public key off a decoded text.
pub fn key_from_decoded(key: Result<Vec<u8>, String>) -> (r: Result<[u8; 32], HandshakeError>)
    ensures
        match r {
            Ok(bytes) => key_in(decoded(key)) == Ok::<_, HandshakeErrorView>(bytes@),
            Err(error) => key_in(decoded(key)) == Err::<Seq<u8>, _>(error@),
        },
{
    match key {
        Err(error) => Err(HandshakeError::InvalidPublicKeyEncoding(error)),
        Ok(bytes) => {
            if bytes.len() == 32 {
                Ok(to_array_32(&bytes))
            } else {
                Err(HandshakeError::WrongPublicKeyLength { expected: 32, found: bytes.len() })
            }
        },
    }
}

/// Reads a signature off a decoded text.
pub fn signature_from_decoded(signature: Result<Vec<u8>, String>) -> (r: Result<
    [u8; 64],
    HandshakeError,
>)
    ensures
        match r {
            Ok(bytes) => signature_in(decoded(signature)) == Ok::<_, HandshakeErrorView>(bytes@),
            Err(error) => signature_in(decoded(signature)) == Err::<Seq<u8>, _>(error@),
        },
{
    match signature {
        Err(error) => Err(HandshakeError::InvalidSignatureEncoding(error)),
        Ok(bytes) => {
            if bytes.len() == 64 {
                Ok(to_array_64(&bytes))
            } else {
                Err(HandshakeError::WrongSignatureLength { expected: 64, found: bytes.len() })
            }
        },
    }
}

/// The outcome of a check whose key and signature have been read.
pub fn judge(key_error: Option<String>, verified: bool, public_key: &str) -> (r: Result<
    String,
    HandshakeError,
>)
    ensures
        match key_error {
            Some(error) => r matches Err(e) && e@ == HandshakeErrorView::InvalidPublicKey(error@),
            None => if verified {
                r matches Ok(key) && key@ == public_key@
            } else {
                r matches Err(e) && e@ == HandshakeErrorView::SignatureVerificationFailed
            },
        },
{
    match key_error {
        Some(error) => Err(HandshakeError::InvalidPublicKey(error)),
        None => {
            if verified {
                Ok(public_key.to_owned())
            } else {
                Err(HandshakeError::SignatureVerificationFailed)
            }
        },
    }
}

/// The verdict of the owner of a seed on a handshake: the peer's public key, or the
/// first thing that is wrong.
pub open spec fn verdict(seed: Seq<u8>, public_key: Seq<char>, signature: Seq<char>) -> Result<
    Seq<char>,
    HandshakeErrorView,
> {
    match key_in(base64_decoded(public_key)) {
        Err(error) => Err(error),
        Ok(key) => match ed25519_key_error(key) {
            Some(error) => Err(HandshakeErrorView::InvalidPublicKey(error)),
            None => match signature_in(base64_decoded(signature)) {
                Err(error) => Err(error),
                Ok(bytes) => if ed25519_verifies(key, ed25519_public_key(seed), bytes) {
                    Ok(public_key)
                } else {
                    Err(HandshakeErrorView::SignatureVerificationFailed)
                },
            },
        },
    }
}

/// The mathematical value of a verdict.
pub open spec fn judged(r: Result<String, HandshakeError>) -> Result<
    Seq<char>,
    HandshakeErrorView,
> {
    match r {
        Ok(key) => Ok(key@),
        Err(error) => Err(error@),
    }
}

/// This machine's identity: an ed25519 key pair, kept as its seed.
pub struct Identity {
    seed: [u8; 32],
}

impl Identity {
    /// The seed of the key pair.
    pub closed spec fn seed(&self) -> Seq<u8> {
        self.seed@
    }

    /// A fresh random identity.
    pub fn generate() -> (r: Self)
        ensures
            r.seed().len() == 32,
    {
        Identity { seed: random_seed() }
    }

    /// The identity of a seed.
    pub fn from_seed(seed: [u8; 32]) -> (r: Self)
        ensures
            r.seed() == seed@,
    {
        Identity { seed }
    }

    /// Reads an identity back from the text that [`Identity::key_text`] gave, with
    /// white space around it or none.
    pub fn from_key_text(contents: &str) -> (r: Result<Self, KeyError>)
        ensures
            match r {
                Ok(identity) => seed_in(base64_decoded(trimmed(contents@))) == Ok::<
                    _,
                    KeyErrorView,
                >(identity.seed()),
                Err(error) => seed_in(base64_decoded(trimmed(contents@))) == Err::<Seq<u8>, _>(
                    error@,
                ),
            },
    {
        let text = trim(contents);
        match seed_from_decoded(decode_base64(text.as_str())) {
            Ok(seed) => Ok(Identity { seed }),
            Err(error) => Err(error),
        }
    }

    /// The text to keep the identity in: its seed in base64. Reading it gives the same
    /// identity back.
    pub fn key_text(&self) -> (r: String)
        ensures
            r@ == base64_text(self.seed()),
            seed_in(base64_decoded(trimmed(r@))) == Ok::<_, KeyErrorView>(self.seed()),
    {
        let text = encode_base64(self.seed.as_slice());
        proof {
            lemma_trimmed_is_identity(text@);
        }
        text
    }

    /// The public key, in base64, as peers know it.
    pub fn public_key(&self) -> (r: String)
        ensures
            r@ == base64_text(ed25519_public_key(self.seed())),
            base64_decoded(r@) == Ok::<_, Seq<char>>(ed25519_public_key(self.seed())),
            ed25519_public_key(self.seed()).len() == 32,
            ed25519_key_error(ed25519_public_key(self.seed())) is None,
    {
        let key = public_key_of(&self.seed);
        encode_base64(key.as_slice())
    }

    /// This side's half of a handshake: a signature on the peer's public key. The owner
    /// of that key accepts it. Whoever else it is shown to refuses it for its signature,
    /// unless that verifies as a signature on their own key too.
    pub fn sign_handshake(&self, peer_public_key: &str) -> (r: Result<
        HandshakeMessage,
        HandshakeError,
    >)
        ensures
            match base64_decoded(peer_public_key@) {
                Ok(peer) => r matches Ok(message) && message.public_key@ == base64_text(
                    ed25519_public_key(self.seed()),
                ) && message.signature@ == base64_text(ed25519_signature(self.seed(), peer)),
                Err(error) => r matches Err(e) && e@
                    == HandshakeErrorView::InvalidPublicKeyEncoding(error),
            },
            r matches Ok(message) ==> forall|peer: Seq<u8>|
                base64_decoded(peer_public_key@) == Ok::<_, Seq<char>>(
                    #[trigger] ed25519_public_key(peer),
                ) ==> verdict(peer, message.public_key@, message.signature@) == Ok::<
                    _,
                    HandshakeErrorView,
                >(message.public_key@),
            r matches Ok(message) ==> forall|peer: Seq<u8>, other: Seq<u8>|
                base64_decoded(peer_public_key@) == Ok::<_, Seq<char>>(peer) ==> verdict(
                    other,
                    message.public_key@,
                    message.signature@,
                ) == (if #[trigger] ed25519_verifies(
                    ed25519_public_key(self.seed()),
                    ed25519_public_key(other),
                    ed25519_signature(self.seed(), peer),
                ) {
                    Ok::<Seq<char>, HandshakeErrorView>(message.public_key@)
                } else {
                    Err(HandshakeErrorView::SignatureVerificationFailed)
                }),
    {
        let peer = match decode_base64(peer_public_key) {
            Ok(peer) => peer,
            Err(error) => {
                return Err(HandshakeError::InvalidPublicKeyEncoding(error));
            },
        };
        let signature = sign(&self.seed, peer.as_slice());
        assert(signature@.len() == 64);
        let public_key = self.public_key();
        let signature = encode_base64(signature.as_slice());
        Ok(HandshakeMessage { public_key, signature })
    }

    /// Checks a handshake: did the peer sign this machine's public key with the private
    /// key behind its own?
    pub fn verify_handshake(&self, message: &HandshakeMessage) -> (r: Result<
        String,
        HandshakeError,
    >)
        ensures
            judged(r) == verdict(self.seed(), message.public_key@, message.signature@),
    {
        let key = match key_from_decoded(decode_base64(message.public_key.as_str())) {
            Ok(key) => key,
            Err(error) => {
                return Err(error);
            },
        };
        let key_error = key_error(&key);
        if key_error.is_some() {
            return judge(key_error, false, message.public_key.as_str());
        }
        let signature = match signature_from_decoded(decode_base64(message.signature.as_str())) {
            Ok(signature) => signature,
            Err(error) => {
                return Err(error);
            },
        };
        let ours = public_key_of(&self.seed);
        let verified = verifies(&key, ours.as_slice(), &signature);
        judge(None, verified, message.public_key.as_str())
    }
}

/// Whether a configuration names a peer with a public key.
pub open spec fn is_known_peer(configuration: Configuration, public_key: Seq<char>) -> bool {
    exists|i: int|
        0 <= i < configuration.peers@.len() && (#[trigger] configuration.peers@[i]).public_key@
            == public_key
}

/// Whether the owner of a seed decides on the handshake of a peer that connected as it
/// should.
pub open spec fn handshake_decided(
    configuration: Configuration,
    seed: Seq<u8>,
    public_key: Seq<char>,
    signature: Seq<char>,
    accepted: Option<String>,
) -> bool {
    match accepted {
        Some(key) => is_known_peer(configuration, public_key) && verdict(
            seed,
            public_key,
            signature,
        ) == Ok::<_, HandshakeErrorView>(key@) && key@ == public_key,
        None => !is_known_peer(configuration, public_key) || verdict(
            seed,
            public_key,
            signature,
        ) is Err,
    }
}

/// Whether the owner of a seed takes an answer for that of an expected peer.
pub open spec fn response_fits(
    expected_public_key: Seq<char>,
    seed: Seq<u8>,
    public_key: Seq<char>,
    signature: Seq<char>,
) -> bool {
    public_key == expected_public_key && verdict(seed, public_key, signature) is Ok
}

/// Decides on the handshake of a peer that connected: it must be a configured one and
/// prove its key. Gives the peer's public key, or `None` to drop the connection.
pub fn accept_handshake(
    configuration: &Configuration,
    identity: &Identity,
    message: &HandshakeMessage,
) -> (r: Option<String>)
    ensures
        match r {
            Some(key) => is_known_peer(*configuration, message.public_key@) && verdict(
                identity.seed(),
                message.public_key@,
                message.signature@,
            ) == Ok::<_, HandshakeErrorView>(key@) && key@ == message.public_key@,
            None => !is_known_peer(*configuration, message.public_key@) || verdict(
                identity.seed(),
                message.public_key@,
                message.signature@,
            ) is Err,
        },
        handshake_decided(
            *configuration,
            identity.seed(),
            message.public_key@,
            message.signature@,
            r,
        ),
{
    let mut i: usize = 0;
    let mut known = false;
    while i < configuration.peers.len() && !known
        invariant
            i <= configuration.peers.len(),
            known ==> is_known_peer(*configuration, message.public_key@),
            !known ==> forall|k: int|
                0 <= k < i ==> (#[trigger] configuration.peers@[k]).public_key@
                    != message.public_key@,
        decreases configuration.peers.len() - i,
    {
        known = same_text(
            configuration.peers[i].public_key.as_str(),
            message.public_key.as_str(),
        );
        i = i + 1;
    }
    if !known {
        return None;
    }
    match identity.verify_handshake(message) {
        Ok(key) => Some(key),
        Err(_) => None,
    }
}

/// Decides on the answer of a peer that this machine connected to: it must be the
/// expected one and prove its key.
pub fn accept_response(
    expected_public_key: &str,
    identity: &Identity,
    response: &HandshakeMessage,
) -> (r: bool)
    ensures
        r == (response.public_key@ == expected_public_key@ && verdict(
            identity.seed(),
            response.public_key@,
            response.signature@,
        ) is Ok),
        r == response_fits(
            expected_public_key@,
            identity.seed(),
            response.public_key@,
            response.signature@,
        ),
{
    if !same_text(response.public_key.as_str(), expected_public_key) {
        return false;
    }
    identity.verify_handshake(response).is_ok()
}

/// The address of a peer to connect to.
pub fn peer_url(ip: &str, port: u16) -> (r: String)
    ensures
        r@ == "ws://"@ + ip@ + ":"@ + decimal_text(port as nat),
{
    let mut out = joined("ws://", ip);
    out.append(":");
    out.append(decimal(port as u64).as_str());
    out
}

} // verus!
