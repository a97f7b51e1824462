//! Who gets in: what a handshake must hold to be accepted, and why it is refused.

use vstd::prelude::*;
use super::{
    base64_decoded, ed25519_key_error, ed25519_public_key, ed25519_verifies, handshake_decided,
    response_fits, seed_in, verdict, HandshakeErrorView, KeyErrorView,
};
use crate::configuration::Configuration;

verus! {

/// Whether a signature in base64 proves to the owner of a seed that a peer controls the key
/// behind a public key in base64: it is one by that key on the owner's own public key.
pub open spec fn proves_key(seed: Seq<u8>, public_key: Seq<char>, signature: Seq<char>) -> bool {
    match (base64_decoded(public_key), base64_decoded(signature)) {
        (Ok(key), Ok(bytes)) => {
            &&& key.len() == 32
            &&& ed25519_key_error(key) is None
            &&& bytes.len() == 64
            &&& ed25519_verifies(key, ed25519_public_key(seed), bytes)
        },
        _ => false,
    }
}

/// A handshake is good just where its signature proves the key, and then it is that key that
/// it is good for.
pub proof fn law_a_good_handshake_proves_the_key(
    seed: Seq<u8>,
    public_key: Seq<char>,
    signature: Seq<char>,
)
    ensures
        verdict(seed, public_key, signature) is Ok <==> proves_key(seed, public_key, signature),
        proves_key(seed, public_key, signature) ==> verdict(seed, public_key, signature) == Ok::<
            _,
            HandshakeErrorView,
        >(public_key),
{
}

/// A handshake that is not good is refused for what is wrong with it: first with the key as
/// text, its length and the key itself, then with the signature as text and its length, and
/// only then with what it signs.
pub proof fn law_a_bad_handshake_is_refused_for_its_fault(
    seed: Seq<u8>,
    public_key: Seq<char>,
    signature: Seq<char>,
)
    ensures
        match (base64_decoded(public_key), base64_decoded(signature)) {
            (Err(error), _) => verdict(seed, public_key, signature) == Err::<Seq<char>, _>(
                HandshakeErrorView::InvalidPublicKeyEncoding(error),
            ),
            (Ok(key), decoded) => {
                if key.len() != 32 {
                    verdict(seed, public_key, signature) == Err::<Seq<char>, _>(
                        HandshakeErrorView::WrongPublicKeyLength { expected: 32, found: key.len() },
                    )
                } else if ed25519_key_error(key) is Some {
                    verdict(seed, public_key, signature) == Err::<Seq<char>, _>(
                        HandshakeErrorView::InvalidPublicKey(ed25519_key_error(key)->0),
                    )
                } else {
                    match decoded {
                        Err(error) => verdict(seed, public_key, signature) == Err::<Seq<char>, _>(
                            HandshakeErrorView::InvalidSignatureEncoding(error),
                        ),
                        Ok(bytes) => if bytes.len() != 64 {
                            verdict(seed, public_key, signature) == Err::<Seq<char>, _>(
                                HandshakeErrorView::WrongSignatureLength {
                                    expected: 64,
                                    found: bytes.len(),
                                },
                            )
                        } else {
                            !proves_key(seed, public_key, signature) ==> verdict(
                                seed,
                                public_key,
                                signature,
                            ) == Err::<Seq<char>, _>(
                                HandshakeErrorView::SignatureVerificationFailed,
                            )
                        },
                    }
                }
            },
        },
{
}

/// A peer that connects gets in just where it is a configured one and proves its key, and it
/// gets in as that peer.
pub proof fn law_only_configured_peers_get_in(
    configuration: Configuration,
    seed: Seq<u8>,
    public_key: Seq<char>,
    signature: Seq<char>,
    accepted: Option<String>,
)
    requires
        handshake_decided(configuration, seed, public_key, signature, accepted),
    ensures
        accepted is Some <==> proves_key(seed, public_key, signature) && exists|i: int|
            0 <= i < configuration.peers@.len() && (#[trigger] configuration.peers@[i]).public_key@
                == public_key,
        accepted is Some ==> accepted->0@ == public_key,
{
}

/// The answer of a peer that was connected to is taken just where it comes from that peer and
/// proves its key.
pub proof fn law_only_the_expected_peer_answers(
    expected_public_key: Seq<char>,
    seed: Seq<u8>,
    public_key: Seq<char>,
    signature: Seq<char>,
)
    ensures
        response_fits(expected_public_key, seed, public_key, signature) <==> public_key
            == expected_public_key && proves_key(seed, public_key, signature),
{
}

/// A stored key is read just where it stands for a seed: thirty-two bytes. Else it is refused,
/// with the words of the decoder or with the length that it has.
pub proof fn law_a_stored_key_is_a_seed(text: Seq<char>)
    ensures
        match base64_decoded(text) {
            Ok(bytes) => if bytes.len() == 32 {
                seed_in(base64_decoded(text)) == Ok::<_, KeyErrorView>(bytes)
            } else {
                seed_in(base64_decoded(text)) == Err::<Seq<u8>, _>(
                    KeyErrorView::WrongLength(bytes.len()),
                )
            },
            Err(error) => seed_in(base64_decoded(text)) == Err::<Seq<u8>, _>(
                KeyErrorView::NotBase64(error),
            ),
        },
{
}

} // verus!
