//! Checking the OpenPGP signature of a release file (`InRelease`) against
//! the repository's public key, its primary key or any of its subkeys.
use vstd::prelude::*;

use pgp::composed::{CleartextSignedMessage, Deserializable, SignedPublicKey};

verus! {

/// `pgp::composed::SignedPublicKey`, declared so that it can be held;
/// proofs see nothing inside it.
#[verifier::external_type_specification]
#[verifier::external_body]
pub struct ExSignedPublicKey(SignedPublicKey);

/// `pgp::composed::CleartextSignedMessage`, declared so that it can be held;
/// proofs see nothing inside it.
#[verifier::external_type_specification]
#[verifier::external_body]
pub struct ExCleartextSignedMessage(CleartextSignedMessage);

/// Whether `SignedPublicKey::from_reader_single` reads a key from `bytes`.
pub uninterp spec fn public_key_parses(bytes: Seq<u8>) -> bool;

/// How many subkeys (`public_subkeys`) the key read from `bytes` has.
pub uninterp spec fn public_subkey_count(bytes: Seq<u8>) -> nat;

/// Whether `CleartextSignedMessage::from_string` reads a signed message from `text`.
pub uninterp spec fn cleartext_parses(text: Seq<char>) -> bool;

/// Whether `CleartextSignedMessage::verify` accepts the message read from
/// `text` with one key of the key read from `key`: the primary key when
/// `signer` is 0, subkey `signer - 1` otherwise.
pub uninterp spec fn cleartext_verifies(text: Seq<char>, key: Seq<u8>, signer: nat) -> bool;

/// `CleartextSignedMessage::signed_text` of the message read from `text`.
pub uninterp spec fn cleartext_signed_text(text: Seq<char>) -> Seq<char>;

/// A public key, with the bytes it was read from.
pub struct PublicKey {
    key: SignedPublicKey,
    source: Vec<u8>,
}

impl View for PublicKey {
    type V = Seq<u8>;

    closed spec fn view(&self) -> Seq<u8> {
        self.source@
    }
}

/// A cleartext-signed message, with the text it was read from.
pub struct SignedMessage {
    message: CleartextSignedMessage,
    source: String,
}

impl View for SignedMessage {
    type V = Seq<char>;

    closed spec fn view(&self) -> Seq<char> {
        self.source@
    }
}

/// Why a signature check failed.
#[derive(Debug, PartialEq, Eq, Clone)]
pub enum SignatureError {
    /// The key could not be read; the text is the reader's message.
    InvalidKey(String),
    /// The signed message could not be read; the text is the reader's message.
    InvalidMessage(String),
    /// Neither the primary key nor a subkey verifies the message.
    NoMatchingSignature,
}

/// Calls `SignedPublicKey::from_reader_single` on `bytes`. Claims that it
/// succeeds exactly when `public_key_parses(bytes)`; the error's text is
/// left unsaid.
#[verifier::external_body]
fn read_public_key(bytes: &[u8]) -> (res: Result<PublicKey, String>)
    ensures
        res is Ok <==> public_key_parses(bytes@),
        res matches Ok(k) ==> k@ == bytes@,
{
    match SignedPublicKey::from_reader_single(bytes) {
        Ok((key, _)) => Ok(PublicKey { key, source: bytes.to_vec() }),
        Err(e) => Err(e.to_string()),
    }
}

/// Reads `public_subkeys.len()` of the key. Claims that it is a function of
/// the key's bytes, named `public_subkey_count`.
#[verifier::external_body]
fn subkey_count(key: &PublicKey) -> (res: usize)
    ensures
        res == public_subkey_count(key@),
{
    key.key.public_subkeys.len()
}

/// Calls `CleartextSignedMessage::from_string` on `text`. Claims that it
/// succeeds exactly when `cleartext_parses(text)`; the error's text is left
/// unsaid.
#[verifier::external_body]
fn read_signed_message(text: &str) -> (res: Result<SignedMessage, String>)
    ensures
        res is Ok <==> cleartext_parses(text@),
        res matches Ok(m) ==> m@ == text@,
{
    match CleartextSignedMessage::from_string(text) {
        Ok((message, _)) => Ok(SignedMessage { message, source: text.to_string() }),
        Err(e) => Err(e.to_string()),
    }
}

/// Calls `CleartextSignedMessage::verify` with the primary key. Claims that
/// its success is `cleartext_verifies(message, key, 0)`.
#[verifier::external_body]
fn verify_with_primary(msg: &SignedMessage, key: &PublicKey) -> (res: bool)
    ensures
        res == cleartext_verifies(msg@, key@, 0),
{
    msg.message.verify(&key.key).is_ok()
}

/// Calls `CleartextSignedMessage::verify` with subkey `index`. Claims that
/// its success is `cleartext_verifies(message, key, index + 1)`.
#[verifier::external_body]
fn verify_with_subkey(msg: &SignedMessage, key: &PublicKey, index: usize) -> (res: bool)
    requires
        index < public_subkey_count(key@),
    ensures
        res == cleartext_verifies(msg@, key@, index as nat + 1),
{
    msg.message.verify(&key.key.public_subkeys[index]).is_ok()
}

/// Calls `CleartextSignedMessage::signed_text`. Claims that the result is a
/// function of the message text, named `cleartext_signed_text`.
#[verifier::external_body]
fn signed_text(msg: &SignedMessage) -> (res: String)
    ensures
        res@ == cleartext_signed_text(msg@),
{
    msg.message.signed_text()
}

/// The message is signed by the primary key or by one of the subkeys.
pub open spec fn signature_accepted(text: Seq<char>, key: Seq<u8>) -> bool {
    exists|signer: nat| signer <= public_subkey_count(key) && #[trigger] cleartext_verifies(text, key, signer)
}

/// Reads a public key, armored or binary.
pub fn parse_public_key(bytes: &[u8]) -> (res: Result<PublicKey, SignatureError>)
    ensures
        match res {
            Ok(k) => public_key_parses(bytes@) && k@ == bytes@,
            Err(e) => !public_key_parses(bytes@) && e is InvalidKey,
        },
{
    match read_public_key(bytes) {
        Ok(k) => Ok(k),
        Err(message) => Err(SignatureError::InvalidKey(message)),
    }
}

/// Reads a cleartext-signed message.
pub fn parse_signed_message(text: &str) -> (res: Result<SignedMessage, SignatureError>)
    ensures
        match res {
            Ok(m) => cleartext_parses(text@) && m@ == text@,
            Err(e) => !cleartext_parses(text@) && e is InvalidMessage,
        },
{
    match read_signed_message(text) {
        Ok(m) => Ok(m),
        Err(message) => Err(SignatureError::InvalidMessage(message)),
    }
}

/// Accepts the message when the primary key verifies it, or else when one
/// of the subkeys does.
pub fn verify_inrelease_signature(msg: &SignedMessage, key: &PublicKey) -> (res: Result<
    (),
    SignatureError,
>)
    ensures
        res is Ok <==> signature_accepted(msg@, key@),
        res matches Err(e) ==> e is NoMatchingSignature,
{
    if verify_with_primary(msg, key) {
        return Ok(());
    }
    let count = subkey_count(key);
    let mut j: usize = 0;
    while j < count
        invariant
            j <= count,
            count == public_subkey_count(key@),
            forall|s: nat| s <= j ==> !#[trigger] cleartext_verifies(msg@, key@, s),
        decreases count - j,
    {
        if verify_with_subkey(msg, key, j) {
            return Ok(());
        }
        j = j + 1;
    }
    Err(SignatureError::NoMatchingSignature)
}

/// Checks the signature of the release file `message_text` with `key` and
/// gives back the text it signs.
pub fn validate_signature(message_text: &str, key: &PublicKey) -> (res: Result<
    String,
    SignatureError,
>)
    ensures
        match res {
            Ok(text) => cleartext_parses(message_text@) && signature_accepted(message_text@, key@)
                && text@ == cleartext_signed_text(message_text@),
            Err(SignatureError::InvalidMessage(_)) => !cleartext_parses(message_text@),
            Err(SignatureError::NoMatchingSignature) => cleartext_parses(message_text@)
                && !signature_accepted(message_text@, key@),
            Err(SignatureError::InvalidKey(_)) => false,
        },
{
    let message = parse_signed_message(message_text)?;
    verify_inrelease_signature(&message, key)?;
    Ok(signed_text(&message))
}

} // verus!
