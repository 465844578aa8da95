//! Messages the service signs with its own key.
use vstd::prelude::*;
use vstd::string::{StringExecFns, StringSliceAdditionalSpecFns};
use vstd::utf8::encode_utf8;

use crate::types::errors::PythiaError;
use crate::utils::address::{encode_hex, from_h160, normalize, spec_from_h160, spec_hex_lower, spec_normalize};
use crate::utils::signature::{
    decode_hex, get_eth_v, hex_decode_error, keccak, keccak256, lemma_hex_text_bytes, recover_address,
    recovered_address, spec_hex_decode, split_recovery_byte, SignatureError,
};
use crate::utils::text::{decimal, decimal_string, str_eq, str_to_string};
use crate::utils::validator;

verus! {

/// A SIWE message and the service's signature of it.
pub struct SIWESignedMessage {
    pub signature: String,
    pub message: String,
}

/// The text that an EIP-191 personal signature covers: the prefix, the length
/// of `message` in bytes, in decimal, then `message`.
pub open spec fn spec_eip191_message(message: Seq<char>) -> Seq<char> {
    "\x19Ethereum Signed Message:\n"@ + decimal(encode_utf8(message).len()) + message
}

/// The text of an EIP-191 personal message for `message`.
pub fn eip191_message(message: &str) -> (res: String)
    ensures
        res@ == spec_eip191_message(message@),
{
    let n = message.as_bytes().len();
    let mut res = String::new();
    res.append("\x19Ethereum Signed Message:\n");
    let digits = decimal_string(n as u128);
    res.append(digits.as_str());
    res.append(message);
    assert(res@ =~= spec_eip191_message(message@));
    res
}

/// The SIWE message in which the service's address `address` signs in with
/// `message` as its statement, on chain `chain_id`, with `nonce` and the time of
/// issue `issued_at`.
pub open spec fn spec_siwe_message(
    address: Seq<char>,
    message: Seq<char>,
    chain_id: u64,
    nonce: Seq<char>,
    issued_at: Seq<char>,
) -> Seq<char> {
    "Pythia wants you to sign in with your Ethereum account:\n"@ + address + "\n\n"@ + message
        + "\n\nURI: http://localhost:8080\nVersion: 1\nChain ID: "@ + decimal(chain_id as nat)
        + "\nNonce: "@ + nonce + "\nIssued At: "@ + issued_at
}

/// The SIWE message that `spec_siwe_message` describes.
pub fn siwe_message(address: &str, message: &str, chain_id: u64, nonce: &str, issued_at: &str) -> (res: String)
    ensures
        res@ == spec_siwe_message(address@, message@, chain_id, nonce@, issued_at@),
{
    let mut res = String::new();
    res.append("Pythia wants you to sign in with your Ethereum account:\n");
    res.append(address);
    res.append("\n\n");
    res.append(message);
    res.append("\n\nURI: http://localhost:8080\nVersion: 1\nChain ID: ");
    let digits = decimal_string(chain_id as u128);
    res.append(digits.as_str());
    res.append("\nNonce: ");
    res.append(nonce);
    res.append("\nIssued At: ");
    res.append(issued_at);
    assert(res@ =~= spec_siwe_message(address@, message@, chain_id, nonce@, issued_at@));
    res
}

/// The nonce of a SIWE message: the first 17 random bytes in hexadecimal.
pub fn siwe_nonce(rand_bytes: &Vec<u8>) -> (res: String)
    requires
        rand_bytes@.len() >= 17,
    ensures
        res@ == spec_hex_lower(rand_bytes@.subrange(0, 17)),
{
    let mut head: Vec<u8> = Vec::new();
    let mut i: usize = 0;
    while i < 17
        invariant
            i <= 17,
            rand_bytes@.len() >= 17,
            head@ == rand_bytes@.subrange(0, i as int),
        decreases 17 - i,
    {
        head.push(rand_bytes[i]);
        proof {
            assert(rand_bytes@.subrange(0, i + 1) =~= rand_bytes@.subrange(0, i as int).push(rand_bytes@[i as int]));
        }
        i = i + 1;
    }
    encode_hex(head.as_slice())
}

/// Whether a controller may have the service sign a message.
pub fn sign_message_allowed(is_controller: bool) -> (res: Result<(), PythiaError>)
    ensures
        is_controller ==> res is Ok,
        !is_controller ==> res == Err::<(), PythiaError>(PythiaError::NotAController),
{
    validator::caller(is_controller)
}

/// The 65-byte signature in hexadecimal: the 64 bytes of the ECDSA signature of
/// `sign_data` followed by the recovery byte that the service's own address
/// `pma` gives.
pub fn complete_signature(signature: Vec<u8>, sign_data: &Vec<u8>, pma: &[u8; 20]) -> (res: Result<String, SignatureError>)
    requires
        signature@.len() == 64,
        sign_data@.len() == 32,
    ensures
        spec_hex_lower(pma@) == recovered_address(sign_data@, signature@, 0)
            ==> (res matches Ok(s) && s@ == spec_hex_lower(signature@.push(27u8))),
        spec_hex_lower(pma@) != recovered_address(sign_data@, signature@, 0)
            && spec_hex_lower(pma@) == recovered_address(sign_data@, signature@, 1)
            ==> (res matches Ok(s) && s@ == spec_hex_lower(signature@.push(28u8))),
        spec_hex_lower(pma@) != recovered_address(sign_data@, signature@, 0)
            && spec_hex_lower(pma@) != recovered_address(sign_data@, signature@, 1)
            ==> res == Err::<String, SignatureError>(SignatureError::InvalidSignatureFormat),
{
    let v = get_eth_v(&signature, sign_data, pma)?;
    let mut full = signature;
    full.push(v);
    Ok(encode_hex(full.as_slice()))
}

/// The digest that a personal signature of `message` signs: Keccak-256 of the
/// bytes of its EIP-191 text.
pub fn personal_sign_data(message: &str) -> (res: Vec<u8>)
    ensures
        res@ == keccak(encode_utf8(spec_eip191_message(message@))),
        res@.len() == 32,
{
    let text = eip191_message(message);
    keccak256(text.as_str().as_bytes())
}

/// What checking `signature` (hexadecimal text) as a personal signature of
/// `message` by the address `pma` answers: success, or the refusal's text.
pub open spec fn verify_outcome(message: Seq<char>, signature: Seq<char>, pma: Seq<char>) -> Result<(), Seq<char>> {
    if encode_utf8(signature).len() != 130 {
        Err("Invalid signature length"@)
    } else {
        match spec_hex_decode(signature) {
            None => Err("Failed to decode hex signature: "@ + hex_decode_error(signature)),
            Some(b) => {
                let data = keccak(encode_utf8(spec_eip191_message(message)));
                match spec_normalize(recovered_address(data, b.drop_last(), (b.last() % 27) as u8)) {
                    None => Err("Failed to recover address: InvalidAddressFormat"@),
                    Some(a) => if a == pma {
                        Ok(())
                    } else {
                        Err("Invalid signature"@)
                    },
                }
            },
        }
    }
}

/// Checks that `signature`, 65 bytes in 130 hexadecimal digits, is a personal
/// signature of `message` by the service's own address `pma`.
pub fn verify_signed_message(message: &str, signature: &str, pma: &str) -> (res: Result<(), String>)
    requires
        spec_hex_decode(signature@) matches Some(b) ==> (b.len() == 65 ==> b.last() % 27 < 4),
    ensures
        match verify_outcome(message@, signature@, pma@) {
            Ok(()) => res is Ok,
            Err(t) => res matches Err(e) && e@ == t,
        },
{
    if signature.as_bytes().len() != 130 {
        return Err(str_to_string("Invalid signature length"));
    }
    let data = personal_sign_data(message);
    let bytes = match decode_hex(signature) {
        Ok(b) => b,
        Err(e) => {
            let mut text = String::new();
            text.append("Failed to decode hex signature: ");
            text.append(e.as_str());
            assert(text@ =~= "Failed to decode hex signature: "@ + hex_decode_error(signature@));
            return Err(text);
        },
    };
    proof {
        lemma_hex_text_bytes(signature@);
    }
    let (sig, rec_id) = split_recovery_byte(bytes);
    let recovered = recover_address(&data, &sig, rec_id);
    let address = match normalize(recovered.as_str()) {
        Ok(a) => a,
        Err(_) => {
            return Err(str_to_string("Failed to recover address: InvalidAddressFormat"));
        },
    };
    if str_eq(address.as_str(), pma) {
        Ok(())
    } else {
        Err(str_to_string("Invalid signature"))
    }
}

/// The digest that the SIWE message `text` signs, if `text` parses as one.
pub uninterp spec fn siwe_hash(text: Seq<char>) -> Option<Seq<u8>>;

/// `siwe::Message::from_str` followed by `eip191_hash`: the Keccak-256 digest of
/// the EIP-191 text of the parsed message, or `None` where `text` is no SIWE
/// message; the parser and the digest are named, not stated.
#[verifier::external_body]
fn siwe_eip191_hash(text: &str) -> (res: Option<Vec<u8>>)
    ensures
        match res {
            Some(h) => siwe_hash(text@) == Some(h@) && h@.len() == 32,
            None => siwe_hash(text@) is None,
        },
{
    let msg = text.parse::<siwe::Message>().ok()?;
    msg.eip191_hash().ok().map(|h| h.to_vec())
}

/// The ISO 8601 text, in UTC, of the instant `secs` seconds after the Unix epoch.
pub uninterp spec fn iso8601_text(secs: int) -> Seq<char>;

/// `OffsetDateTime::from_unix_timestamp` and `format(&Iso8601::DEFAULT)` of the
/// `time` crate: the ISO 8601 text, in UTC, of the instant `secs` seconds after
/// the epoch. Both succeed for the instants from the epoch to the end of the
/// year 9999; the text itself (date, time to nine decimal places, `Z`) is named,
/// not stated.
#[verifier::external_body]
fn iso8601_utc(secs: i64) -> (res: Option<String>)
    requires
        0 <= secs <= 253_402_300_799,
    ensures
        res is Some,
        match res {
            Some(t) => t@ == iso8601_text(secs as int),
            None => true,
        },
{
    time::OffsetDateTime::from_unix_timestamp(secs).ok()?.format(&time::format_description::well_known::Iso8601::DEFAULT).ok()
}

/// The `Issued At` text of a SIWE message made at `now`, nanoseconds since the
/// epoch: the ISO 8601 text of the whole seconds.
pub fn issued_at(now: u64) -> (res: String)
    ensures
        res@ == iso8601_text((now / 1_000_000_000) as int),
{
    let secs: u64 = now / 1_000_000_000;
    match iso8601_utc(secs as i64) {
        Some(t) => t,
        None => String::new(),
    }
}

/// The SIWE message that the service's address `address` signs in with, with the
/// statement `message`, on chain `chain_id`, issued at `issued_at`, its nonce
/// taken from `rand_bytes`, and the digest to sign; `None` where the text does
/// not parse as a SIWE message.
pub fn siwe_sign_request(address: &str, message: &str, chain_id: u64, rand_bytes: &Vec<u8>, issued_at: &str)
    -> (res: Option<(String, Vec<u8>)>)
    requires
        rand_bytes@.len() >= 17,
    ensures
        ({
            let text = spec_siwe_message(address@, message@, chain_id, spec_hex_lower(rand_bytes@.subrange(0, 17)), issued_at@);
            match siwe_hash(text) {
                Some(h) => res matches Some(p) && p.0@ == text && p.1@ == h,
                None => res is None,
            }
        }),
{
    let nonce = siwe_nonce(rand_bytes);
    let text = siwe_message(address, message, chain_id, nonce.as_str(), issued_at);
    match siwe_eip191_hash(text.as_str()) {
        Some(h) => Some((text, h)),
        None => None,
    }
}

/// The address (20 bytes) that signed the SIWE message `message` with `signature`,
/// where the message parses, is valid at `timestamp` (seconds since the epoch)
/// and the signature is its signer's.
pub uninterp spec fn siwe_signer(message: Seq<char>, signature: Seq<u8>, timestamp: int) -> Option<Seq<u8>>;

/// `siwe::Message::from_str` and `Message::verify` with the time of validity set
/// to `timestamp`: the message's address when it parses, holds at that time and
/// the 65-byte signature recovers to it; else `None`. The parser and the
/// verification are named, not stated.
#[verifier::external_body]
fn siwe_verify(message: &str, signature: &Vec<u8>, timestamp: i64) -> (res: Option<[u8; 20]>)
    ensures
        match res {
            Some(a) => siwe_signer(message@, signature@, timestamp as int) == Some(a@),
            None => siwe_signer(message@, signature@, timestamp as int) is None,
        },
{
    let msg = message.parse::<siwe::Message>().ok()?;
    let at = time::OffsetDateTime::from_unix_timestamp(timestamp).ok()?;
    let opts = siwe::VerificationOpts { timestamp: Some(at), ..Default::default() };
    futures::executor::block_on(msg.verify(signature, &opts)).ok()?;
    Some(msg.address)
}

/// The time that a SIWE message is checked at, from the clock in nanoseconds:
/// whole seconds, divided once more by a billion.
pub open spec fn siwe_timestamp(now_nanos: u64) -> int {
    ((now_nanos / 1_000_000_000) / 1_000_000_000) as int
}

/// The canonical address of the signer of the SIWE message `message`, whose
/// signature `signature` is given in hexadecimal; `now_nanos` is the clock.
pub fn siwe_recover(message: &str, signature: &str, now_nanos: u64) -> (res: Result<String, PythiaError>)
    ensures
        match spec_hex_decode(signature@) {
            None => res == Err::<String, PythiaError>(PythiaError::UnableToRecoverAddress),
            Some(b) => match siwe_signer(message@, b, siwe_timestamp(now_nanos)) {
                None => res == Err::<String, PythiaError>(PythiaError::UnableToRecoverAddress),
                Some(a) => res matches Ok(s) && s@ == spec_from_h160(a),
            },
        },
{
    let bytes = match decode_hex(signature) {
        Ok(b) => b,
        Err(_) => {
            return Err(PythiaError::UnableToRecoverAddress);
        },
    };
    let secs: u64 = now_nanos / 1_000_000_000;
    let timestamp: u64 = secs / 1_000_000_000;
    match siwe_verify(message, &bytes, timestamp as i64) {
        Some(a) => Ok(from_h160(&a)),
        None => Err(PythiaError::UnableToRecoverAddress),
    }
}

} // verus!
