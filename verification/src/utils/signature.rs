//! Recovering the signer of an ECDSA signature.
use vstd::prelude::*;

use crate::utils::address::{encode_hex, hex_value, is_hex_digit, lemma_hex_lower_digits, spec_hex_lower};
use vstd::utf8::{encode_utf8, is_ascii_chars, is_ascii_chars_encode_utf8};

verus! {

/// Why a signature cannot be completed.
#[derive(Debug, PartialEq, Eq)]
pub enum SignatureError {
    InvalidSignatureFormat,
}

/// The address text that `ic_web3_rs::ic::recover_address` recovers from a
/// message hash, a signature and a recovery id.
pub uninterp spec fn recovered_address(message: Seq<u8>, signature: Seq<u8>, rec_id: u8) -> Seq<char>;

/// `ic_web3_rs::ic::recover_address`: the lower-case hexadecimal text (without
/// `0x`) of the address that signed the 32-byte `message` with the 64-byte
/// `signature` and recovery id `rec_id`, or the empty text where recovery
/// fails. The crate unwraps the parsing of its inputs, so the lengths and a
/// recovery id below four are required; the address itself is named, not
/// stated.
#[verifier::external_body]
pub(crate) fn recover_address(message: &Vec<u8>, signature: &Vec<u8>, rec_id: u8) -> (res: String)
    requires
        message@.len() == 32,
        signature@.len() == 64,
        rec_id < 4,
    ensures
        res@ == recovered_address(message@, signature@, rec_id),
{
    ic_web3_rs::ic::recover_address(message.clone(), signature.clone(), rec_id)
}

/// The recovery byte `v` of a signature of `message` by `public_key`: 27 when
/// recovery id 0 gives the key's address, else 28 when id 1 does.
pub fn get_eth_v(signature: &Vec<u8>, message: &Vec<u8>, public_key: &[u8; 20]) -> (res: Result<u8, SignatureError>)
    requires
        signature@.len() == 64,
        message@.len() == 32,
    ensures
        spec_hex_lower(public_key@) == recovered_address(message@, signature@, 0) ==> res == Ok::<u8, SignatureError>(27),
        spec_hex_lower(public_key@) != recovered_address(message@, signature@, 0)
            && spec_hex_lower(public_key@) == recovered_address(message@, signature@, 1) ==> res == Ok::<u8, SignatureError>(28),
        spec_hex_lower(public_key@) != recovered_address(message@, signature@, 0)
            && spec_hex_lower(public_key@) != recovered_address(message@, signature@, 1)
            ==> res == Err::<u8, SignatureError>(SignatureError::InvalidSignatureFormat),
{
    let pub_key = encode_hex(public_key);
    if pub_key == recover_address(message, signature, 0) {
        return Ok(27);
    }
    if pub_key == recover_address(message, signature, 1) {
        return Ok(28);
    }
    Err(SignatureError::InvalidSignatureFormat)
}

/// A signature with its recovery byte split off: the 64 signature bytes and the
/// recovery id, the last byte modulo 27.
pub fn split_recovery_byte(signature: Vec<u8>) -> (res: (Vec<u8>, u8))
    requires
        signature@.len() >= 1,
    ensures
        res.0@ == signature@.drop_last(),
        res.1 == signature@.last() % 27,
{
    let mut sig = signature;
    let last = sig.pop();
    match last {
        Some(v) => (sig, v % 27),
        None => (sig, 0),
    }
}

/// The Keccak-256 digest of `data`: the 32 bytes that `ic_web3_rs::signing::keccak256`
/// and the `Keccak256` of the `sha3` crate give for it.
pub uninterp spec fn keccak(data: Seq<u8>) -> Seq<u8>;

/// `ic_web3_rs::signing::keccak256`: the 32-byte Keccak-256 digest of `data`; the
/// digest itself is named, not stated.
#[verifier::external_body]
pub(crate) fn keccak256(data: &[u8]) -> (res: Vec<u8>)
    ensures
        res@ == keccak(data@),
        res@.len() == 32,
{
    ic_web3_rs::signing::keccak256(data).to_vec()
}

/// The bytes that hexadecimal text `s` denotes: an even number of digits of
/// either case, read two by two, high digit first; `None` for any other text.
pub open spec fn spec_hex_decode(s: Seq<char>) -> Option<Seq<u8>> {
    if s.len() % 2 == 0 && forall|i: int| 0 <= i < s.len() ==> is_hex_digit(#[trigger] s[i]) {
        Some(Seq::new(s.len() / 2, |i: int| (hex_value(s[2 * i]) * 16 + hex_value(s[2 * i + 1])) as u8))
    } else {
        None
    }
}

/// The debug text of the error that `hex::decode` gives for `s`.
pub uninterp spec fn hex_decode_error(s: Seq<char>) -> Seq<char>;

/// `hex::decode`: the bytes of an even-length run of hexadecimal digits of either
/// case; any other text is refused, and the refusal is handed back as the debug
/// text of the crate's error, which is named, not stated.
#[verifier::external_body]
pub(crate) fn decode_hex(s: &str) -> (res: Result<Vec<u8>, String>)
    ensures
        match res {
            Ok(b) => spec_hex_decode(s@) == Some(b@),
            Err(e) => spec_hex_decode(s@) is None && e@ == hex_decode_error(s@),
        },
{
    match hex::decode(s) {
        Ok(b) => Ok(b),
        Err(e) => Err(format!("{:?}", e)),
    }
}

/// Hexadecimal text is ASCII: one byte per character.
pub proof fn lemma_hex_text_bytes(s: Seq<char>)
    requires
        forall|i: int| 0 <= i < s.len() ==> is_hex_digit(#[trigger] s[i]),
    ensures
        encode_utf8(s).len() == s.len(),
{
    assert(is_ascii_chars(s));
    is_ascii_chars_encode_utf8(s);
}

/// Decoding the lower-case hexadecimal text of `b` gives `b` back, and the text
/// has two bytes per byte of `b`.
pub proof fn lemma_hex_decode_lower(b: Seq<u8>)
    ensures
        spec_hex_decode(spec_hex_lower(b)) == Some(b),
        encode_utf8(spec_hex_lower(b)).len() == 2 * b.len(),
{
    let h = spec_hex_lower(b);
    lemma_hex_lower_digits(b);
    lemma_hex_text_bytes(h);
    assert(h.len() % 2 == 0);
    let r = Seq::new(h.len() / 2, |i: int| (hex_value(h[2 * i]) * 16 + hex_value(h[2 * i + 1])) as u8);
    assert(r =~= b);
}

} // verus!
