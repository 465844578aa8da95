//! Ethereum addresses: parsing, the canonical lower-case form, and the checksum form.
use vstd::prelude::*;

use crate::types::errors::PythiaError;
use crate::utils::signature::keccak;
use crate::utils::text::push_char;

verus! {

/// `c` is a hexadecimal digit, in either case.
pub open spec fn is_hex_digit(c: char) -> bool {
    ('0' <= c && c <= '9') || ('a' <= c && c <= 'f') || ('A' <= c && c <= 'F')
}

/// The value of the hexadecimal digit `c`.
pub open spec fn hex_value(c: char) -> nat {
    if '0' <= c && c <= '9' {
        (c as nat - '0' as nat) as nat
    } else if 'a' <= c && c <= 'f' {
        (c as nat - 'a' as nat + 10) as nat
    } else {
        (c as nat - 'A' as nat + 10) as nat
    }
}

/// The white space that hexadecimal decoding skips.
pub open spec fn is_hex_space(c: char) -> bool {
    c == ' ' || c == '\r' || c == '\n' || c == '\t'
}

/// `s` without one leading `0x`, if it has one.
pub open spec fn strip_0x(s: Seq<char>) -> Seq<char> {
    if s.len() >= 2 && s[0] == '0' && s[1] == 'x' {
        s.subrange(2, s.len() as int)
    } else {
        s
    }
}

/// The characters of `s` that are not skipped white space.
pub open spec fn hex_digits_of(s: Seq<char>) -> Seq<char>
    decreases s.len(),
{
    if s.len() == 0 {
        s
    } else if is_hex_space(s.last()) {
        hex_digits_of(s.drop_last())
    } else {
        hex_digits_of(s.drop_last()).push(s.last())
    }
}

/// The 20 bytes that an address text denotes: after an optional `0x`, the text holds
/// nothing but hexadecimal digits and skipped white space, with exactly 40 digits,
/// read two by two, high digit first.
pub open spec fn spec_parse_h160(s: Seq<char>) -> Option<Seq<u8>> {
    let body = strip_0x(s);
    let d = hex_digits_of(body);
    if (forall|i: int| 0 <= i < body.len() ==> is_hex_digit(#[trigger] body[i]) || is_hex_space(body[i]))
        && d.len() == 40 {
        Some(Seq::new(20, |i: int| (hex_value(d[2 * i]) * 16 + hex_value(d[2 * i + 1])) as u8))
    } else {
        None
    }
}

/// The lower-case hexadecimal digit of a value below 16.
pub open spec fn nibble_char(n: int) -> char {
    if n < 10 {
        ((n + '0' as int) as u32) as char
    } else {
        ((n - 10 + 'a' as int) as u32) as char
    }
}

/// Lower-case hexadecimal text of `b`, two digits per byte, high digit first.
pub open spec fn spec_hex_lower(b: Seq<u8>) -> Seq<char> {
    Seq::new(2 * b.len(), |i: int| if i % 2 == 0 { nibble_char((b[i / 2] / 16) as int) } else { nibble_char((b[i / 2] % 16) as int) })
}

/// The canonical text of an address: `0x` and 40 lower-case hexadecimal digits.
pub open spec fn spec_from_h160(b: Seq<u8>) -> Seq<char> {
    seq!['0', 'x'] + spec_hex_lower(b)
}

/// The canonical text of the address that `s` denotes, if it denotes one.
pub open spec fn spec_normalize(s: Seq<char>) -> Option<Seq<char>> {
    match spec_parse_h160(s) {
        Some(b) => Some(spec_from_h160(b)),
        None => None,
    }
}

/// The digit of a value below 16 is a hexadecimal digit worth that value, and no
/// white space.
pub proof fn lemma_nibble_char(n: int)
    requires
        0 <= n < 16,
    ensures
        is_hex_digit(nibble_char(n)),
        !is_hex_space(nibble_char(n)),
        nibble_char(n) != 'x',
        hex_value(nibble_char(n)) == n,
{
}

/// Each character of the lower-case hexadecimal text of `b` is a digit, and each
/// pair of digits is worth its byte.
pub proof fn lemma_hex_lower_digits(b: Seq<u8>)
    ensures
        spec_hex_lower(b).len() == 2 * b.len(),
        forall|i: int| 0 <= i < spec_hex_lower(b).len() ==> is_hex_digit(#[trigger] spec_hex_lower(b)[i])
            && !is_hex_space(spec_hex_lower(b)[i]) && spec_hex_lower(b)[i] != 'x',
        forall|i: int| 0 <= i < b.len() ==>
            hex_value(#[trigger] spec_hex_lower(b)[2 * i]) * 16 + hex_value(spec_hex_lower(b)[2 * i + 1]) == b[i],
{
    let h = spec_hex_lower(b);
    assert forall|i: int| 0 <= i < h.len() implies is_hex_digit(#[trigger] h[i]) && !is_hex_space(h[i]) && h[i] != 'x' by {
        if i % 2 == 0 {
            lemma_nibble_char((b[i / 2] / 16) as int);
        } else {
            lemma_nibble_char((b[i / 2] % 16) as int);
        }
    }
    assert forall|i: int| 0 <= i < b.len() implies
        hex_value(#[trigger] h[2 * i]) * 16 + hex_value(h[2 * i + 1]) == b[i] by {
        assert((2 * i) / 2 == i);
        assert((2 * i + 1) / 2 == i);
        assert((2 * i) % 2 == 0);
        assert((2 * i + 1) % 2 == 1);
        lemma_nibble_char((b[i] / 16) as int);
        lemma_nibble_char((b[i] % 16) as int);
    }
}

/// A text without white space keeps all its characters as digits.
pub proof fn lemma_hex_digits_of_plain(s: Seq<char>)
    requires
        forall|i: int| 0 <= i < s.len() ==> !is_hex_space(#[trigger] s[i]),
    ensures
        hex_digits_of(s) == s,
    decreases s.len(),
{
    if s.len() > 0 {
        lemma_hex_digits_of_plain(s.drop_last());
        assert(!is_hex_space(s[s.len() - 1]));
        assert(s.drop_last().push(s.last()) =~= s);
    }
}

/// The canonical text of the address whose lower-case hexadecimal digits are
/// given is `0x` followed by them.
pub proof fn lemma_normalize_hex_lower(b: Seq<u8>)
    requires
        b.len() == 20,
    ensures
        spec_parse_h160(spec_hex_lower(b)) == Some(b),
        spec_normalize(spec_hex_lower(b)) == Some(spec_from_h160(b)),
{
    let h = spec_hex_lower(b);
    lemma_hex_lower_digits(b);
    assert(strip_0x(h) == h) by {
        assert(h[1] != 'x');
    }
    lemma_hex_digits_of_plain(h);
    let d = hex_digits_of(strip_0x(h));
    let r = Seq::new(20, |i: int| (hex_value(d[2 * i]) * 16 + hex_value(d[2 * i + 1])) as u8);
    assert(r =~= b);
}


/// The ASCII bytes of a text of ASCII characters.
pub open spec fn ascii_bytes(s: Seq<char>) -> Seq<u8> {
    Seq::new(s.len(), |i: int| s[i] as u8)
}

/// `c` in upper case, where it is a lower-case letter of `a` to `f`.
pub open spec fn hex_upper(c: char) -> char {
    if 'a' <= c && c <= 'f' { ((c as int) - 32) as char } else { c }
}

/// The checksum text (EIP-55) of address `b`, given `hash`, the Keccak-256
/// digest of the ASCII bytes of its lower-case hexadecimal digits: `0x`, then
/// those digits, each letter in upper case where the high bit of the matching
/// half-byte of the digest is set.
pub open spec fn spec_eip55(b: Seq<u8>, hash: Seq<u8>) -> Seq<char> {
    let h = spec_hex_lower(b);
    seq!['0', 'x'] + Seq::new(h.len(), |i: int| {
        let set = if i % 2 == 0 { hash[i / 2] >= 128 } else { hash[i / 2] % 16 >= 8 };
        if set { hex_upper(h[i]) } else { h[i] }
    })
}

/// The checksum text (EIP-55) of address `b`.
pub open spec fn spec_eip55_of(b: Seq<u8>) -> Seq<char> {
    spec_eip55(b, keccak(ascii_bytes(spec_hex_lower(b))))
}

/// `H160::from_str` of ethereum-types: strips one leading `0x`, then decodes hexadecimal
/// digits of either case, skipping spaces, tabs, carriage returns and line feeds, and
/// succeeds exactly when 20 bytes are read and nothing but white space follows.
#[verifier::external_body]
fn parse_h160(address: &str) -> (res: Option<[u8; 20]>)
    ensures
        match res {
            Some(b) => spec_parse_h160(address@) == Some(b@),
            None => spec_parse_h160(address@) is None,
        },
{
    match <ic_web3_rs::types::H160 as std::str::FromStr>::from_str(address) {
        Ok(h) => Some(h.to_fixed_bytes()),
        Err(_) => None,
    }
}

/// `hex::encode`: two lower-case hexadecimal digits per byte, high digit first.
#[verifier::external_body]
pub(crate) fn encode_hex(bytes: &[u8]) -> (res: String)
    ensures
        res@ == spec_hex_lower(bytes@),
{
    hex::encode(bytes)
}

/// `siwe::eip55`: the checksum text of an address. It hashes the lower-case
/// hexadecimal digits with the Keccak-256 of the `sha3` crate, the digest that
/// `keccak` names, and upper-cases each letter whose half-byte of the digest has
/// its high bit set.
#[verifier::external_body]
fn eip55_checksum(address: &[u8; 20]) -> (res: String)
    ensures
        res@ == spec_eip55_of(address@),
{
    siwe::eip55(address)
}

/// The canonical text of an address given as 20 bytes.
pub fn from_h160(h160: &[u8; 20]) -> (res: String)
    ensures
        res@ == spec_from_h160(h160@),
{
    let mut res = String::new();
    push_char(&mut res, '0');
    push_char(&mut res, 'x');
    let hex = encode_hex(h160);
    res.append(hex.as_str());
    assert(res@ =~= spec_from_h160(h160@));
    res
}

/// The 20 bytes that an address text denotes.
pub fn to_h160(address: &str) -> (res: Result<[u8; 20], PythiaError>)
    ensures
        match spec_parse_h160(address@) {
            Some(b) => res matches Ok(r) && r@ == b,
            None => res == Err::<[u8; 20], PythiaError>(PythiaError::InvalidAddressFormat),
        },
{
    match parse_h160(address) {
        Some(b) => Ok(b),
        None => Err(PythiaError::InvalidAddressFormat),
    }
}

/// The canonical lower-case text of the address that `address` denotes.
pub fn normalize(address: &str) -> (res: Result<String, PythiaError>)
    ensures
        match spec_normalize(address@) {
            Some(n) => res matches Ok(r) && r@ == n,
            None => res == Err::<String, PythiaError>(PythiaError::InvalidAddressFormat),
        },
{
    let h160 = to_h160(address)?;
    Ok(from_h160(&h160))
}

/// The checksum (EIP-55) text of the address that `address` denotes.
pub fn eip55(address: String) -> (res: Result<String, PythiaError>)
    ensures
        match spec_parse_h160(address@) {
            Some(b) => res matches Ok(r) && r@ == spec_eip55_of(b),
            None => res == Err::<String, PythiaError>(PythiaError::InvalidAddressFormat),
        },
{
    let h160 = to_h160(address.as_str())?;
    Ok(eip55_checksum(&h160))
}

/// A canonical text denotes the address it was made from.
pub proof fn lemma_from_h160_parses(b: Seq<u8>)
    requires
        b.len() == 20,
    ensures
        spec_parse_h160(spec_from_h160(b)) == Some(b),
{
    let t = spec_from_h160(b);
    let body = strip_0x(t);
    assert(body =~= spec_hex_lower(b));
    assert forall|i: int| 0 <= i < body.len() implies is_hex_digit(#[trigger] body[i]) && !is_hex_space(body[i]) by {
        let n: int = if i % 2 == 0 { b[i / 2] / 16 } else { b[i / 2] % 16 } as int;
        assert(0 <= n < 16);
    }
    lemma_no_space_digits(body);
    let d = hex_digits_of(body);
    assert forall|i: int| 0 <= i < 20 implies (hex_value(d[2 * i]) * 16 + hex_value(d[2 * i + 1])) as u8 == b[i] by {
        let hi = b[i] / 16;
        let lo = b[i] % 16;
        assert(d[2 * i] == nibble_char(hi as int));
        assert((2 * i + 1) / 2 == i);
        assert(d[2 * i + 1] == nibble_char(lo as int));
        assert(hex_value(nibble_char(hi as int)) == hi);
        assert(hex_value(nibble_char(lo as int)) == lo);
    }
    assert(Seq::new(20, |i: int| (hex_value(d[2 * i]) * 16 + hex_value(d[2 * i + 1])) as u8) =~= b);
}

/// Text without skipped white space is its own digit sequence.
proof fn lemma_no_space_digits(s: Seq<char>)
    requires
        forall|i: int| 0 <= i < s.len() ==> !is_hex_space(#[trigger] s[i]),
    ensures
        hex_digits_of(s) == s,
    decreases s.len(),
{
    if s.len() > 0 {
        assert(!is_hex_space(s[s.len() - 1]));
        lemma_no_space_digits(s.drop_last());
        assert(s.drop_last().push(s.last()) =~= s);
    }
}

/// Law: normalizing is idempotent; the canonical text of an address normalizes to itself.
pub proof fn law_normalize_idempotent(s: Seq<char>)
    ensures
        spec_normalize(s) matches Some(n) ==> spec_normalize(n) == Some(n),
{
    if let Some(b) = spec_parse_h160(s) {
        lemma_from_h160_parses(b);
    }
}


/// Law: a checksum text (EIP-55) denotes the address it was made from, whatever
/// the digest, so it normalizes to that address's canonical text.
pub proof fn law_eip55_denotes_address(b: Seq<u8>, hash: Seq<u8>)
    requires
        b.len() == 20,
    ensures
        spec_parse_h160(spec_eip55(b, hash)) == Some(b),
        spec_normalize(spec_eip55(b, hash)) == Some(spec_from_h160(b)),
{
    let h = spec_hex_lower(b);
    let t = spec_eip55(b, hash);
    let body = strip_0x(t);
    assert(t[1] == 'x');
    assert(body.len() == 40);
    assert forall|i: int| 0 <= i < 40 implies #[trigger] body[i] == h[i] || body[i] == hex_upper(h[i]) by {
        assert(body[i] == t[i + 2]);
    }
    assert forall|i: int| 0 <= i < 40 implies is_hex_digit(#[trigger] body[i]) && !is_hex_space(body[i])
        && hex_value(body[i]) == (if i % 2 == 0 { b[i / 2] / 16 } else { b[i / 2] % 16 }) by {
        let n: int = if i % 2 == 0 { b[i / 2] / 16 } else { b[i / 2] % 16 } as int;
        assert(0 <= n < 16);
        assert(h[i] == nibble_char(n));
        lemma_nibble_char(n);
    }
    lemma_no_space_digits(body);
    let d = hex_digits_of(body);
    assert forall|i: int| 0 <= i < 20 implies (hex_value(d[2 * i]) * 16 + hex_value(d[2 * i + 1])) as u8 == b[i] by {
        assert((2 * i) / 2 == i);
        assert((2 * i + 1) / 2 == i);
        assert((2 * i) % 2 == 0);
        assert((2 * i + 1) % 2 == 1);
        assert(hex_value(body[2 * i]) == b[i] / 16);
        assert(hex_value(body[2 * i + 1]) == b[i] % 16);
    }
    assert(Seq::new(20, |i: int| (hex_value(d[2 * i]) * 16 + hex_value(d[2 * i + 1])) as u8) =~= b);
}

} // verus!
