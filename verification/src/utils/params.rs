//! The value a random subscription is called with, in the ABI type it takes.
use vstd::prelude::*;

use crate::utils::text::{decimal, decimal_string, str_to_chars};

verus! {

/// A call argument, as the ABI encoder takes it.
pub enum ParamToken {
    Bytes(Vec<u8>),
    FixedBytes(Vec<u8>),
    Uint(u64),
    Int(u64),
    String(String),
}

/// `t` occurs in `s` at position `i`.
pub open spec fn occurs_at(s: Seq<char>, t: Seq<char>, i: int) -> bool {
    0 <= i && i + t.len() <= s.len() && s.subrange(i, i + t.len()) == t
}

/// `t` occurs somewhere in `s`.
pub open spec fn contains_text(s: Seq<char>, t: Seq<char>) -> bool {
    exists|i: int| #[trigger] occurs_at(s, t, i)
}

/// Whether `t` occurs in `s`.
fn contains(s: &Vec<char>, t: &Vec<char>) -> (res: bool)
    ensures
        res == contains_text(s@, t@),
{
    if t.len() > s.len() {
        assert forall|i: int| !#[trigger] occurs_at(s@, t@, i) by {}
        return false;
    }
    let n = s.len();
    let m = t.len();
    let last = n - m;
    let mut i: usize = 0;
    while i <= last
        invariant
            n == s@.len(),
            m == t@.len(),
            last == n - m,
            t@.len() <= s@.len(),
            i <= last + 1,
            forall|k: int| 0 <= k < i ==> !#[trigger] occurs_at(s@, t@, k),
        decreases last + 1 - i,
    {
        let mut j: usize = 0;
        let mut same = true;
        while j < m
            invariant
                m == t@.len(),
                n == s@.len(),
                i + m <= n,
                j <= t@.len(),
                same == forall|k: int| 0 <= k < j ==> s@[i + k] == t@[k],
            decreases t@.len() - j,
        {
            if s[i + j] != t[j] {
                same = false;
            }
            j = j + 1;
        }
        if same {
            assert(s@.subrange(i as int, i + t@.len()) =~= t@);
            assert(occurs_at(s@, t@, i as int));
            return true;
        }
        proof {
            if occurs_at(s@, t@, i as int) {
                assert(j == m);
                assert forall|k: int| 0 <= k < t@.len() implies s@[i + k] == t@[k] by {
                    assert(s@.subrange(i as int, i + t@.len())[k] == s@[i + k]);
                }
            }
        }
        i = i + 1;
    }
    proof {
        assert forall|k: int| !#[trigger] occurs_at(s@, t@, k) by {
            if 0 <= k && k + t@.len() <= s@.len() {
                assert(k <= last);
            }
        }
    }
    false
}

/// The eight little-endian bytes of the first `n` bytes of `v`.
pub open spec fn le_bytes(v: nat, n: nat) -> Seq<u8>
    decreases n,
{
    if n == 0 {
        seq![]
    } else {
        seq![(v % 256) as u8] + le_bytes(v / 256, (n - 1) as nat)
    }
}

/// The bytes of `value`, least significant first, as `u64::to_le_bytes` gives them.
pub fn to_le_bytes(value: u64) -> (res: Vec<u8>)
    ensures
        res@ == le_bytes(value as nat, 8),
{
    let mut res: Vec<u8> = Vec::new();
    let mut x: u64 = value;
    let mut i: usize = 0;
    while i < 8
        invariant
            i <= 8,
            res@ + le_bytes(x as nat, (8 - i) as nat) == le_bytes(value as nat, 8),
        decreases 8 - i,
    {
        let b: u8 = (x % 256) as u8;
        proof {
            assert(le_bytes(x as nat, (8 - i) as nat) == seq![b] + le_bytes((x / 256) as nat, (8 - i - 1) as nat));
            assert(res@.push(b) + le_bytes((x / 256) as nat, (8 - i - 1) as nat)
                =~= res@ + (seq![b] + le_bytes((x / 256) as nat, (8 - i - 1) as nat)));
        }
        res.push(b);
        x = x / 256;
        i = i + 1;
    }
    assert(le_bytes(x as nat, 0) =~= Seq::<u8>::empty());
    assert(res@ + Seq::<u8>::empty() =~= res@);
    res
}

/// The argument that a random value takes for the ABI type `kind`: exactly
/// `bytes` gives its bytes; a type naming `bytes` gives them as fixed bytes;
/// then `uint`, `int` and `string` in that order; any other type none.
pub open spec fn spec_cast(value: u64, kind: Seq<char>) -> Option<(int, Seq<u8>, Seq<char>, u64)> {
    if kind == "bytes"@ {
        Some((0, le_bytes(value as nat, 8), seq![], 0))
    } else if contains_text(kind, "bytes"@) {
        Some((1, le_bytes(value as nat, 8), seq![], 0))
    } else if contains_text(kind, "uint"@) {
        Some((2, seq![], seq![], value))
    } else if contains_text(kind, "int"@) {
        Some((3, seq![], seq![], value))
    } else if contains_text(kind, "string"@) {
        Some((4, seq![], decimal(value as nat), 0))
    } else {
        None
    }
}

/// A token as plain values: its kind, its bytes, its text and its number.
pub open spec fn token_view(t: ParamToken) -> (int, Seq<u8>, Seq<char>, u64) {
    match t {
        ParamToken::Bytes(b) => (0, b@, seq![], 0),
        ParamToken::FixedBytes(b) => (1, b@, seq![], 0),
        ParamToken::Uint(v) => (2, seq![], seq![], v),
        ParamToken::Int(v) => (3, seq![], seq![], v),
        ParamToken::String(s) => (4, seq![], s@, 0),
    }
}

/// The argument that the random `value` takes for the ABI type `kind`, as
/// `spec_cast` says.
pub fn cast_to_param_type(value: u64, kind: &str) -> (res: Option<ParamToken>)
    ensures
        match spec_cast(value, kind@) {
            None => res is None,
            Some(v) => res matches Some(t) && token_view(t) == v,
        },
{
    let k = str_to_chars(kind);
    let bytes: Vec<char> = vec!['b', 'y', 't', 'e', 's'];
    let uint: Vec<char> = vec!['u', 'i', 'n', 't'];
    let signed: Vec<char> = vec!['i', 'n', 't'];
    let string: Vec<char> = vec!['s', 't', 'r', 'i', 'n', 'g'];
    proof {
        reveal_strlit("bytes");
        reveal_strlit("uint");
        reveal_strlit("int");
        reveal_strlit("string");
        assert(bytes@ == "bytes"@);
        assert(uint@ == "uint"@);
        assert(signed@ == "int"@);
        assert(string@ == "string"@);
    }
    let mut exact = k.len() == 5;
    let mut i: usize = 0;
    while exact && i < 5
        invariant
            k@ == kind@,
            bytes@ == "bytes"@,
            bytes@.len() == 5,
            i <= 5,
            exact ==> k@.len() == 5 && forall|j: int| 0 <= j < i ==> k@[j] == bytes@[j],
            !exact ==> k@ != bytes@,
        decreases 5 - i,
    {
        if k[i] != bytes[i] {
            exact = false;
        }
        i = i + 1;
    }
    if exact {
        assert(k@ =~= bytes@);
        return Some(ParamToken::Bytes(to_le_bytes(value)));
    }
    if contains(&k, &bytes) {
        return Some(ParamToken::FixedBytes(to_le_bytes(value)));
    }
    if contains(&k, &uint) {
        return Some(ParamToken::Uint(value));
    }
    if contains(&k, &signed) {
        return Some(ParamToken::Int(value));
    }
    if contains(&k, &string) {
        return Some(ParamToken::String(decimal_string(value as u128)));
    }
    None
}

} // verus!
