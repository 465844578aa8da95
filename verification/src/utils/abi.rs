//! The ABI of the contract method a subscription calls, from its short signature.
use vstd::prelude::*;

use crate::types::errors::PythiaError;
use crate::types::methods::MethodType;
use crate::utils::json::{json_quote, json_str};
use crate::utils::text::{chars_to_string, str_to_chars, str_to_string};

verus! {

/// The characters at which a method signature is cut.
pub open spec fn is_abi_separator(c: char) -> bool {
    c == '(' || c == ')' || c == ','
}

/// The pieces between separators, the last one included even when empty.
pub open spec fn split_all(s: Seq<char>) -> Seq<Seq<char>>
    decreases s.len(),
{
    if s.len() == 0 {
        seq![seq![]]
    } else {
        let r = split_all(s.drop_last());
        if is_abi_separator(s.last()) {
            r.push(seq![])
        } else {
            r.update(r.len() - 1, r.last().push(s.last()))
        }
    }
}

/// `str::split_terminator` on `(`, `)` and `,`: the pieces between separators, without
/// a last piece that is empty.
pub open spec fn split_terminator(s: Seq<char>) -> Seq<Seq<char>> {
    let r = split_all(s);
    if r.last().len() == 0 { r.drop_last() } else { r }
}

/// The ABI types that a random input may take.
pub open spec fn spec_is_supported_func_param(f: Seq<char>) -> bool {
    has_prefix(f, seq!['s', 't', 'r', 'i', 'n', 'g']) || has_prefix(f, seq!['b', 'y', 't', 'e', 's'])
        || has_prefix(f, seq!['u', 'i', 'n', 't']) || has_prefix(f, seq!['i', 'n', 't'])
}

/// `s` starts with `p`.
pub open spec fn has_prefix(s: Seq<char>, p: Seq<char>) -> bool {
    p.len() <= s.len() && s.subrange(0, p.len() as int) == p
}

/// The JSON of one input: its internal type, name and type.
pub open spec fn input_json(internal_type: Seq<char>, name: Seq<char>, typ: Seq<char>) -> Seq<char> {
    "{\"internalType\":"@ + json_str(internal_type) + ",\"name\":"@ + json_str(name) + ",\"type\":"@ + json_str(typ) + "}"@
}

/// The JSON of a non-payable function without outputs, its inputs already written out.
pub open spec fn function_json(name: Seq<char>, inputs: Seq<char>) -> Seq<char> {
    "{\"inputs\":["@ + inputs + "],\"name\":"@ + json_str(name)
        + ",\"outputs\":[],\"stateMutability\":\"nonpayable\",\"type\":\"function\"}"@
}

/// The ABI of a pair-feed method: a pair id, a price, decimals and a timestamp.
pub open spec fn pair_abi_json(name: Seq<char>) -> Seq<char> {
    function_json(name,
        input_json("string"@, "pair_id"@, "string"@) + ","@
        + input_json("uint256"@, "price"@, "uint256"@) + ","@
        + input_json("uint256"@, "decimals"@, "uint256"@) + ","@
        + input_json("uint256"@, "timestamp"@, "uint256"@))
}

/// The ABI of a method that takes one random value of type `param`.
pub open spec fn random_abi_json(name: Seq<char>, param: Seq<char>) -> Seq<char> {
    function_json(name, input_json(param, "template"@, param))
}

/// The ABI of a method without inputs.
pub open spec fn empty_abi_json(name: Seq<char>) -> Seq<char> {
    function_json(name, seq![])
}

/// A method type as plain values: 0 for a pair, 1 for random, 2 for none, and its text.
pub open spec fn method_type_view(t: MethodType) -> (int, Seq<char>) {
    match t {
        MethodType::Pair(p) => (0, p@),
        MethodType::Random(r) => (1, r@),
        MethodType::Empty => (2, seq![]),
    }
}

/// What `resolve_abi` gives: the ABI JSON and the method type, as plain values, or the
/// error.
pub open spec fn spec_resolve_abi(method_abi: Seq<char>, pair_id: Option<Seq<char>>, is_random: bool)
    -> Result<(Seq<char>, (int, Seq<char>)), PythiaError>
{
    let raw = split_terminator(method_abi);
    if let Some(p) = pair_id {
        if raw.len() == 0 {
            Err(PythiaError::InvalidABIFunctionName)
        } else if raw.len() != 5 || raw[1] != "string"@ || raw[2] != " uint256"@ || raw[3] != " uint256"@ || raw[4] != " uint256"@ {
            Err(PythiaError::InvalidABIParameters)
        } else {
            Ok((pair_abi_json(raw[0]), (0, p)))
        }
    } else if is_random {
        if raw.len() != 2 {
            Err(PythiaError::InvalidABIParametersNumber)
        } else if !spec_is_supported_func_param(raw[1]) {
            Err(PythiaError::InvalidABIParameterTypes)
        } else {
            Ok((random_abi_json(raw[0], raw[1]), (1, raw[1])))
        }
    } else {
        if raw.len() != 2 && raw[1].len() != 0 {
            Err(PythiaError::InvalidABIParametersNumber)
        } else {
            Ok((empty_abi_json(raw[0]), (2, seq![])))
        }
    }
}

/// `resolve_abi` reads `raw[1]` of a signature for a method without inputs; it needs
/// at least two pieces there.
pub open spec fn resolve_abi_defined(method_abi: Seq<char>, pair_id: Option<Seq<char>>, is_random: bool) -> bool {
    pair_id is Some || is_random || split_terminator(method_abi).len() >= 2
}

/// The pieces of `s`, each as a vector of characters.
pub open spec fn pieces_view(v: Seq<Vec<char>>) -> Seq<Seq<char>> {
    v.map_values(|p: Vec<char>| p@)
}

/// Cuts `s` as `str::split_terminator` does on `(`, `)` and `,`.
pub fn split_abi(s: &str) -> (res: Vec<Vec<char>>)
    ensures
        pieces_view(res@) == split_terminator(s@),
{
    let cs = str_to_chars(s);
    let mut pieces: Vec<Vec<char>> = Vec::new();
    let mut cur: Vec<char> = Vec::new();
    let mut i: usize = 0;
    while i < cs.len()
        invariant
            cs@ == s@,
            i <= cs@.len(),
            pieces_view(pieces@).push(cur@) == split_all(cs@.subrange(0, i as int)),
        decreases cs@.len() - i,
    {
        let c = cs[i];
        let ghost pre = cs@.subrange(0, i as int);
        assert(cs@.subrange(0, i + 1).drop_last() =~= pre);
        assert(cs@.subrange(0, i + 1).last() == c);
        if c == '(' || c == ')' || c == ',' {
            let ghost old_pieces = pieces_view(pieces@);
            let done = cur;
            pieces.push(done);
            cur = Vec::new();
            assert(pieces_view(pieces@) =~= old_pieces.push(done@));
            assert(pieces_view(pieces@).push(cur@) =~= split_all(pre).push(seq![]));
        } else {
            let ghost old_all = pieces_view(pieces@).push(cur@);
            cur.push(c);
            assert(pieces_view(pieces@).push(cur@) =~= old_all.update(old_all.len() - 1, old_all.last().push(c)));
        }
        i = i + 1;
    }
    assert(cs@.subrange(0, cs@.len() as int) =~= cs@);
    if cur.len() > 0 {
        let ghost before = pieces_view(pieces@);
        pieces.push(cur);
        assert(pieces_view(pieces@) =~= before.push(cur@));
    } else {
        assert(pieces_view(pieces@) =~= split_all(s@).drop_last());
    }
    pieces
}

/// Whether `a` and `b` hold the same characters.
fn chars_eq(a: &Vec<char>, b: &Vec<char>) -> (res: bool)
    ensures
        res == (a@ == b@),
{
    if a.len() != b.len() {
        return false;
    }
    let mut i: usize = 0;
    while i < a.len()
        invariant
            a@.len() == b@.len(),
            i <= a@.len(),
            forall|k: int| 0 <= k < i ==> a@[k] == b@[k],
        decreases a@.len() - i,
    {
        if a[i] != b[i] {
            return false;
        }
        i = i + 1;
    }
    assert(a@ =~= b@);
    true
}

/// Whether `s` starts with `prefix`.
fn starts_with(s: &Vec<char>, prefix: &Vec<char>) -> (res: bool)
    ensures
        res == has_prefix(s@, prefix@),
{
    if s.len() < prefix.len() {
        return false;
    }
    let mut i: usize = 0;
    while i < prefix.len()
        invariant
            prefix@.len() <= s@.len(),
            i <= prefix@.len(),
            forall|k: int| 0 <= k < i ==> s@[k] == prefix@[k],
        decreases prefix@.len() - i,
    {
        if s[i] != prefix[i] {
            assert(s@.subrange(0, prefix@.len() as int)[i as int] != prefix@[i as int]);
            return false;
        }
        i = i + 1;
    }
    assert(s@.subrange(0, prefix@.len() as int) =~= prefix@);
    true
}

/// Whether a random input may take the ABI type `param`.
pub fn is_supported_func_param(param: &Vec<char>) -> (res: bool)
    ensures
        res == spec_is_supported_func_param(param@),
{
    let s = vec!['s', 't', 'r', 'i', 'n', 'g'];
    let b = vec!['b', 'y', 't', 'e', 's'];
    let u = vec!['u', 'i', 'n', 't'];
    let n = vec!['i', 'n', 't'];
    assert(s@ == seq!['s', 't', 'r', 'i', 'n', 'g']);
    assert(b@ == seq!['b', 'y', 't', 'e', 's']);
    assert(u@ == seq!['u', 'i', 'n', 't']);
    assert(n@ == seq!['i', 'n', 't']);
    starts_with(param, &s) || starts_with(param, &b) || starts_with(param, &u) || starts_with(param, &n)
}

/// The JSON of one input.
fn write_input(internal_type: &str, name: &str, typ: &str) -> (res: String)
    ensures
        res@ == input_json(internal_type@, name@, typ@),
{
    let mut res = str_to_string("{\"internalType\":");
    res.append(json_quote(internal_type).as_str());
    res.append(",\"name\":");
    res.append(json_quote(name).as_str());
    res.append(",\"type\":");
    res.append(json_quote(typ).as_str());
    res.append("}");
    assert(res@ =~= input_json(internal_type@, name@, typ@));
    res
}

/// The JSON of a function, its inputs already written out.
fn write_function(name: &str, inputs: &str) -> (res: String)
    ensures
        res@ == function_json(name@, inputs@),
{
    let mut res = str_to_string("{\"inputs\":[");
    res.append(inputs);
    res.append("],\"name\":");
    res.append(json_quote(name).as_str());
    res.append(",\"outputs\":[],\"stateMutability\":\"nonpayable\",\"type\":\"function\"}");
    assert(res@ =~= function_json(name@, inputs@));
    res
}

/// Reads the short signature `method_abi` (such as `set(string, uint256, uint256, uint256)`)
/// and gives the JSON ABI of the method and its type: a pair feed when `pair_id` is given,
/// a method taking one random value when `is_random`, else a method without inputs.
pub fn resolve_abi(method_abi: String, pair_id: Option<String>, is_random: bool) -> (res: Result<(String, MethodType), PythiaError>)
    requires
        resolve_abi_defined(method_abi@, opt_seq(pair_id), is_random),
    ensures
        match spec_resolve_abi(method_abi@, opt_seq(pair_id), is_random) {
            Ok((json, t)) => res matches Ok((j, m)) && j@ == json && method_type_view(m) == t,
            Err(e) => res == Err::<(String, MethodType), PythiaError>(e),
        },
{
    let raw = split_abi(method_abi.as_str());
    let ghost rv = pieces_view(raw@);
    assert(rv == split_terminator(method_abi@));
    match pair_id {
        Some(p) => {
            if raw.len() == 0 {
                return Err(PythiaError::InvalidABIFunctionName);
            }
            let ts = str_to_chars("string");
            let tu = str_to_chars(" uint256");
            if raw.len() != 5 {
                return Err(PythiaError::InvalidABIParameters);
            }
            assert(rv[1] == raw@[1]@ && rv[2] == raw@[2]@ && rv[3] == raw@[3]@ && rv[4] == raw@[4]@);
            if !chars_eq(&raw[1], &ts) || !chars_eq(&raw[2], &tu) || !chars_eq(&raw[3], &tu) || !chars_eq(&raw[4], &tu) {
                return Err(PythiaError::InvalidABIParameters);
            }
            let name = chars_to_string(raw[0].as_slice());
            assert(name@ == rv[0]);
            let mut inputs = write_input("string", "pair_id", "string");
            inputs.append(",");
            inputs.append(write_input("uint256", "price", "uint256").as_str());
            inputs.append(",");
            inputs.append(write_input("uint256", "decimals", "uint256").as_str());
            inputs.append(",");
            inputs.append(write_input("uint256", "timestamp", "uint256").as_str());
            let json = write_function(name.as_str(), inputs.as_str());
            assert(json@ =~= pair_abi_json(rv[0]));
            Ok((json, MethodType::Pair(p)))
        },
        None => {
            if is_random {
                if raw.len() != 2 {
                    return Err(PythiaError::InvalidABIParametersNumber);
                }
                assert(rv[1] == raw@[1]@);
                if !is_supported_func_param(&raw[1]) {
                    return Err(PythiaError::InvalidABIParameterTypes);
                }
                let name = chars_to_string(raw[0].as_slice());
                let param = chars_to_string(raw[1].as_slice());
                assert(name@ == rv[0] && param@ == rv[1]);
                let input = write_input(param.as_str(), "template", param.as_str());
                let json = write_function(name.as_str(), input.as_str());
                Ok((json, MethodType::Random(param)))
            } else {
                assert(rv[1] == raw@[1]@);
                if raw.len() != 2 && raw[1].len() != 0 {
                    return Err(PythiaError::InvalidABIParametersNumber);
                }
                let name = chars_to_string(raw[0].as_slice());
                assert(name@ == rv[0]);
                let empty = String::new();
                let json = write_function(name.as_str(), empty.as_str());
                assert(json@ =~= empty_abi_json(rv[0]));
                Ok((json, MethodType::Empty))
            }
        },
    }
}

/// An optional string as an optional sequence of characters.
pub open spec fn opt_seq(s: Option<String>) -> Option<Seq<char>> {
    match s {
        Some(t) => Some(t@),
        None => None,
    }
}

} // verus!
