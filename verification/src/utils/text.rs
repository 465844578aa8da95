use vstd::prelude::*;

verus! {

/// Appends one character to a string (`String::push`); std documents that the
/// string afterwards holds its old characters followed by `c`.
#[verifier::external_body]
pub(crate) fn push_char(s: &mut String, c: char)
    ensures
        final(s)@ == old(s)@.push(c),
{
    s.push(c);
}

/// The characters of `s`, in order.
pub fn str_to_chars(s: &str) -> (res: Vec<char>)
    ensures
        res@ == s@,
{
    let n = s.unicode_len();
    let mut res: Vec<char> = Vec::new();
    let mut i: usize = 0;
    while i < n
        invariant
            n == s@.len(),
            i <= n,
            res@ == s@.subrange(0, i as int),
        decreases n - i,
    {
        res.push(s.get_char(i));
        i = i + 1;
    }
    assert(res@ == s@);
    res
}

/// The string made of the characters `cs`, in order.
pub fn chars_to_string(cs: &[char]) -> (res: String)
    ensures
        res@ == cs@,
{
    let mut res = String::new();
    let mut i: usize = 0;
    while i < cs.len()
        invariant
            i <= cs@.len(),
            res@ == cs@.subrange(0, i as int),
        decreases cs@.len() - i,
    {
        push_char(&mut res, cs[i]);
        proof {
            assert(cs@.subrange(0, i + 1) == cs@.subrange(0, i as int).push(cs@[i as int]));
        }
        i = i + 1;
    }
    assert(res@ == cs@);
    res
}

/// A copy of `s` as an owned string.
pub fn str_to_string(s: &str) -> (res: String)
    ensures
        res@ == s@,
{
    let cs = str_to_chars(s);
    chars_to_string(cs.as_slice())
}

/// Whether `a` and `b` hold the same characters.
pub fn str_eq(a: &str, b: &str) -> (res: bool)
    ensures
        res == (a@ == b@),
{
    let x = str_to_string(a);
    let y = str_to_string(b);
    x == y
}

} // verus!

verus! {

/// A copy of an optional string.
pub fn clone_opt_string(s: &Option<String>) -> (res: Option<String>)
    ensures
        opt_view(res) == opt_view(*s),
{
    match s {
        Some(t) => Some(t.clone()),
        None => None,
    }
}

/// An optional string as an optional sequence of characters.
pub open spec fn opt_view(s: Option<String>) -> Option<Seq<char>> {
    match s {
        Some(t) => Some(t@),
        None => None,
    }
}

} // verus!

verus! {

/// The character of the decimal digit `d`.
pub open spec fn digit_char(d: int) -> char {
    (d + 48) as char
}

/// The decimal numeral of `n`, most significant digit first, with no leading zero.
pub open spec fn decimal(n: nat) -> Seq<char>
    decreases n,
{
    if n < 10 {
        seq![digit_char(n as int)]
    } else {
        decimal(n / 10).push(digit_char((n % 10) as int))
    }
}

/// Writes `n` in decimal, as `Display` writes an unsigned integer.
pub fn decimal_string(n: u128) -> (res: String)
    ensures
        res@ == decimal(n as nat),
    decreases n,
{
    let d: u8 = (n % 10) as u8;
    let c: char = (d + 48u8) as char;
    if n < 10 {
        let mut s = String::new();
        push_char(&mut s, c);
        assert(s@ == seq![c]);
        s
    } else {
        let mut s = decimal_string(n / 10);
        push_char(&mut s, c);
        s
    }
}

/// The value of the decimal numeral `s`: digits only, at least one; `None` for
/// any other text.
pub open spec fn decimal_value(s: Seq<char>) -> Option<nat>
    decreases s.len(),
{
    if s.len() == 0 || !('0' <= s.last() && s.last() <= '9') {
        None
    } else if s.len() == 1 {
        Some((s.last() as nat - 48) as nat)
    } else {
        match decimal_value(s.drop_last()) {
            Some(v) => Some(v * 10 + (s.last() as nat - 48) as nat),
            None => None,
        }
    }
}

/// Reads a decimal numeral that fits in 64 bits.
pub fn parse_u64(s: &str) -> (res: Option<u64>)
    ensures
        match decimal_value(s@) {
            Some(v) => if v <= u64::MAX { res == Some(v as u64) } else { res is None },
            None => res is None,
        },
{
    let cs = str_to_chars(s);
    let n = cs.len();
    if n == 0 {
        return None;
    }
    let mut value: u64 = 0;
    let mut too_big = false;
    let mut i: usize = 0;
    while i < n
        invariant
            n == cs@.len(),
            cs@ == s@,
            n > 0,
            i <= n,
            forall|k: int| 0 <= k < i ==> '0' <= #[trigger] cs@[k] <= '9',
            i > 0 ==> decimal_value(cs@.subrange(0, i as int)) is Some,
            i > 0 && !too_big ==> decimal_value(cs@.subrange(0, i as int)) == Some(value as nat),
            i > 0 && too_big ==> decimal_value(cs@.subrange(0, i as int))->0 > u64::MAX,
            i == 0 ==> !too_big && value == 0,
        decreases n - i,
    {
        let c = cs[i];
        let ghost pre = cs@.subrange(0, i as int);
        let ghost cur = cs@.subrange(0, i + 1);
        proof {
            assert(cur.drop_last() =~= pre);
            assert(cur.last() == c);
        }
        if !('0' <= c && c <= '9') {
            proof {
                lemma_decimal_value_prefix(s@, cur);
            }
            return None;
        }
        let d: u64 = (c as u32 - 48) as u64;
        if !too_big {
            if value > (u64::MAX - d) / 10 {
                too_big = true;
                proof {
                    if i > 0 {
                        assert(value * 10 + d > u64::MAX) by (nonlinear_arith)
                            requires value > (u64::MAX - d) / 10, d <= 9;
                    }
                }
            } else {
                proof {
                    assert(value * 10 + d <= u64::MAX) by (nonlinear_arith)
                        requires value <= (u64::MAX - d) / 10, d <= 9;
                }
                value = value * 10 + d;
            }
        } else {
            proof {
                let v = decimal_value(pre)->0;
                assert(v * 10 + d > u64::MAX) by (nonlinear_arith)
                    requires v > u64::MAX;
            }
        }
        i = i + 1;
    }
    proof {
        assert(cs@.subrange(0, n as int) =~= s@);
    }
    if too_big { None } else { Some(value) }
}

/// A text whose prefix is no numeral is no numeral either.
proof fn lemma_decimal_value_prefix(s: Seq<char>, prefix: Seq<char>)
    requires
        1 <= prefix.len() <= s.len(),
        prefix == s.subrange(0, prefix.len() as int),
        decimal_value(prefix) is None,
    ensures
        decimal_value(s) is None,
    decreases s.len(),
{
    if s.len() > prefix.len() {
        assert(s.drop_last().subrange(0, prefix.len() as int) =~= prefix);
        lemma_decimal_value_prefix(s.drop_last(), prefix);
    } else {
        assert(s =~= prefix);
    }
}

/// Law: reading back the decimal numeral of a number gives the number.
pub proof fn law_decimal_round_trip(n: nat)
    ensures
        decimal_value(decimal(n)) == Some(n),
    decreases n,
{
    if n >= 10 {
        law_decimal_round_trip(n / 10);
        let d = decimal(n);
        assert(d.drop_last() =~= decimal(n / 10));
        assert(d.last() == digit_char((n % 10) as int));
    }
}

} // verus!
