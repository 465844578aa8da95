//! Which fields of a node's transaction reply are made the same on every replica.
use vstd::prelude::*;

use crate::utils::keyed::{first_index, lemma_first_index, lemma_first_index_is};
use crate::utils::text::{str_eq, str_to_string};

verus! {

/// The fields of each log entry of a reply that are set to `0x0`, so that
/// replicas that saw different values agree.
pub struct RawTxExecutionTransformProcessor {
    pub transaction_index: bool,
    pub log_index: bool,
}

impl Default for RawTxExecutionTransformProcessor {
    fn default() -> (res: Self)
        ensures
            !res.transaction_index && !res.log_index,
    {
        RawTxExecutionTransformProcessor { transaction_index: false, log_index: false }
    }
}

/// The processor for transaction replies with logs: both the transaction index
/// and the log index are cleared.
pub fn raw_tx_execution_transform_processor() -> (res: RawTxExecutionTransformProcessor)
    ensures
        res.transaction_index && res.log_index,
{
    RawTxExecutionTransformProcessor { transaction_index: true, log_index: true }
}

/// A JSON value of a node's reply; an object keeps its fields in order, a number
/// its text.
pub enum JsonValue {
    Null,
    Bool(bool),
    Number(String),
    Str(String),
    Array(Vec<JsonValue>),
    Object(Vec<(String, JsonValue)>),
}

/// Whether a field is named `key`.
pub open spec fn named(key: Seq<char>) -> spec_fn((String, JsonValue)) -> bool {
    |f: (String, JsonValue)| f.0@ == key
}

/// The value of the first field of `fields` named `key`, if there is one.
pub open spec fn field(fields: Seq<(String, JsonValue)>, key: Seq<char>) -> Option<JsonValue> {
    let j = first_index(fields, named(key));
    if j >= 0 {
        Some(fields[j].1)
    } else {
        None
    }
}

/// The value is the JSON string `0x0`.
pub open spec fn is_zero_text(v: Option<JsonValue>) -> bool {
    v matches Some(JsonValue::Str(s)) && s@ == "0x0"@
}

/// The fields `b` are the fields `a` with the indexes that `p` clears set to
/// `0x0`, and nothing else changed.
pub open spec fn cleared(p: RawTxExecutionTransformProcessor, a: Seq<(String, JsonValue)>, b: Seq<(String, JsonValue)>) -> bool {
    &&& p.transaction_index ==> is_zero_text(field(b, "transactionIndex"@))
    &&& !p.transaction_index ==> field(b, "transactionIndex"@) == field(a, "transactionIndex"@)
    &&& p.log_index ==> is_zero_text(field(b, "logIndex"@))
    &&& !p.log_index ==> field(b, "logIndex"@) == field(a, "logIndex"@)
    &&& forall|k: Seq<char>| k != "transactionIndex"@ && k != "logIndex"@ ==> #[trigger] field(b, k) == field(a, k)
}

/// An entry of the reply's result, cleared as `cleared` says.
pub open spec fn cleared_entry(p: RawTxExecutionTransformProcessor, a: JsonValue, b: JsonValue) -> bool {
    a matches JsonValue::Object(fa) && b matches JsonValue::Object(fb) && cleared(p, fa@, fb@)
}

/// A reply the processor can read: an object with a `result` field, which, where
/// it is an array, holds objects only.
pub open spec fn processable(body: JsonValue) -> bool {
    match body {
        JsonValue::Object(fs) => match field(fs@, "result"@) {
            Some(JsonValue::Array(es)) => forall|i: int| 0 <= i < es@.len() ==> (#[trigger] es@[i]) is Object,
            Some(_) => true,
            None => false,
        },
        _ => false,
    }
}

/// Two field lists with the same names, one by one, find the same first field of
/// any name.
proof fn lemma_same_names(a: Seq<(String, JsonValue)>, b: Seq<(String, JsonValue)>, key: Seq<char>)
    requires
        a.len() == b.len(),
        forall|i: int| 0 <= i < a.len() ==> (#[trigger] a[i]).0@ == b[i].0@,
    ensures
        first_index(a, named(key)) == first_index(b, named(key)),
{
    let p = named(key);
    lemma_first_index(a, p);
    lemma_first_index(b, p);
    let ja = first_index(a, p);
    let jb = first_index(b, p);
    if ja >= 0 {
        assert forall|k: int| 0 <= k < ja implies !p(#[trigger] b[k]) by {
            assert(!p(a[k]));
        }
        lemma_first_index_is(b, p, ja);
    } else if jb >= 0 {
        assert(p(a[jb]));
    }
}

/// Adding a field not named `key` leaves the first field named `key` where it was;
/// adding one so named where there was none makes it the first.
proof fn lemma_push_field(a: Seq<(String, JsonValue)>, f: (String, JsonValue), key: Seq<char>)
    ensures
        f.0@ != key ==> first_index(a.push(f), named(key)) == first_index(a, named(key)),
        f.0@ == key && first_index(a, named(key)) < 0 ==> first_index(a.push(f), named(key)) == a.len(),
{
    let p = named(key);
    let b = a.push(f);
    lemma_first_index(a, p);
    lemma_first_index(b, p);
    let ja = first_index(a, p);
    if ja >= 0 {
        assert forall|k: int| 0 <= k < ja implies !p(#[trigger] b[k]) by {
            assert(b[k] == a[k]);
        }
        assert(b[ja] == a[ja]);
        lemma_first_index_is(b, p, ja);
    } else {
        assert forall|k: int| 0 <= k < a.len() implies !p(#[trigger] b[k]) by {
            assert(b[k] == a[k]);
        }
        if p(f) {
            lemma_first_index_is(b, p, a.len() as int);
        }
    }
}

/// The JSON string `0x0`.
fn zero_text() -> (res: JsonValue)
    ensures
        is_zero_text(Some(res)),
{
    JsonValue::Str(str_to_string("0x0"))
}

/// The position of the first field of `fields` named `key`.
fn find_field(fields: &Vec<(String, JsonValue)>, key: &str) -> (res: Option<usize>)
    ensures
        match res {
            Some(j) => first_index(fields@, named(key@)) == j as int && j < fields@.len(),
            None => first_index(fields@, named(key@)) < 0,
        },
{
    let mut i: usize = 0;
    while i < fields.len()
        invariant
            i <= fields@.len(),
            forall|k: int| 0 <= k < i ==> !named(key@)(#[trigger] fields@[k]),
        decreases fields@.len() - i,
    {
        if str_eq(fields[i].0.as_str(), key) {
            proof {
                lemma_first_index_is(fields@, named(key@), i as int);
            }
            return Some(i);
        }
        i = i + 1;
    }
    proof {
        lemma_first_index(fields@, named(key@));
    }
    None
}

/// Sets the first field named `key` to the string `0x0`, adding it at the end
/// where there is none; every other name keeps its value.
fn set_zero_field(fields: &mut Vec<(String, JsonValue)>, key: &str)
    ensures
        is_zero_text(field(final(fields)@, key@)),
        forall|k: Seq<char>| k != key@ ==> #[trigger] field(final(fields)@, k) == field(old(fields)@, k),
{
    let ghost a = fields@;
    match find_field(fields, key) {
        Some(i) => {
            let (name, _) = fields.remove(i);
            fields.insert(i, (name, zero_text()));
            proof {
                let b = fields@;
                lemma_first_index(a, named(key@));
                assert(a[i as int].0@ == key@);
                assert forall|m: int| 0 <= m < a.len() implies (#[trigger] a[m]).0@ == b[m].0@ by {
                    if m != i {
                        assert(b[m] == a[m]);
                    }
                }
                lemma_same_names(a, b, key@);
                assert forall|k: Seq<char>| k != key@ implies #[trigger] field(b, k) == field(a, k) by {
                    lemma_same_names(a, b, k);
                    lemma_first_index(a, named(k));
                    let j = first_index(a, named(k));
                    if j >= 0 && j != i {
                        assert(b[j] == a[j]);
                    }
                }
            }
        },
        None => {
            let name = str_to_string(key);
            let f = (name, zero_text());
            fields.push(f);
            proof {
                lemma_push_field(a, f, key@);
                assert forall|k: Seq<char>| k != key@ implies #[trigger] field(fields@, k) == field(a, k) by {
                    lemma_push_field(a, f, k);
                    lemma_first_index(a, named(k));
                    let j = first_index(a, named(k));
                    if j >= 0 {
                        assert(fields@[j] == a[j]);
                    }
                }
            }
        },
    }
}

/// One entry of the reply's result with the indexes that `p` clears set to `0x0`.
fn clear_entry(p: &RawTxExecutionTransformProcessor, entry: JsonValue) -> (res: JsonValue)
    requires
        entry is Object,
    ensures
        cleared_entry(*p, entry, res),
{
    match entry {
        JsonValue::Object(fields) => {
            let mut fields = fields;
            let ghost a = fields@;
            if p.transaction_index {
                set_zero_field(&mut fields, "transactionIndex");
            }
            let ghost m = fields@;
            if p.log_index {
                set_zero_field(&mut fields, "logIndex");
            }
            proof {
                reveal_strlit("transactionIndex");
                reveal_strlit("logIndex");
                assert("transactionIndex"@ != "logIndex"@) by {
                    assert("transactionIndex"@.len() != "logIndex"@.len());
                }
            }
            JsonValue::Object(fields)
        },
        _ => entry,
    }
}

impl RawTxExecutionTransformProcessor {
    /// The node's reply with each entry of its `result` array cleared as the processor says;
    /// a `result` that is no array leaves the reply's fields as they are.
    pub fn process_body(&self, body: JsonValue) -> (res: JsonValue)
        requires
            processable(body),
        ensures
            match body {
                JsonValue::Object(fs) => match field(fs@, "result"@) {
                    Some(JsonValue::Array(es)) => {
                        &&& res matches JsonValue::Object(fs2)
                        &&& forall|k: Seq<char>| k != "result"@ ==> #[trigger] field(fs2@, k) == field(fs@, k)
                        &&& field(fs2@, "result"@) matches Some(JsonValue::Array(es2))
                        &&& es2@.len() == es@.len()
                        &&& forall|i: int| 0 <= i < es@.len() ==> cleared_entry(*self, #[trigger] es@[i], es2@[i])
                    },
                    _ => res matches JsonValue::Object(fs2) && fs2@ == fs@,
                },
                _ => true,
            },
    {
        match body {
            JsonValue::Object(fields) => {
                let mut fields = fields;
                let ghost a = fields@;
                let j = match find_field(&fields, "result") {
                    Some(j) => j,
                    None => {
                        return JsonValue::Object(fields);
                    },
                };
                let (name, value) = fields.remove(j);
                match value {
                    JsonValue::Array(entries) => {
                        let ghost es = entries@;
                        let mut entries = entries;
                        let mut out: Vec<JsonValue> = Vec::new();
                        while entries.len() > 0
                            invariant
                                out@.len() + entries@.len() == es.len(),
                                entries@ == es.subrange(out@.len() as int, es.len() as int),
                                forall|i: int| 0 <= i < es.len() ==> (#[trigger] es[i]) is Object,
                                forall|i: int| 0 <= i < out@.len() ==> cleared_entry(*self, #[trigger] es[i], out@[i]),
                            decreases entries@.len(),
                        {
                            let e = entries.remove(0);
                            proof {
                                assert(e == es[out@.len() as int]);
                            }
                            let c = clear_entry(self, e);
                            out.push(c);
                            proof {
                                assert(entries@ =~= es.subrange(out@.len() as int, es.len() as int));
                            }
                        }
                        fields.insert(j, (name, JsonValue::Array(out)));
                        proof {
                            let b = fields@;
                            lemma_first_index(a, named("result"@));
                            assert(a[j as int].0@ == "result"@);
                            assert forall|m: int| 0 <= m < a.len() implies (#[trigger] a[m]).0@ == b[m].0@ by {
                                if m != j {
                                    assert(b[m] == a[m]);
                                }
                            }
                            lemma_same_names(a, b, "result"@);
                            assert forall|k: Seq<char>| k != "result"@ implies #[trigger] field(b, k) == field(a, k) by {
                                lemma_same_names(a, b, k);
                                lemma_first_index(a, named(k));
                                let i = first_index(a, named(k));
                                if i >= 0 && i != j {
                                    assert(b[i] == a[i]);
                                }
                            }
                        }
                        JsonValue::Object(fields)
                    },
                    other => {
                        fields.insert(j, (name, other));
                        proof {
                            assert(fields@ =~= a);
                        }
                        JsonValue::Object(fields)
                    },
                }
            },
            _ => body,
        }
    }
}

/// Whether the processor can read the reply `body` (see `processable`).
pub fn is_processable(body: &JsonValue) -> (res: bool)
    ensures
        res == processable(*body),
{
    match body {
        JsonValue::Object(fields) => match find_field(fields, "result") {
            Some(j) => {
                proof {
                    lemma_first_index(fields@, named("result"@));
                    assert(field(fields@, "result"@) == Some(fields@[j as int].1));
                }
                match &fields[j].1 {
                    JsonValue::Array(entries) => {
                        assert(fields@[j as int].1 == JsonValue::Array(*entries));
                        let mut i: usize = 0;
                        while i < entries.len()
                            invariant
                                i <= entries@.len(),
                                forall|k: int| 0 <= k < i ==> (#[trigger] entries@[k]) is Object,
                                *body == JsonValue::Object(*fields),
                                j < fields@.len(),
                                field(fields@, "result"@) == Some(fields@[j as int].1),
                                fields@[j as int].1 == JsonValue::Array(*entries),
                            decreases entries@.len() - i,
                        {
                            match &entries[i] {
                                JsonValue::Object(_) => {},
                                _ => {
                                    assert(!(entries@[i as int] is Object));
                                    return false;
                                },
                            }
                            i = i + 1;
                        }
                        true
                    },
                    _ => true,
                }
            },
            None => false,
        },
        _ => false,
    }
}

} // verus!
