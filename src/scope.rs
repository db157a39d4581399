use vstd::prelude::*;
use crate::value::{converts, json_to_typst, JsonNumber, JsonValue, TypstValue};

verus! {

#[verifier::external_type_specification]
#[verifier::external_body]
pub struct ExJsonValue(serde_json::Value);

/// The value that the JSON text `text` denotes, or `None` where it is not
/// well-formed JSON.
pub uninterp spec fn json_of(text: Seq<char>) -> Option<JsonValue>;

#[verifier::external_type_specification]
#[verifier::external_body]
pub struct ExJsonNumber(serde_json::Number);

/// Relies on serde_json::Number::as_u64, as_i64 and as_f64: moves a number
/// into the library's model, as the integer that it holds, else as the bits
/// of its double (NaN where it has none).
#[verifier::external_body]
fn number_from_serde(n: serde_json::Number) -> JsonNumber {
    match (n.as_u64(), n.as_i64()) {
        (Some(u), _) => JsonNumber::PosInt(u),
        (None, Some(i)) => JsonNumber::NegInt(i),
        _ => JsonNumber::Float(n.as_f64().map(|x| x.to_bits()).unwrap_or(0x7ff8000000000000u64)),
    }
}

/// Relies on the variants of serde_json::Value and on serde_json::Map's
/// iteration, which keeps insertion order under `preserve_order`: moves a
/// parsed value into the library's JSON model.
#[verifier::external_body]
fn from_serde(v: serde_json::Value) -> JsonValue {
    match v {
        serde_json::Value::Null => JsonValue::Null,
        serde_json::Value::Bool(b) => JsonValue::Bool(b),
        serde_json::Value::Number(n) => JsonValue::Number(number_from_serde(n)),
        serde_json::Value::String(s) => JsonValue::Str(s),
        serde_json::Value::Array(a) => JsonValue::Array(a.into_iter().map(from_serde).collect()),
        serde_json::Value::Object(o) => JsonValue::Object(o.into_iter().map(|(k, x)| (k, from_serde(x))).collect()),
    }
}

/// Relies on serde_json::from_str: parses `text` as one JSON value, and
/// fails on malformed text.
#[verifier::external_body]
fn parse_json(text: &str) -> (r: Option<JsonValue>)
    ensures
        r == json_of(text@),
{
    serde_json::from_str::<serde_json::Value>(text).ok().map(from_serde)
}

/// The value bound to `k` in `s`: the last entry with that key wins.
pub open spec fn lookup<V>(s: Seq<(String, V)>, k: Seq<char>) -> Option<V>
    decreases s.len(),
{
    if s.len() == 0 {
        None
    } else if s.last().0@ == k {
        Some(s.last().1)
    } else {
        lookup(s.drop_last(), k)
    }
}

/// No two entries of `s` share a key.
pub open spec fn keys_unique<V>(s: Seq<(String, V)>) -> bool {
    forall|i: int, j: int| 0 <= i < j < s.len() ==> (#[trigger] s[i]).0@ != (#[trigger] s[j]).0@
}

proof fn lemma_lookup_found<V>(s: Seq<(String, V)>, i: int)
    requires
        keys_unique(s),
        0 <= i < s.len(),
    ensures
        lookup(s, s[i].0@) == Some(s[i].1),
    decreases s.len(),
{
    if i < s.len() - 1 {
        assert(s.drop_last()[i] == s[i]);
        assert(keys_unique(s.drop_last()));
        lemma_lookup_found(s.drop_last(), i);
    }
}

proof fn lemma_lookup_absent<V>(s: Seq<(String, V)>, k: Seq<char>)
    requires
        forall|i: int| 0 <= i < s.len() ==> (#[trigger] s[i]).0@ != k,
    ensures
        lookup(s, k) is None,
    decreases s.len(),
{
    if s.len() > 0 {
        assert(forall|i: int| 0 <= i < s.len() - 1 ==> #[trigger] s.drop_last()[i] == s[i]);
        lemma_lookup_absent(s.drop_last(), k);
    }
}

/// Binds `key` to `value` in `s`, replacing an earlier binding of the same key.
pub fn bind<V>(s: &mut Vec<(String, V)>, key: String, value: V)
    requires
        keys_unique(old(s)@),
    ensures
        keys_unique(final(s)@),
        lookup(final(s)@, key@) == Some(value),
        forall|k: Seq<char>| k != key@ ==> #[trigger] lookup(final(s)@, k) == lookup(old(s)@, k),
{
    let mut i: usize = 0;
    while i < s.len()
        invariant
            i <= s@.len(),
            s@ == old(s)@,
            keys_unique(old(s)@),
            forall|j: int| 0 <= j < i ==> (#[trigger] s@[j]).0@ != key@,
        decreases s@.len() - i,
    {
        if s[i].0 == key {
            let ghost before = s@;
            s.set(i, (key, value));
            proof {
                assert forall|a: int, b: int| 0 <= a < b < s@.len() implies (#[trigger] s@[a]).0@ != (#[trigger] s@[b]).0@ by {
                    assert(before[a].0@ != before[b].0@);
                }
                lemma_lookup_found(s@, i as int);
                assert forall|k: Seq<char>| k != key@ implies #[trigger] lookup(s@, k) == lookup(before, k) by {
                    lemma_lookup_same(before, s@, i as int, k);
                }
            }
            return;
        }
        i = i + 1;
    }
    let ghost before = s@;
    s.push((key, value));
    proof {
        assert(s@.drop_last() =~= before);
        assert forall|a: int, b: int| 0 <= a < b < s@.len() implies (#[trigger] s@[a]).0@ != (#[trigger] s@[b]).0@ by {
            if b < before.len() {
                assert(s@[a] == before[a] && s@[b] == before[b]);
            }
        }
    }
}

proof fn lemma_lookup_same<V>(s: Seq<(String, V)>, t: Seq<(String, V)>, i: int, k: Seq<char>)
    requires
        s.len() == t.len(),
        0 <= i < s.len(),
        s[i].0@ != k,
        t[i].0@ != k,
        forall|j: int| 0 <= j < s.len() && j != i ==> #[trigger] s[j] == t[j],
    ensures
        lookup(s, k) == lookup(t, k),
    decreases s.len(),
{
    if s.len() > 0 {
        if i < s.len() - 1 {
            assert(s.last() == t.last());
            if s.last().0@ != k {
                lemma_lookup_same(s.drop_last(), t.drop_last(), i, k);
            }
        } else {
            assert(s.drop_last() =~= t.drop_last());
        }
    }
}

/// What the JSON-origin bindings `json` give to `k`: where the text bound to
/// `k` parses, `got` holds its conversion; otherwise nothing is bound.
pub open spec fn from_json(json: Seq<(String, String)>, k: Seq<char>, got: Option<TypstValue>) -> bool {
    match lookup(json, k) {
        Some(text) => match json_of(text@) {
            Some(v) => got is Some && converts(v, got->0),
            None => got is None,
        },
        None => got is None,
    }
}

/// What the merged scope binds to `k`: the native-origin value where there is
/// one, else what the JSON-origin bindings give.
pub open spec fn merged(
    json: Seq<(String, String)>,
    vars: Seq<(String, TypstValue)>,
    k: Seq<char>,
    got: Option<TypstValue>,
) -> bool {
    match lookup(vars, k) {
        Some(t) => got == Some(t),
        None => from_json(json, k, got),
    }
}

/// On a key bound in both namespaces, the merged scope holds the
/// native-origin value.
pub proof fn lemma_native_wins(
    json: Seq<(String, String)>,
    vars: Seq<(String, TypstValue)>,
    k: Seq<char>,
    got: Option<TypstValue>,
)
    requires
        merged(json, vars, k, got),
        lookup(json, k) is Some,
        lookup(vars, k) is Some,
    ensures
        got == lookup(vars, k),
{
}

/// A JSON-origin binding whose text is malformed, and that no native-origin
/// binding shadows, leaves its key unbound.
pub proof fn lemma_malformed_skipped(
    json: Seq<(String, String)>,
    vars: Seq<(String, TypstValue)>,
    k: Seq<char>,
    got: Option<TypstValue>,
)
    requires
        merged(json, vars, k, got),
        lookup(vars, k) is None,
        lookup(json, k) is Some,
        json_of(lookup(json, k)->0@) is None,
    ensures
        got is None,
{
}

proof fn lemma_lookup_take<V>(s: Seq<(String, V)>, i: int, k: Seq<char>)
    requires
        0 <= i < s.len(),
    ensures
        lookup(s.take(i + 1), k) == if s[i].0@ == k { Some(s[i].1) } else { lookup(s.take(i), k) },
{
    assert(s.take(i + 1).drop_last() =~= s.take(i));
}

/// Builds the global scope: the JSON-origin bindings first, each parsed and
/// converted and silently left out where its text is malformed, then the
/// native-origin bindings, which win on a shared key.
pub fn make_scope(json: &Vec<(String, String)>, vars: Vec<(String, TypstValue)>) -> (r: Vec<(String, TypstValue)>)
    requires
        keys_unique(json@),
        keys_unique(vars@),
    ensures
        keys_unique(r@),
        forall|k: Seq<char>| #[trigger] merged(json@, vars@, k, lookup(r@, k)),
{
    let mut scope: Vec<(String, TypstValue)> = Vec::new();
    let mut i: usize = 0;
    while i < json.len()
        invariant
            i <= json@.len(),
            keys_unique(json@),
            keys_unique(scope@),
            forall|k: Seq<char>| #[trigger] from_json(json@.take(i as int), k, lookup(scope@, k)),
        decreases json@.len() - i,
    {
        let parsed = parse_json(json[i].1.as_str());
        let ghost before = scope@;
        let ghost key = json@[i as int].0@;
        match parsed {
            Some(v) => {
                let t = json_to_typst(&v);
                bind(&mut scope, json[i].0.clone(), t);
            },
            None => {},
        }
        proof {
            assert forall|k: Seq<char>| #[trigger] from_json(json@.take(i + 1), k, lookup(scope@, k)) by {
                assert(from_json(json@.take(i as int), k, lookup(before, k)));
                lemma_lookup_take(json@, i as int, k);
                if k == key {
                    if parsed is None {
                        assert forall|j: int| 0 <= j < json@.take(i as int).len() implies (#[trigger] json@.take(i as int)[j]).0@ != k by {
                            assert(json@[j] == json@.take(i as int)[j]);
                        }
                        lemma_lookup_absent(json@.take(i as int), k);
                    }
                } else {
                    assert(lookup(scope@, k) == lookup(before, k));
                }
            }
        }
        i = i + 1;
    }
    assert(json@.take(json@.len() as int) =~= json@);
    let ghost all = vars@;
    let count = vars.len();
    let mut rest = vars;
    let mut n: usize = 0;
    while rest.len() > 0
        invariant
            n + rest@.len() == all.len(),
            all.len() == count,
            rest@ == all.skip(n as int),
            keys_unique(all),
            keys_unique(scope@),
            forall|k: Seq<char>| #[trigger] merged(json@, all.take(n as int), k, lookup(scope@, k)),
        decreases rest@.len(),
    {
        let ghost before = scope@;
        let (k0, v0) = rest.remove(0);
        let ghost key = k0@;
        assert(all[n as int] == (k0, v0));
        bind(&mut scope, k0, v0);
        proof {
            assert forall|k: Seq<char>| #[trigger] merged(json@, all.take(n + 1), k, lookup(scope@, k)) by {
                assert(merged(json@, all.take(n as int), k, lookup(before, k)));
                lemma_lookup_take(all, n as int, k);
                if k != key {
                    assert(lookup(scope@, k) == lookup(before, k));
                }
            }
            assert(rest@ =~= all.skip(n + 1));
        }
        n = n + 1;
    }
    assert(all.take(n as int) =~= all);
    scope
}

} // verus!
