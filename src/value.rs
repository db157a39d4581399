use vstd::prelude::*;

verus! {

broadcast use vstd::std_specs::vec::group_vec_axioms;

/// A JSON number as the parser read it.
#[derive(Clone, Copy, Debug, PartialEq, Eq, Structural)]
pub enum JsonNumber {
    /// A non-negative integer.
    PosInt(u64),
    /// A negative integer.
    NegInt(i64),
    /// A number with a fraction or an exponent, as the bits of an IEEE-754 double.
    Float(u64),
}

/// A parsed JSON value. Object members keep the order in which they appeared.
#[derive(Debug, PartialEq)]
pub enum JsonValue {
    Null,
    Bool(bool),
    Number(JsonNumber),
    Str(String),
    Array(Vec<JsonValue>),
    Object(Vec<(String, JsonValue)>),
}

/// A value of the document compiler's own model.
#[derive(Debug, PartialEq)]
pub enum TypstValue {
    NoneValue,
    Bool(bool),
    Int(i64),
    /// A floating-point value: that of the given JSON number.
    Float(JsonNumber),
    Str(String),
    Array(Vec<TypstValue>),
    Dict(Vec<(String, TypstValue)>),
}

/// The integer that `n` stands for exactly, when it fits in an `i64`.
pub open spec fn exact_int(n: JsonNumber) -> Option<i64> {
    match n {
        JsonNumber::PosInt(u) => if u <= i64::MAX { Some(u as i64) } else { None },
        JsonNumber::NegInt(i) => Some(i),
        JsonNumber::Float(_) => None,
    }
}

/// `t` is the conversion of `v`: null to none, booleans and strings as they
/// are, exact integers to integers, other numbers to floats, arrays and
/// objects element by element, in order.
pub open spec fn converts(v: JsonValue, t: TypstValue) -> bool
    decreases v,
{
    match v {
        JsonValue::Null => t == TypstValue::NoneValue,
        JsonValue::Bool(b) => t == TypstValue::Bool(b),
        JsonValue::Number(n) => match exact_int(n) {
            Some(i) => t == TypstValue::Int(i),
            None => t == TypstValue::Float(n),
        },
        JsonValue::Str(s) => match t {
            TypstValue::Str(u) => u@ == s@,
            _ => false,
        },
        JsonValue::Array(a) => match t {
            TypstValue::Array(b) => a@.len() == b@.len() && forall|i: int|
                0 <= i < a@.len() ==> converts(#[trigger] a@[i], b@[i]),
            _ => false,
        },
        JsonValue::Object(o) => match t {
            TypstValue::Dict(d) => o@.len() == d@.len() && forall|i: int|
                0 <= i < o@.len() ==> (#[trigger] o@[i]).0@ == d@[i].0@ && converts(o@[i].1, d@[i].1),
            _ => false,
        },
    }
}

/// A number that stands for an integer exactly converts to an integer; any
/// other number converts to a float.
pub proof fn lemma_number_kind(n: JsonNumber, t: TypstValue)
    requires
        converts(JsonValue::Number(n), t),
    ensures
        exact_int(n) is Some ==> t is Int,
        exact_int(n) is None ==> t is Float,
        n is Float ==> t is Float,
{
}

/// Converts a number: an exact integer that fits becomes an integer, any
/// other number a float.
pub fn convert_number(n: JsonNumber) -> (r: TypstValue)
    ensures
        converts(JsonValue::Number(n), r),
{
    match n {
        JsonNumber::PosInt(u) => if u <= i64::MAX as u64 {
            TypstValue::Int(u as i64)
        } else {
            TypstValue::Float(n)
        },
        JsonNumber::NegInt(i) => TypstValue::Int(i),
        JsonNumber::Float(_) => TypstValue::Float(n),
    }
}

/// Converts a JSON value into the compiler's value model.
pub fn json_to_typst(value: &JsonValue) -> (r: TypstValue)
    ensures
        converts(*value, r),
    decreases value,
{
    match value {
        JsonValue::Null => TypstValue::NoneValue,
        JsonValue::Bool(b) => TypstValue::Bool(*b),
        JsonValue::Number(n) => convert_number(*n),
        JsonValue::Str(s) => TypstValue::Str(s.clone()),
        JsonValue::Array(a) => {
            let mut out: Vec<TypstValue> = Vec::new();
            let mut i: usize = 0;
            while i < a.len()
                invariant
                    *value == JsonValue::Array(*a),
                    i <= a@.len(),
                    out@.len() == i,
                    forall|k: int| 0 <= k < i ==> converts(#[trigger] a@[k], out@[k]),
                decreases a@.len() - i,
            {
                proof {
                    assert(decreases_to!(*value => (*value)->Array_0));
                    assert(decreases_to!(*a => a@));
                    assert(decreases_to!(a@ => a@[i as int]));
                }
                let t = json_to_typst(&a[i]);
                out.push(t);
                i = i + 1;
            }
            TypstValue::Array(out)
        },
        JsonValue::Object(o) => {
            let mut out: Vec<(String, TypstValue)> = Vec::new();
            let mut i: usize = 0;
            while i < o.len()
                invariant
                    *value == JsonValue::Object(*o),
                    i <= o@.len(),
                    out@.len() == i,
                    forall|k: int| 0 <= k < i ==> (#[trigger] o@[k]).0@ == out@[k].0@ && converts(o@[k].1, out@[k].1),
                decreases o@.len() - i,
            {
                proof {
                    assert(decreases_to!(*value => (*value)->Object_0));
                    assert(decreases_to!(*o => o@));
                    assert(decreases_to!(o@ => o@[i as int]));
                    assert(decreases_to!(o@[i as int] => o@[i as int].1));
                }
                let t = json_to_typst(&o[i].1);
                out.push((o[i].0.clone(), t));
                i = i + 1;
            }
            TypstValue::Dict(out)
        },
    }
}

} // verus!
