//! JSON values as the library reads them (responses of the AI endpoints
//! and of the video platform).
use vstd::prelude::*;

verus! {

/// A JSON number, by the integer readings that the logic uses.
#[derive(Debug)]
pub struct JsonNumber {
    /// The number as an unsigned integer, if it is one.
    pub as_u64: Option<u64>,
    /// The number as a signed integer, if it is one.
    pub as_i64: Option<i64>,
    /// The number as text, when it was read from JSON text (carried
    /// through unread; used for a number that is no integer).
    pub other: Option<String>,
}

/// A JSON value. Object members keep their order; a key names the first
/// member with that key.
#[derive(Debug)]
pub enum JsonValue {
    Null,
    Bool(bool),
    Number(JsonNumber),
    Str(String),
    Array(Vec<JsonValue>),
    Object(Vec<(String, JsonValue)>),
}

/// The first member of `members` named `key`.
pub open spec fn member(members: Seq<(String, JsonValue)>, key: Seq<char>) -> Option<JsonValue>
    decreases members.len(),
{
    if members.len() == 0 {
        None
    } else if members[0].0@ == key {
        Some(members[0].1)
    } else {
        member(members.subrange(1, members.len() as int), key)
    }
}

/// `v[key]` for an object, nothing otherwise.
pub open spec fn get(v: Option<JsonValue>, key: Seq<char>) -> Option<JsonValue> {
    match v {
        Some(JsonValue::Object(m)) => member(m@, key),
        _ => None,
    }
}

/// `v[i]` for an array, nothing otherwise.
pub open spec fn at(v: Option<JsonValue>, i: int) -> Option<JsonValue> {
    match v {
        Some(JsonValue::Array(a)) => if 0 <= i < a@.len() {
            Some(a@[i])
        } else {
            None
        },
        _ => None,
    }
}

/// The text of a string value.
pub open spec fn as_str(v: Option<JsonValue>) -> Option<Seq<char>> {
    match v {
        Some(JsonValue::Str(s)) => Some(s@),
        _ => None,
    }
}

/// The unsigned integer of a number value.
pub open spec fn as_u64(v: Option<JsonValue>) -> Option<u64> {
    match v {
        Some(JsonValue::Number(n)) => n.as_u64,
        _ => None,
    }
}

/// The signed integer of a number value.
pub open spec fn as_i64(v: Option<JsonValue>) -> Option<i64> {
    match v {
        Some(JsonValue::Number(n)) => n.as_i64,
        _ => None,
    }
}

/// Member lookup by key.
pub fn get_member<'a>(v: &'a JsonValue, key: &str) -> (r: Option<&'a JsonValue>)
    ensures
        r matches Some(x) ==> get(Some(*v), key@) == Some(*x),
        r is None ==> get(Some(*v), key@) is None,
{
    match v {
        JsonValue::Object(members) => {
            let mut i: usize = 0;
            assert(members@.subrange(0, members@.len() as int) =~= members@);
            assert(get(Some(*v), key@) == member(members@, key@));
            while i < members.len()
                invariant
                    i <= members@.len(),
                    get(Some(*v), key@) == member(members@, key@),
                    member(members@, key@) == member(
                        members@.subrange(i as int, members@.len() as int),
                        key@,
                    ),
                decreases members@.len() - i,
            {
                let ghost rest = members@.subrange(i as int, members@.len() as int);
                if crate::text::str_eq(members[i].0.as_str(), key) {
                    assert(rest[0] == members@[i as int]);
                    assert(member(rest, key@) == Some(members@[i as int].1));
                    assert(member(members@, key@) == Some(members[i as int].1));
                    return Some(&members[i].1);
                }
                assert(rest.subrange(1, rest.len() as int) =~= members@.subrange(
                    i + 1,
                    members@.len() as int,
                ));
                i = i + 1;
            }
            None
        },
        _ => None,
    }
}

/// Element lookup by position.
pub fn get_index(v: &JsonValue, i: usize) -> (r: Option<&JsonValue>)
    ensures
        r matches Some(x) ==> at(Some(*v), i as int) == Some(*x),
        r is None ==> at(Some(*v), i as int) is None,
{
    match v {
        JsonValue::Array(a) => if i < a.len() {
            Some(&a[i])
        } else {
            None
        },
        _ => None,
    }
}

/// Member lookup on an optional value.
pub fn opt_member<'a>(v: Option<&'a JsonValue>, key: &str) -> (r: Option<&'a JsonValue>)
    ensures
        r matches Some(x) ==> v is Some && get(Some(*v->0), key@) == Some(*x),
        r is None ==> v is None || get(Some(*v->0), key@) is None,
{
    match v {
        Some(x) => get_member(x, key),
        None => None,
    }
}

/// Element lookup on an optional value.
pub fn opt_index(v: Option<&JsonValue>, i: usize) -> (r: Option<&JsonValue>)
    ensures
        r matches Some(x) ==> v is Some && at(Some(*v->0), i as int) == Some(*x),
        r is None ==> v is None || at(Some(*v->0), i as int) is None,
{
    match v {
        Some(x) => get_index(x, i),
        None => None,
    }
}

/// The text of an optional string value.
pub fn opt_str(v: Option<&JsonValue>) -> (r: Option<&String>)
    ensures
        r matches Some(s) ==> v is Some && as_str(Some(*v->0)) == Some(s@),
        r is None ==> v is None || as_str(Some(*v->0)) is None,
{
    match v {
        Some(JsonValue::Str(s)) => Some(s),
        _ => None,
    }
}

/// The value an optional reference points to.
pub open spec fn opt_val(v: Option<&JsonValue>) -> Option<JsonValue> {
    match v {
        Some(x) => Some(*x),
        None => None,
    }
}

/// The text of an optional string.
pub open spec fn opt_text(s: Option<String>) -> Option<Seq<char>> {
    match s {
        Some(x) => Some(x@),
        None => None,
    }
}

/// `v[key]` on an optional value.
pub fn member_of<'a>(v: Option<&'a JsonValue>, key: &str) -> (r: Option<&'a JsonValue>)
    ensures
        opt_val(r) == get(opt_val(v), key@),
{
    match v {
        Some(x) => get_member(x, key),
        None => None,
    }
}

/// `v.as_str()` as an owned string.
pub fn str_of(v: Option<&JsonValue>) -> (r: Option<String>)
    ensures
        opt_text(r) == as_str(opt_val(v)),
{
    match v {
        Some(JsonValue::Str(s)) => Some(s.clone()),
        _ => None,
    }
}

/// `v.as_u64()`.
pub fn u64_of(v: Option<&JsonValue>) -> (r: Option<u64>)
    ensures
        r == as_u64(opt_val(v)),
{
    match v {
        Some(JsonValue::Number(n)) => n.as_u64,
        _ => None,
    }
}

/// `v.as_i64()`.
pub fn i64_of(v: Option<&JsonValue>) -> (r: Option<i64>)
    ensures
        r == as_i64(opt_val(v)),
{
    match v {
        Some(JsonValue::Number(n)) => n.as_i64,
        _ => None,
    }
}

/// The elements of an array value.
pub open spec fn as_array(v: Option<JsonValue>) -> Option<Seq<JsonValue>> {
    match v {
        Some(JsonValue::Array(a)) => Some(a@),
        _ => None,
    }
}

/// `v.as_array()`.
pub fn array_of(v: Option<&JsonValue>) -> (r: Option<&Vec<JsonValue>>)
    ensures
        match r {
            Some(a) => as_array(opt_val(v)) == Some(a@),
            None => as_array(opt_val(v)) is None,
        },
{
    match v {
        Some(JsonValue::Array(a)) => Some(a),
        _ => None,
    }
}

/// A JSON number holding `n`.
pub fn number_u64(n: u64) -> (r: JsonValue)
    ensures
        r == JsonValue::Number(
            JsonNumber {
                as_u64: Some(n),
                as_i64: if n <= i64::MAX as u64 {
                    Some(n as i64)
                } else {
                    None
                },
                other: None,
            },
        ),
{
    let as_i64 = if n <= 9223372036854775807u64 {
        Some(n as i64)
    } else {
        None
    };
    JsonValue::Number(JsonNumber { as_u64: Some(n), as_i64, other: None })
}

/// The first member named `key` is the one at `i` when no earlier member
/// has that name.
pub proof fn lemma_member_at(m: Seq<(String, JsonValue)>, key: Seq<char>, i: int)
    requires
        0 <= i < m.len(),
        m[i].0@ == key,
        forall|j: int| 0 <= j < i ==> m[j].0@ != key,
    ensures
        member(m, key) == Some(m[i].1),
    decreases i,
{
    if i > 0 {
        let t = m.subrange(1, m.len() as int);
        assert forall|j: int| 0 <= j < i - 1 implies t[j].0@ != key by {
            assert(t[j] == m[j + 1]);
        }
        lemma_member_at(t, key, i - 1);
    }
}

/// The members of an object (none for other values).
pub open spec fn members_of(v: JsonValue) -> Seq<(String, JsonValue)> {
    match v {
        JsonValue::Object(m) => m@,
        _ => Seq::<(String, JsonValue)>::empty(),
    }
}

/// No member named `key`: nothing is found.
pub proof fn lemma_member_absent(m: Seq<(String, JsonValue)>, key: Seq<char>)
    requires
        forall|j: int| 0 <= j < m.len() ==> m[j].0@ != key,
    ensures
        member(m, key) is None,
    decreases m.len(),
{
    if m.len() > 0 {
        let t = m.subrange(1, m.len() as int);
        assert forall|j: int| 0 <= j < t.len() implies t[j].0@ != key by {
            assert(t[j] == m[j + 1]);
        }
        lemma_member_absent(t, key);
    }
}

/// Appending a member with another name does not change a lookup.
pub proof fn lemma_member_push(m: Seq<(String, JsonValue)>, x: (String, JsonValue), k: Seq<char>)
    requires
        x.0@ != k,
    ensures
        member(m.push(x), k) == member(m, k),
    decreases m.len(),
{
    let p = m.push(x);
    assert(p[0] == if m.len() == 0 {
        x
    } else {
        m[0]
    });
    if m.len() == 0 {
        assert(p.subrange(1, p.len() as int) =~= Seq::<(String, JsonValue)>::empty());
    } else {
        assert(p.subrange(1, p.len() as int) =~= m.subrange(1, m.len() as int).push(x));
        lemma_member_push(m.subrange(1, m.len() as int), x, k);
        if m[0].0@ == k {
            assert(member(p, k) == Some(m[0].1));
        } else {
            assert(member(p, k) == member(p.subrange(1, p.len() as int), k));
        }
    }
}

/// Replacing a member by one of the same name does not change a lookup of
/// another name.
pub proof fn lemma_member_update(
    m: Seq<(String, JsonValue)>,
    i: int,
    x: (String, JsonValue),
    k: Seq<char>,
)
    requires
        0 <= i < m.len(),
        m[i].0@ == x.0@,
        x.0@ != k,
    ensures
        member(m.update(i, x), k) == member(m, k),
    decreases m.len(),
{
    let u = m.update(i, x);
    if i > 0 {
        assert(u.subrange(1, u.len() as int) =~= m.subrange(1, m.len() as int).update(i - 1, x));
        lemma_member_update(m.subrange(1, m.len() as int), i - 1, x, k);
    } else {
        assert(u.subrange(1, u.len() as int) =~= m.subrange(1, m.len() as int));
    }
}

/// The member `key` of an object, taken out of it.
pub fn into_member(v: JsonValue, key: &str) -> (r: Option<JsonValue>)
    ensures
        r == get(Some(v), key@),
{
    match v {
        JsonValue::Object(m) => {
            let ghost m0 = m@;
            assert(get(Some(v), key@) == member(m0, key@));
            let mut m = m;
            let mut i: usize = 0;
            while i < m.len()
                invariant
                    get(Some(v), key@) == member(m0, key@),
                    m@ == m0,
                    i <= m0.len(),
                    forall|j: int| 0 <= j < i ==> m0[j].0@ != key@,
                decreases m0.len() - i,
            {
                if crate::text::str_eq(m[i].0.as_str(), key) {
                    proof {
                        lemma_member_at(m0, key@, i as int);
                    }
                    let pair = m.remove(i);
                    assert(pair == m0[i as int]);
                    return Some(pair.1);
                }
                i = i + 1;
            }
            proof {
                lemma_member_absent(m0, key@);
            }
            None
        },
        _ => None,
    }
}

/// Sets the member `key` of an object's members to `value`: an existing
/// member is replaced in place, else the member is appended.
pub fn set_member(members: &mut Vec<(String, JsonValue)>, key: &str, value: JsonValue)
    ensures
        member(final(members)@, key@) == Some(value),
        forall|k: Seq<char>| k != key@ ==> member(final(members)@, k) == member(old(members)@, k),
{
    let mut i: usize = 0;
    while i < members.len()
        invariant
            i <= members@.len(),
            members@ == old(members)@,
            forall|j: int| 0 <= j < i ==> members@[j].0@ != key@,
        decreases members@.len() - i,
    {
        if crate::text::str_eq(members[i].0.as_str(), key) {
            let ghost before = members@;
            let name = members[i].0.clone();
            let x = (name, value);
            members.set(i, x);
            proof {
                lemma_member_at(members@, key@, i as int);
                assert forall|k: Seq<char>| k != key@ implies member(members@, k) == member(
                    before,
                    k,
                ) by {
                    lemma_member_update(before, i as int, x, k);
                }
            }
            return ;
        }
        i = i + 1;
    }
    let ghost before = members@;
    let x = (key.to_string(), value);
    members.push(x);
    proof {
        lemma_member_at(members@, key@, before.len() as int);
        assert forall|k: Seq<char>| k != key@ implies member(members@, k) == member(before, k) by {
            lemma_member_push(before, x, k);
        }
    }
}

#[verifier::external_type_specification]
#[verifier::external_body]
pub struct ExSerdeValue(serde_json::Value);

/// What `serde_json::from_str` makes of a text, as a `serde_json::Value`
/// in the library's form, or the text of its error.
pub uninterp spec fn json_reading(text: Seq<char>) -> Result<JsonValue, Seq<char>>;

/// The JSON value a text reads as, if it reads as JSON.
pub open spec fn json_value_of(text: Seq<char>) -> Option<JsonValue> {
    match json_reading(text) {
        Ok(v) => Some(v),
        Err(_) => None,
    }
}

/// The library's form of a `serde_json::Value`: variant by variant, object
/// members in the map's order, a number by its `as_u64`, its `as_i64` and
/// its text.
#[verifier::external_body]
fn json_of_serde(v: &serde_json::Value) -> JsonValue {
    match v {
        serde_json::Value::Null => JsonValue::Null,
        serde_json::Value::Bool(b) => JsonValue::Bool(*b),
        serde_json::Value::Number(n) => JsonValue::Number(
            JsonNumber { as_u64: n.as_u64(), as_i64: n.as_i64(), other: Some(n.to_string()) },
        ),
        serde_json::Value::String(t) => JsonValue::Str(t.clone()),
        serde_json::Value::Array(a) => JsonValue::Array(a.iter().map(json_of_serde).collect()),
        serde_json::Value::Object(m) => JsonValue::Object(
            m.iter().map(|(k, x)| (k.clone(), json_of_serde(x))).collect(),
        ),
    }
}

/// `serde_json::from_str::<serde_json::Value>` on `text`: the value in the
/// library's form, or the error's text (`json_reading` names both).
#[verifier::external_body]
pub(crate) fn read_json(text: &str) -> (r: Result<JsonValue, String>)
    ensures
        match r {
            Ok(v) => json_reading(text@) == Ok::<JsonValue, Seq<char>>(v),
            Err(e) => json_reading(text@) == Err::<JsonValue, Seq<char>>(e@),
        },
{
    match serde_json::from_str::<serde_json::Value>(text) {
        Ok(v) => Ok(json_of_serde(&v)),
        Err(e) => Err(e.to_string()),
    }
}

} // verus!
