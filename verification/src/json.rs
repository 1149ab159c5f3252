use vstd::prelude::*;

verus! {

/// A decoded JSON document, holding what the library reads of it: strings, arrays, objects
/// (their members in order, keys distinct) and, of a number, its value when it is an integer
/// in `u64` range (`serde_json::Value::as_u64`).
#[derive(Debug)]
pub enum Json {
    Null,
    Bool(bool),
    Number(Option<u64>),
    Str(String),
    Array(Vec<Json>),
    Object(Vec<(String, Json)>),
}

/// The value of the first member named `key`.
pub open spec fn lookup(members: Seq<(String, Json)>, key: Seq<char>) -> Option<Json>
    decreases members.len(),
{
    if members.len() == 0 {
        None
    } else if members[0].0@ == key {
        Some(members[0].1)
    } else {
        lookup(members.drop_first(), key)
    }
}

/// `Value::get(key)` chained through `Option::and_then`: the member `key` of an object.
pub open spec fn get(v: Option<Json>, key: Seq<char>) -> Option<Json> {
    match v {
        Some(Json::Object(members)) => lookup(members@, key),
        _ => None,
    }
}

/// `Value::as_str`.
pub open spec fn as_str(v: Option<Json>) -> Option<Seq<char>> {
    match v {
        Some(Json::Str(s)) => Some(s@),
        _ => None,
    }
}

/// `Value::as_array`.
pub open spec fn as_array(v: Option<Json>) -> Option<Seq<Json>> {
    match v {
        Some(Json::Array(items)) => Some(items@),
        _ => None,
    }
}

/// `Value::as_u64`.
pub open spec fn as_u64(v: Option<Json>) -> Option<u64> {
    match v {
        Some(Json::Number(n)) => n,
        _ => None,
    }
}

pub open spec fn deref_opt(o: Option<&Json>) -> Option<Json> {
    match o {
        Some(r) => Some(*r),
        None => None,
    }
}

/// `Value::get(key)`.
pub fn json_get<'a>(v: Option<&'a Json>, key: &str) -> (res: Option<&'a Json>)
    ensures
        deref_opt(res) == get(deref_opt(v), key@),
{
    let key_string = key.to_owned();
    match v {
        Some(Json::Object(members)) => {
            let mut i: usize = 0;
            assert(members@.skip(0) == members@);
            while i < members.len()
                invariant
                    i <= members.len(),
                    key_string@ == key@,
                    get(deref_opt(v), key@) == lookup(members@, key@),
                    lookup(members@, key@) == lookup(members@.skip(i as int), key@),
                decreases members.len() - i,
            {
                assert(members@.skip(i as int).drop_first() == members@.skip(i + 1));
                assert(members@.skip(i as int)[0] == members@[i as int]);
                if members[i].0 == key_string {
                    return Some(&members[i].1);
                }
                i = i + 1;
            }
            None
        },
        _ => None,
    }
}

/// `Value::as_str`.
pub fn json_str<'a>(v: Option<&'a Json>) -> (res: Option<&'a String>)
    ensures
        match res {
            Some(s) => as_str(deref_opt(v)) == Some(s@),
            None => as_str(deref_opt(v)) is None,
        },
{
    match v {
        Some(Json::Str(s)) => Some(s),
        _ => None,
    }
}

/// `Value::as_array`.
pub fn json_array<'a>(v: Option<&'a Json>) -> (res: Option<&'a Vec<Json>>)
    ensures
        match res {
            Some(a) => as_array(deref_opt(v)) == Some(a@),
            None => as_array(deref_opt(v)) is None,
        },
{
    match v {
        Some(Json::Array(items)) => Some(items),
        _ => None,
    }
}

/// `Value::as_u64`.
pub fn json_u64(v: Option<&Json>) -> (res: Option<u64>)
    ensures
        res == as_u64(deref_opt(v)),
{
    match v {
        Some(Json::Number(n)) => *n,
        _ => None,
    }
}

} // verus!
