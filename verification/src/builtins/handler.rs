//! The failure a label handler reports to the extension dispatcher, with
//! the structured data that travels beside its message.
use vstd::prelude::*;

verus! {

/// One value of a handler error's structured data.
#[derive(Debug, Clone, PartialEq, Eq)]
pub enum DataValue {
    Str(String),
    U64(u64),
}

/// A failure reported by a label handler.
#[derive(Debug, Clone, PartialEq, Eq)]
pub enum HandlerError {
    /// A handler-defined failure: a numeric code, a message, and optional
    /// structured data as key/value entries.
    Custom { code: i32, message: String, data: Option<Vec<(String, DataValue)>> },
    /// An internal failure of the handler.
    Internal { message: String },
    /// The handler does not support the request.
    Unsupported { detail: String },
}

impl HandlerError {
    /// An internal failure with the given message.
    pub fn internal(message: String) -> (e: Self)
        ensures
            e == (HandlerError::Internal { message }),
    {
        HandlerError::Internal { message }
    }
}

/// The value stored under `key`: that of the first entry with the key.
pub open spec fn data_lookup(d: Seq<(String, DataValue)>, key: Seq<char>) -> Option<DataValue>
    decreases d.len(),
{
    if d.len() == 0 {
        None
    } else if d[0].0@ == key {
        Some(d[0].1)
    } else {
        data_lookup(d.drop_first(), key)
    }
}

/// The string stored under `key`, if the value there is a string.
pub open spec fn data_str_of(data: Option<Vec<(String, DataValue)>>, key: Seq<char>) -> Option<Seq<char>> {
    match data {
        Some(d) => match data_lookup(d@, key) {
            Some(DataValue::Str(s)) => Some(s@),
            _ => None,
        },
        None => None,
    }
}

/// The number stored under `key`, if the value there is a number.
pub open spec fn data_u64_of(data: Option<Vec<(String, DataValue)>>, key: Seq<char>) -> Option<u64> {
    match data {
        Some(d) => match data_lookup(d@, key) {
            Some(DataValue::U64(n)) => Some(n),
            _ => None,
        },
        None => None,
    }
}

/// Whether `e` is a `Custom` failure with this code and message.
pub open spec fn custom_is(e: HandlerError, code: i32, message: Seq<char>) -> bool {
    e matches HandlerError::Custom { code: c, message: m, .. } && c == code && m@ == message
}

/// The structured data of a `Custom` failure, if any.
pub open spec fn custom_data(e: HandlerError) -> Option<Vec<(String, DataValue)>> {
    match e {
        HandlerError::Custom { data, .. } => data,
        _ => None,
    }
}

/// Whether the data is exactly these string entries, in order.
pub open spec fn str_entries(data: Option<Vec<(String, DataValue)>>, kv: Seq<(Seq<char>, Seq<char>)>) -> bool {
    match data {
        Some(d) => d@.len() == kv.len() && forall|i: int| 0 <= i < kv.len() ==> (#[trigger] d@[i]).0@ == kv[i].0
            && (d@[i].1 matches DataValue::Str(s) && s@ == kv[i].1),
        None => false,
    }
}

/// Look up `key` in the entries.
fn lookup<'a>(d: &'a Vec<(String, DataValue)>, key: &str) -> (r: Option<&'a DataValue>)
    ensures
        match (r, data_lookup(d@, key@)) {
            (Some(v), Some(w)) => *v == w,
            (None, None) => true,
            _ => false,
        },
{
    let mut i: usize = 0;
    assert(d@.skip(0) =~= d@);
    while i < d.len()
        invariant
            i <= d@.len(),
            data_lookup(d@, key@) == data_lookup(d@.skip(i as int), key@),
        decreases d@.len() - i,
    {
        assert(d@.skip(i as int)[0] == d@[i as int]);
        assert(d@.skip(i as int).drop_first() =~= d@.skip(i + 1));
        if crate::text::str_eq(d[i].0.as_str(), key) {
            return Some(&d[i].1);
        }
        i += 1;
    }
    None
}

/// The string stored under `key` in optional handler data.
pub fn data_str(data: &Option<Vec<(String, DataValue)>>, key: &str) -> (r: Option<String>)
    ensures
        match (r, data_str_of(*data, key@)) {
            (Some(s), Some(t)) => s@ == t,
            (None, None) => true,
            _ => false,
        },
{
    match data {
        Some(d) => match lookup(d, key) {
            Some(DataValue::Str(s)) => Some(s.clone()),
            _ => None,
        },
        None => None,
    }
}

/// The number stored under `key` in optional handler data.
pub fn data_u64(data: &Option<Vec<(String, DataValue)>>, key: &str) -> (r: Option<u64>)
    ensures
        r == data_u64_of(*data, key@),
{
    match data {
        Some(d) => match lookup(d, key) {
            Some(DataValue::U64(n)) => Some(*n),
            _ => None,
        },
        None => None,
    }
}

} // verus!
