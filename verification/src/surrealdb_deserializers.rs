//! Reading plain values from documents of the storage engine, where the
//! engine may hand out a value either as it is or as the key of a record
//! identifier.

use vstd::prelude::*;
use crate::shapes::Malformed;
use crate::text::{copy_bytes, opt_bytes_view};
use crate::value::{Value, ValueView};

verus! {

/// The value itself or, of a record identifier, its key.
pub open spec fn plain_or_key(v: ValueView) -> ValueView {
    match v {
        ValueView::Record(_, key) => *key,
        _ => v,
    }
}

/// The text that a document stands for: a string, or a record identifier
/// whose key is a string.
pub open spec fn string_spec(v: ValueView) -> Option<Seq<char>> {
    match plain_or_key(v) {
        ValueView::Strand(s) => Some(s),
        _ => None,
    }
}

/// The 32-bit number that a document stands for: a number that is not
/// negative, of which the low 32 bits count; or a record identifier whose
/// key is a number that fits in 32 bits.
pub open spec fn u32_spec(v: ValueView) -> Option<u32> {
    match v {
        ValueView::Int(n) => if n < 0 {
            None
        } else {
            Some((n % 0x1_0000_0000) as u32)
        },
        ValueView::Record(_, key) => match *key {
            ValueView::Int(n) => if 0 <= n <= u32::MAX {
                Some(n as u32)
            } else {
                None
            },
            _ => None,
        },
        _ => None,
    }
}

/// The identifier that a document stands for: a universally unique
/// identifier, or a record identifier whose key is one.
pub open spec fn uuid_spec(v: ValueView) -> Option<u128> {
    match plain_or_key(v) {
        ValueView::Uuid(id) => Some(id),
        _ => None,
    }
}

/// The bytes that a document stands for.
pub open spec fn bytes_spec(v: ValueView) -> Option<Seq<u8>> {
    match v {
        ValueView::Bytes(b) => Some(b),
        _ => None,
    }
}

/// The bytes that a document stands for, where it may stand for none: a
/// value that is absent or null stands for none.
pub open spec fn optional_bytes_spec(v: ValueView) -> Option<Option<Seq<u8>>> {
    match v {
        ValueView::Bytes(b) => Some(Some(b)),
        ValueView::Absent => Some(None),
        ValueView::Null => Some(None),
        _ => None,
    }
}

/// The value itself or, of a record identifier, its key.
pub fn value_or_key(v: &Value) -> (r: &Value)
    ensures
        r@ == plain_or_key(v@),
{
    match v {
        Value::Record(_, key) => {
            assert(v@->Record_1 == Box::new((**key)@));
            &**key
        },
        _ => v,
    }
}

/// Reads a text.
pub fn deserialize_string(v: &Value) -> (r: Result<String, Malformed>)
    ensures
        match r {
            Ok(s) => string_spec(v@) == Some(s@),
            Err(_) => string_spec(v@) is None,
        },
{
    match value_or_key(v) {
        Value::Strand(s) => Ok(s.clone()),
        _ => Err(Malformed),
    }
}

/// Reads a 32-bit number.
pub fn deserialize_u32(v: &Value) -> (r: Result<u32, Malformed>)
    ensures
        match r {
            Ok(n) => u32_spec(v@) == Some(n),
            Err(_) => u32_spec(v@) is None,
        },
{
    match v {
        Value::Int(n) => if *n < 0 {
            Err(Malformed)
        } else {
            Ok((*n % 0x1_0000_0000) as u32)
        },
        Value::Record(_, key) => {
            assert(v@->Record_1 == Box::new((**key)@));
            match &**key {
                Value::Int(n) => if 0 <= *n && *n <= 0xffff_ffff {
                    Ok(*n as u32)
                } else {
                    Err(Malformed)
                },
                _ => Err(Malformed),
            }
        },
        _ => Err(Malformed),
    }
}

/// Reads a universally unique identifier.
pub fn deserialize_uuid(v: &Value) -> (r: Result<u128, Malformed>)
    ensures
        match r {
            Ok(id) => uuid_spec(v@) == Some(id),
            Err(_) => uuid_spec(v@) is None,
        },
{
    match value_or_key(v) {
        Value::Uuid(id) => Ok(*id),
        _ => Err(Malformed),
    }
}

/// Reads bytes.
pub fn deserialize_bytes(v: &Value) -> (r: Result<Vec<u8>, Malformed>)
    ensures
        match r {
            Ok(b) => bytes_spec(v@) == Some(b@),
            Err(_) => bytes_spec(v@) is None,
        },
{
    match v {
        Value::Bytes(b) => Ok(copy_bytes(b.as_slice())),
        _ => Err(Malformed),
    }
}

/// Reads bytes that may be missing.
pub fn deserialize_optional_bytes(v: &Value) -> (r: Result<Option<Vec<u8>>, Malformed>)
    ensures
        match r {
            Ok(b) => optional_bytes_spec(v@) == Some(opt_bytes_view(b)),
            Err(_) => optional_bytes_spec(v@) is None,
        },
{
    match v {
        Value::Bytes(b) => Ok(Some(copy_bytes(b.as_slice()))),
        Value::Absent => Ok(None),
        Value::Null => Ok(None),
        _ => Err(Malformed),
    }
}

} // verus!
