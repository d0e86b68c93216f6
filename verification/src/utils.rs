//! Small helpers over the scene's JSON values.
use vstd::prelude::*;
use crate::json::{JsonNumber, JsonValue, id_of};

verus! {

/// The identifier a value gives: a string as it is, an integer in decimal.
pub fn id_str(v: &JsonValue) -> (res: Option<String>)
    ensures
        match res {
            Some(s) => id_of(v@) == Some(s@),
            None => id_of(v@) is None,
        },
{
    match v {
        JsonValue::String(s) => Some(s.clone()),
        JsonValue::Number(JsonNumber::PosInt(n)) => {
            let mut s = String::new();
            crate::text::push_decimal(&mut s, *n);
            Some(s)
        },
        JsonValue::Number(JsonNumber::NegInt(n)) => Some(crate::text::i64_to_string(*n)),
        _ => None,
    }
}

} // verus!
