//! The JSON values the scene files are made of, and the ways the conversion
//! reads them. Numbers are carried as read: integers as integers, and other
//! numbers as the bit pattern of their binary64 value, which only the caller
//! that does arithmetic interprets.
use vstd::prelude::*;
use crate::text::{str_eq, decimal, signed_decimal};

verus! {

/// A JSON number as the JSON reader holds it.
#[derive(Debug, Clone, Copy, PartialEq)]
pub enum JsonNumber {
    /// A non-negative integer.
    PosInt(u64),
    /// A negative integer.
    NegInt(i64),
    /// Any other number, as the bits of its binary64 value.
    Float(u64),
}

/// A JSON value.
#[derive(Debug)]
pub enum JsonValue {
    Null,
    Bool(bool),
    Number(JsonNumber),
    String(String),
    Array(Vec<JsonValue>),
    /// Members in order; keys are distinct.
    Object(Vec<(String, JsonValue)>),
}

/// The abstract value of a [`JsonValue`].
pub ghost enum JsonView {
    Null,
    Bool(bool),
    Number(JsonNumber),
    String(Seq<char>),
    Array(Seq<JsonView>),
    Object(Seq<(Seq<char>, JsonView)>),
}

pub open spec fn json_view(v: JsonValue) -> JsonView
    decreases v,
{
    match v {
        JsonValue::Null => JsonView::Null,
        JsonValue::Bool(b) => JsonView::Bool(b),
        JsonValue::Number(n) => JsonView::Number(n),
        JsonValue::String(s) => JsonView::String(s@),
        JsonValue::Array(items) => JsonView::Array(
            Seq::new(
                items@.len(),
                |i: int|
                    if 0 <= i < items@.len() {
                        json_view(items@[i])
                    } else {
                        JsonView::Null
                    },
            ),
        ),
        JsonValue::Object(entries) => JsonView::Object(
            Seq::new(
                entries@.len(),
                |i: int|
                    if 0 <= i < entries@.len() {
                        (entries@[i].0@, json_view(entries@[i].1))
                    } else {
                        (Seq::empty(), JsonView::Null)
                    },
            ),
        ),
    }
}

impl View for JsonValue {
    type V = JsonView;

    open spec fn view(&self) -> JsonView {
        json_view(*self)
    }
}

/// The position of the first member named `key`, if any.
pub open spec fn member_index(entries: Seq<(Seq<char>, JsonView)>, key: Seq<char>) -> Option<int>
    decreases entries.len(),
{
    if entries.len() == 0 {
        None
    } else if entries.last().0 == key && member_index(entries.drop_last(), key) is None {
        Some(entries.len() - 1)
    } else {
        member_index(entries.drop_last(), key)
    }
}

/// `v[key]`: the member of an object, or null when `v` is no object or has no
/// such member.
pub open spec fn field(v: JsonView, key: Seq<char>) -> JsonView {
    match v {
        JsonView::Object(entries) => match member_index(entries, key) {
            Some(i) => entries[i].1,
            None => JsonView::Null,
        },
        _ => JsonView::Null,
    }
}

/// `v[i]`: an element of an array, or null when `v` is no array or too short.
pub open spec fn element(v: JsonView, i: int) -> JsonView {
    match v {
        JsonView::Array(items) => if 0 <= i < items.len() {
            items[i]
        } else {
            JsonView::Null
        },
        _ => JsonView::Null,
    }
}

/// The text of a string value.
pub open spec fn str_of(v: JsonView) -> Option<Seq<char>> {
    match v {
        JsonView::String(s) => Some(s),
        _ => None,
    }
}

/// The elements of an array value.
pub open spec fn array_of(v: JsonView) -> Option<Seq<JsonView>> {
    match v {
        JsonView::Array(items) => Some(items),
        _ => None,
    }
}

/// The value of a boolean.
pub open spec fn bool_of(v: JsonView) -> Option<bool> {
    match v {
        JsonView::Bool(b) => Some(b),
        _ => None,
    }
}

/// `v` with member `key` set to `val`: an existing member is replaced, a new
/// one added, and null becomes an object holding only that member.
pub open spec fn with_field(v: JsonView, key: Seq<char>, val: JsonView) -> JsonView {
    match v {
        JsonView::Object(entries) => JsonView::Object(
            match member_index(entries, key) {
                Some(i) => entries.update(i, (key, val)),
                None => entries.push((key, val)),
            },
        ),
        JsonView::Null => JsonView::Object(seq![(key, val)]),
        _ => v,
    }
}

/// An identifier: a string as it is, an integer in decimal; nothing for any
/// other value.
pub open spec fn id_of(v: JsonView) -> Option<Seq<char>> {
    match v {
        JsonView::String(s) => Some(s),
        JsonView::Number(JsonNumber::PosInt(n)) => Some(decimal(n as nat)),
        JsonView::Number(JsonNumber::NegInt(n)) => Some(signed_decimal(n as int)),
        _ => None,
    }
}

/// The abstract value of a sequence of JSON values.
pub open spec fn json_views(vs: Seq<JsonValue>) -> Seq<JsonView> {
    vs.map_values(|v: JsonValue| v@)
}

proof fn lemma_member_index(entries: Seq<(Seq<char>, JsonView)>, key: Seq<char>, i: int)
    requires
        0 <= i < entries.len(),
        entries[i].0 == key,
        forall|k: int| 0 <= k < i ==> entries[k].0 != key,
    ensures
        member_index(entries, key) == Some(i),
    decreases entries.len(),
{
    if i < entries.len() - 1 {
        lemma_member_index(entries.drop_last(), key, i);
    } else {
        lemma_no_member(entries.drop_last(), key);
    }
}

proof fn lemma_no_member(entries: Seq<(Seq<char>, JsonView)>, key: Seq<char>)
    requires
        forall|k: int| 0 <= k < entries.len() ==> entries[k].0 != key,
    ensures
        member_index(entries, key) is None,
    decreases entries.len(),
{
    if entries.len() > 0 {
        lemma_no_member(entries.drop_last(), key);
    }
}

impl JsonValue {
    /// The position of the first member named `key`.
    pub fn entry_index(entries: &Vec<(String, JsonValue)>, key: &str) -> (res: Option<usize>)
        ensures
            ({
                let v = json_view(JsonValue::Object(*entries));
                &&& v matches JsonView::Object(es)
                &&& match res {
                    Some(i) => member_index(es, key@) == Some(i as int) && i < entries@.len(),
                    None => member_index(es, key@) is None,
                }
            }),
    {
        let ghost es = match json_view(JsonValue::Object(*entries)) {
            JsonView::Object(es) => es,
            _ => Seq::empty(),
        };
        assert(json_view(JsonValue::Object(*entries)) == JsonView::Object(es));
        assert(es.len() == entries@.len());
        assert(forall|k: int| 0 <= k < es.len() ==> #[trigger] es[k].0 == entries@[k].0@);
        let n = entries.len();
        for i in 0..n
            invariant
                n == entries@.len(),
                json_view(JsonValue::Object(*entries)) == JsonView::Object(es),
                es.len() == n,
                forall|k: int| 0 <= k < es.len() ==> #[trigger] es[k].0 == entries@[k].0@,
                forall|k: int| 0 <= k < i ==> es[k].0 != key@,
        {
            if str_eq(entries[i].0.as_str(), key) {
                proof {
                    lemma_member_index(es, key@, i as int);
                }
                return Some(i);
            }
        }
        proof {
            lemma_no_member(es, key@);
        }
        None
    }

    /// `self[key] = val`: replaces the member named `key` or adds it; null
    /// becomes an object holding only that member.
    pub fn set_field(&mut self, key: &str, val: JsonValue)
        requires
            old(self)@ matches JsonView::Object(_) || old(self)@ == JsonView::Null,
        ensures
            final(self)@ == with_field(old(self)@, key@, val@),
    {
        let ghost val_view = val@;
        match self {
            JsonValue::Object(entries) => {
                let ghost old_entries = entries@;
                let ghost es = match json_view(JsonValue::Object(*entries)) {
                    JsonView::Object(es) => es,
                    _ => Seq::empty(),
                };
                match Self::entry_index(entries, key) {
                    Some(i) => {
                        entries.set(i, (String::from_str(key), val));
                        assert(json_view(JsonValue::Object(*entries)) == JsonView::Object(es.update(i as int, (key@, val_view)))) by {
                            assert(entries@ == old_entries.update(i as int, entries@[i as int]));
                            match json_view(JsonValue::Object(*entries)) {
                                JsonView::Object(es2) => {
                                    assert(es2 =~= es.update(i as int, (key@, val_view)));
                                },
                                _ => {},
                            }
                        }
                    },
                    None => {
                        entries.push((String::from_str(key), val));
                        assert(json_view(JsonValue::Object(*entries)) == JsonView::Object(es.push((key@, val_view)))) by {
                            match json_view(JsonValue::Object(*entries)) {
                                JsonView::Object(es2) => {
                                    assert(es2 =~= es.push((key@, val_view)));
                                },
                                _ => {},
                            }
                        }
                    },
                }
            },
            JsonValue::Null => {
                let mut entries: Vec<(String, JsonValue)> = Vec::new();
                entries.push((String::from_str(key), val));
                *self = JsonValue::Object(entries);
                assert(self@ == JsonView::Object(seq![(key@, val_view)])) by {
                    match self@ {
                        JsonView::Object(es2) => {
                            assert(es2 =~= seq![(key@, val_view)]);
                        },
                        _ => {},
                    }
                }
            },
            _ => {},
        }
    }

    /// A copy of the value.
    #[verifier::loop_isolation(false)]
    pub fn copy(&self) -> (res: JsonValue)
        ensures
            res@ == self@,
        decreases *self,
    {
        match self {
            JsonValue::Null => JsonValue::Null,
            JsonValue::Bool(b) => JsonValue::Bool(*b),
            JsonValue::Number(n) => JsonValue::Number(*n),
            JsonValue::String(s) => JsonValue::String(s.clone()),
            JsonValue::Array(items) => {
                let mut out: Vec<JsonValue> = Vec::new();
                let n = items.len();
                for i in 0..n
                    invariant
                        n == items@.len(),
                        out@.len() == i,
                        forall|k: int| 0 <= k < i ==> #[trigger] out@[k]@ == items@[k]@,
                {
                    assert(decreases_to!(*self => *items));
                    assert(decreases_to!(*items => items[i as int]));
                    let c = items[i].copy();
                    out.push(c);
                }
                let res = JsonValue::Array(out);
                assert(res@ =~= self@) by {
                    match (res@, self@) {
                        (JsonView::Array(a), JsonView::Array(b)) => {
                            assert forall|k: int| 0 <= k < a.len() implies a[k] == b[k] by {
                                assert(out@[k]@ == items@[k]@);
                            }
                            assert(a =~= b);
                        },
                        _ => {},
                    }
                }
                res
            },
            JsonValue::Object(entries) => {
                let mut out: Vec<(String, JsonValue)> = Vec::new();
                let n = entries.len();
                for i in 0..n
                    invariant
                        n == entries@.len(),
                        out@.len() == i,
                        forall|k: int| 0 <= k < i ==> #[trigger] out@[k].0@ == entries@[k].0@ && out@[k].1@ == entries@[k].1@,
                {
                    assert(decreases_to!(*self => *entries));
                    assert(decreases_to!(*entries => entries[i as int]));
                    assert(decreases_to!(entries[i as int] => entries[i as int].1));
                    let k = entries[i].0.clone();
                    let c = entries[i].1.copy();
                    out.push((k, c));
                }
                let res = JsonValue::Object(out);
                assert(res@ =~= self@) by {
                    match (res@, self@) {
                        (JsonView::Object(a), JsonView::Object(b)) => {
                            assert(a =~= b);
                        },
                        _ => {},
                    }
                }
                res
            },
        }
    }

    /// The member named `key` of an object; `None` stands for null.
    pub fn get(&self, key: &str) -> (res: Option<&JsonValue>)
        ensures
            match res {
                Some(r) => field(self@, key@) == r@,
                None => field(self@, key@) == JsonView::Null,
            },
    {
        match self {
            JsonValue::Object(entries) => match Self::entry_index(entries, key) {
                Some(i) => Some(&entries[i].1),
                None => None,
            },
            _ => None,
        }
    }

    /// Element `i` of an array; `None` stands for null.
    pub fn at(&self, i: usize) -> (res: Option<&JsonValue>)
        ensures
            match res {
                Some(r) => element(self@, i as int) == r@,
                None => element(self@, i as int) == JsonView::Null,
            },
    {
        match self {
            JsonValue::Array(items) => if i < items.len() {
                Some(&items[i])
            } else {
                None
            },
            _ => None,
        }
    }

    /// The text of a string value.
    pub fn as_str(&self) -> (res: Option<&str>)
        ensures
            match res {
                Some(s) => str_of(self@) == Some(s@),
                None => str_of(self@) is None,
            },
    {
        match self {
            JsonValue::String(s) => Some(s.as_str()),
            _ => None,
        }
    }

    /// The elements of an array value.
    pub fn as_array(&self) -> (res: Option<&Vec<JsonValue>>)
        ensures
            match res {
                Some(items) => array_of(self@) == Some(json_views(items@)),
                None => array_of(self@) is None,
            },
    {
        match self {
            JsonValue::Array(items) => {
                assert(json_views(items@) =~= array_of(self@)->0);
                Some(items)
            },
            _ => None,
        }
    }

    /// The value of a boolean.
    pub fn as_bool(&self) -> (res: Option<bool>)
        ensures
            res == bool_of(self@),
    {
        match self {
            JsonValue::Bool(b) => Some(*b),
            _ => None,
        }
    }

    /// Whether the value is null.
    pub fn is_null(&self) -> (res: bool)
        ensures
            res == (self@ == JsonView::Null),
    {
        match self {
            JsonValue::Null => true,
            _ => false,
        }
    }
}

} // verus!
