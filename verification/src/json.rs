//! The JSON documents that Microsoft Graph returns, as the reports read them.
//!
//! Graph answers are decoded at the program's edge; the library works on this
//! tree, with the lookup rules of `serde_json`'s `value[key]` indexing: a
//! missing member, or a member of something that is not an object, reads as
//! `null`.
use vstd::prelude::*;
use crate::text::{owned, text_eq};

verus! {

/// A JSON value.
#[derive(Debug)]
pub enum JsonValue {
    Null,
    Bool(bool),
    /// A number; it holds the value when the number is an integer that fits in `i64`.
    Number(Option<i64>),
    Str(String),
    Array(Vec<JsonValue>),
    /// Members in document order; member names are distinct.
    Object(Vec<(String, JsonValue)>),
}

/// The value of the first member named `key`.
pub open spec fn lookup_member(entries: Seq<(String, JsonValue)>, key: Seq<char>) -> Option<JsonValue>
    decreases entries.len(),
{
    if entries.len() == 0 {
        None
    } else if entries[0].0@ == key {
        Some(entries[0].1)
    } else {
        lookup_member(entries.drop_first(), key)
    }
}

impl JsonValue {
    /// The member `key` of an object; `None` for a missing member or a non-object.
    pub open spec fn member(self, key: Seq<char>) -> Option<JsonValue> {
        match self {
            JsonValue::Object(m) => lookup_member(m@, key),
            _ => None,
        }
    }

    /// `value[key]`: the member, or `null`.
    pub open spec fn field(self, key: Seq<char>) -> JsonValue {
        match self.member(key) {
            Some(v) => v,
            None => JsonValue::Null,
        }
    }

    pub open spec fn str_value(self) -> Option<Seq<char>> {
        match self {
            JsonValue::Str(s) => Some(s@),
            _ => None,
        }
    }

    pub open spec fn bool_value(self) -> Option<bool> {
        match self {
            JsonValue::Bool(b) => Some(b),
            _ => None,
        }
    }

    pub open spec fn int_value(self) -> Option<i64> {
        match self {
            JsonValue::Number(n) => n,
            _ => None,
        }
    }

    pub open spec fn array_items(self) -> Option<Seq<JsonValue>> {
        match self {
            JsonValue::Array(v) => Some(v@),
            _ => None,
        }
    }

    /// `value[key].as_str().unwrap_or(default)`.
    pub open spec fn str_or(self, key: Seq<char>, default: Seq<char>) -> Seq<char> {
        match self.field(key).str_value() {
            Some(s) => s,
            None => default,
        }
    }

    /// `value[key].as_bool().unwrap_or(default)`.
    pub open spec fn bool_or(self, key: Seq<char>, default: bool) -> bool {
        match self.field(key).bool_value() {
            Some(b) => b,
            None => default,
        }
    }

    /// `value[key].as_i64().unwrap_or(default)`.
    pub open spec fn int_or(self, key: Seq<char>, default: i64) -> i64 {
        match self.field(key).int_value() {
            Some(n) => n,
            None => default,
        }
    }

    /// `value[key].as_array()` with its items, or the empty sequence.
    pub open spec fn items_of(self, key: Seq<char>) -> Seq<JsonValue> {
        match self.field(key).array_items() {
            Some(s) => s,
            None => Seq::empty(),
        }
    }

    /// The member `key` of an object, if there is one.
    pub fn get(&self, key: &str) -> (r: Option<&JsonValue>)
        ensures
            match r {
                Some(v) => self.member(key@) == Some(*v),
                None => self.member(key@) is None,
            },
    {
        match self {
            JsonValue::Object(entries) => {
                let n = entries.len();
                let mut i: usize = 0;
                assert(entries@.skip(0) =~= entries@);
                while i < n
                    invariant
                        n == entries@.len(),
                        i <= n,
                        self.member(key@) == lookup_member(entries@, key@),
                        lookup_member(entries@, key@) == lookup_member(entries@.skip(i as int), key@),
                    decreases n - i,
                {
                    proof {
                        assert(entries@.skip(i as int).drop_first() =~= entries@.skip(i + 1));
                    }
                    if text_eq(entries[i].0.as_str(), key) {
                        let ghost sk = entries@.skip(i as int);
                        assert(sk[0] == entries@[i as int]);
                        assert(sk.len() > 0);
                        assert(sk[0].0@ == key@);
                        assert(lookup_member(sk, key@) == Some(sk[0].1));
                        return Some(&entries[i].1);
                    }
                    i = i + 1;
                }
                None
            },
            _ => None,
        }
    }

    pub fn as_str(&self) -> (r: Option<&str>)
        ensures
            match r {
                Some(s) => self.str_value() == Some(s@),
                None => self.str_value() is None,
            },
    {
        match self {
            JsonValue::Str(s) => Some(s.as_str()),
            _ => None,
        }
    }

    pub fn as_bool(&self) -> (r: Option<bool>)
        ensures
            r == self.bool_value(),
    {
        match self {
            JsonValue::Bool(b) => Some(*b),
            _ => None,
        }
    }

    pub fn as_i64(&self) -> (r: Option<i64>)
        ensures
            r == self.int_value(),
    {
        match self {
            JsonValue::Number(n) => *n,
            _ => None,
        }
    }

    pub fn as_array(&self) -> (r: Option<&Vec<JsonValue>>)
        ensures
            match r {
                Some(v) => self.array_items() == Some(v@),
                None => self.array_items() is None,
            },
    {
        match self {
            JsonValue::Array(v) => Some(v),
            _ => None,
        }
    }

    /// `value[key].as_str()`.
    pub fn str_at(&self, key: &str) -> (r: Option<&str>)
        ensures
            match r {
                Some(s) => self.field(key@).str_value() == Some(s@),
                None => self.field(key@).str_value() is None,
            },
    {
        match self.get(key) {
            Some(v) => v.as_str(),
            None => None,
        }
    }

    /// `value[key].as_str().unwrap_or(default)`, as an owned string.
    pub fn str_or_default(&self, key: &str, default: &str) -> (r: String)
        ensures
            r@ == self.str_or(key@, default@),
    {
        match self.str_at(key) {
            Some(s) => owned(s),
            None => owned(default),
        }
    }

    /// `value[key].as_bool().unwrap_or(default)`.
    pub fn bool_or_default(&self, key: &str, default: bool) -> (r: bool)
        ensures
            r == self.bool_or(key@, default),
    {
        match self.get(key) {
            Some(v) => match v.as_bool() {
                Some(b) => b,
                None => default,
            },
            None => default,
        }
    }

    /// `value[key].as_i64().unwrap_or(default)`.
    pub fn int_or_default(&self, key: &str, default: i64) -> (r: i64)
        ensures
            r == self.int_or(key@, default),
    {
        match self.get(key) {
            Some(v) => match v.as_i64() {
                Some(n) => n,
                None => default,
            },
            None => default,
        }
    }

    /// `value[key].as_array()`.
    pub fn array_at(&self, key: &str) -> (r: Option<&Vec<JsonValue>>)
        ensures
            match r {
                Some(v) => self.field(key@).array_items() == Some(v@),
                None => self.field(key@).array_items() is None,
            },
    {
        match self.get(key) {
            Some(v) => v.as_array(),
            None => None,
        }
    }

    /// `value[key].as_array().map(|a| a.len()).unwrap_or(0)`.
    pub fn array_len_at(&self, key: &str) -> (r: usize)
        ensures
            r == self.items_of(key@).len(),
    {
        match self.array_at(key) {
            Some(v) => v.len(),
            None => 0,
        }
    }

    /// Takes the member `key` out of the value: `value[key]`, by move.
    pub fn into_field(self, key: &str) -> (r: JsonValue)
        ensures
            r == self.field(key@),
    {
        match self {
            JsonValue::Object(entries) => {
                let mut entries = entries;
                let ghost orig = entries@;
                let n = entries.len();
                let mut i: usize = 0;
                assert(orig.skip(0) =~= orig);
                while i < n
                    invariant
                        n == entries@.len(),
                        entries@ == orig,
                        i <= n,
                        self.member(key@) == lookup_member(orig, key@),
                        lookup_member(orig, key@) == lookup_member(orig.skip(i as int), key@),
                    decreases n - i,
                {
                    proof {
                        assert(orig.skip(i as int).drop_first() =~= orig.skip(i + 1));
                    }
                    if text_eq(entries[i].0.as_str(), key) {
                        let ghost sk = orig.skip(i as int);
                        assert(sk[0] == orig[i as int]);
                        assert(sk.len() > 0);
                        assert(sk[0].0@ == key@);
                        assert(lookup_member(sk, key@) == Some(sk[0].1));
                        let (_name, v) = entries.remove(i);
                        return v;
                    }
                    i = i + 1;
                }
                JsonValue::Null
            },
            _ => JsonValue::Null,
        }
    }

    /// `value[key]` as an array's items, by move; empty when it is not an array.
    pub fn into_items(self, key: &str) -> (r: Vec<JsonValue>)
        ensures
            r@ == self.items_of(key@),
    {
        match self.into_field(key) {
            JsonValue::Array(v) => v,
            _ => Vec::new(),
        }
    }
}

} // verus!
