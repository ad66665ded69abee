//! Rule options: a small map from option names to plain values.

use vstd::prelude::*;
use crate::text::{chars_of, eq_vec};

verus! {

/// A configuration value, as plain data.
#[derive(Clone, Debug)]
pub enum ConfigValue {
    Null,
    Bool(bool),
    /// A non-negative integer.
    UInt(u64),
    /// A negative integer.
    NegInt(i64),
    Str(String),
    /// An array; elements that are not strings are kept as `None`.
    Array(Vec<Option<String>>),
    /// Anything else (a fractional number or an object).
    Other,
}

/// Options of a rule, by name. A later `insert` of a name shadows an
/// earlier one.
#[derive(Clone, Debug)]
pub struct Config {
    entries: Vec<(String, ConfigValue)>,
}

/// The value stored under `key`: the first entry with that name.
pub open spec fn lookup_in(es: Seq<(String, ConfigValue)>, key: Seq<char>) -> Option<ConfigValue>
    decreases es.len(),
{
    if es.len() == 0 {
        None
    } else if es[0].0@ == key {
        Some(es[0].1)
    } else {
        lookup_in(es.drop_first(), key)
    }
}

/// `serde_json::Value::as_u64` on the plain model.
pub open spec fn value_as_u64(v: Option<ConfigValue>) -> Option<u64> {
    match v {
        Some(ConfigValue::UInt(n)) => Some(n),
        _ => None,
    }
}

/// `serde_json::Value::as_bool` on the plain model.
pub open spec fn value_as_bool(v: Option<ConfigValue>) -> Option<bool> {
    match v {
        Some(ConfigValue::Bool(b)) => Some(b),
        _ => None,
    }
}

/// `serde_json::Value::as_str` on the plain model.
pub open spec fn value_as_str(v: Option<ConfigValue>) -> Option<Seq<char>> {
    match v {
        Some(ConfigValue::Str(s)) => Some(s@),
        _ => None,
    }
}

impl Config {
    pub closed spec fn lookup(&self, key: Seq<char>) -> Option<ConfigValue> {
        lookup_in(self.entries@, key)
    }

    /// An empty configuration.
    pub fn new() -> (c: Config)
        ensures
            forall|k: Seq<char>| c.lookup(k).is_none(),
    {
        Config { entries: Vec::new() }
    }

    /// Sets `key` to `value`.
    pub fn insert(&mut self, key: String, value: ConfigValue)
        ensures
            forall|k: Seq<char>|
                final(self).lookup(k) == if k == key@ {
                    Some(value)
                } else {
                    old(self).lookup(k)
                },
    {
        let ghost k0 = key@;
        self.entries.insert(0, (key, value));
        assert forall|k: Seq<char>|
            final(self).lookup(k) == if k == k0 {
                Some(value)
            } else {
                old(self).lookup(k)
            } by {
            assert(self.entries@.drop_first() =~= old(self).entries@);
        }
    }

    /// The value stored under `key`.
    pub fn get(&self, key: &str) -> (r: Option<&ConfigValue>)
        ensures
            match r {
                Some(v) => self.lookup(key@) == Some(*v),
                None => self.lookup(key@).is_none(),
            },
    {
        let kv = chars_of(key);
        let mut i: usize = 0;
        assert(self.entries@.skip(0) =~= self.entries@);
        while i < self.entries.len()
            invariant
                kv@ == key@,
                i <= self.entries@.len(),
                self.lookup(key@) == lookup_in(self.entries@.skip(i as int), key@),
            decreases self.entries@.len() - i,
        {
            let ek = chars_of(self.entries[i].0.as_str());
            assert(self.entries@.skip(i as int).drop_first() =~= self.entries@.skip(i + 1));
            if eq_vec(&ek, &kv) {
                return Some(&self.entries[i].1);
            }
            i = i + 1;
        }
        None
    }

    /// `config.get(key).and_then(|v| v.as_u64())`.
    pub fn get_u64(&self, key: &str) -> (r: Option<u64>)
        ensures
            r == value_as_u64(self.lookup(key@)),
    {
        match self.get(key) {
            Some(ConfigValue::UInt(n)) => Some(*n),
            _ => None,
        }
    }

    /// `config.get(key).and_then(|v| v.as_bool())`.
    pub fn get_bool(&self, key: &str) -> (r: Option<bool>)
        ensures
            r == value_as_bool(self.lookup(key@)),
    {
        match self.get(key) {
            Some(ConfigValue::Bool(b)) => Some(*b),
            _ => None,
        }
    }

    /// `config.get(key).and_then(|v| v.as_str())`, as characters.
    pub fn get_str(&self, key: &str) -> (r: Option<Vec<char>>)
        ensures
            match r {
                Some(v) => value_as_str(self.lookup(key@)) == Some(v@),
                None => value_as_str(self.lookup(key@)).is_none(),
            },
    {
        match self.get(key) {
            Some(ConfigValue::Str(s)) => Some(chars_of(s.as_str())),
            _ => None,
        }
    }
}

} // verus!
