//! A plain tree for JSON documents.  The loosely-structured records of the
//! assistant's history stream are parsed into this type, and all the logic
//! that inspects them is verified over it.

use vstd::prelude::*;

use crate::text::str_eq;

verus! {

/// One JSON document.  Numbers keep their canonical decimal rendering;
/// object members keep the parser's order (sorted, duplicates collapsed).
pub enum JsonValue {
    Null,
    Bool(bool),
    Num(String),
    Str(String),
    Arr(Vec<JsonValue>),
    Obj(Vec<(String, JsonValue)>),
}

/// First member of `pairs` named `key`, if any.
pub open spec fn pairs_get(pairs: Seq<(String, JsonValue)>, key: Seq<char>) -> Option<JsonValue>
    decreases pairs.len(),
{
    if pairs.len() == 0 {
        None
    } else if pairs[0].0@ == key {
        Some(pairs[0].1)
    } else {
        pairs_get(pairs.drop_first(), key)
    }
}

impl JsonValue {
    /// Member lookup: `Some` only on objects that carry the key.
    pub open spec fn spec_get(self, key: Seq<char>) -> Option<JsonValue> {
        match self {
            JsonValue::Obj(pairs) => pairs_get(pairs@, key),
            _ => None,
        }
    }

    /// The text of a string value.
    pub open spec fn spec_str(self) -> Option<Seq<char>> {
        match self {
            JsonValue::Str(s) => Some(s@),
            _ => None,
        }
    }

    /// Two-level lookup, as a JSON pointer `/k1/k2` resolves.
    pub open spec fn spec_get2(self, k1: Seq<char>, k2: Seq<char>) -> Option<JsonValue> {
        match self.spec_get(k1) {
            Some(v) => v.spec_get(k2),
            None => None,
        }
    }

    pub fn get<'a>(&'a self, key: &str) -> (r: Option<&'a JsonValue>)
        ensures
            match r {
                Some(v) => self.spec_get(key@) == Some(*v),
                None => self.spec_get(key@) is None,
            },
    {
        match self {
            JsonValue::Obj(pairs) => {
                let n = pairs.len();
                let mut i: usize = 0;
                proof {
                    assert(pairs@.skip(0) =~= pairs@);
                }
                while i < n
                    invariant
                        n == pairs@.len(),
                        i <= n,
                        *self == JsonValue::Obj(*pairs),
                        pairs_get(pairs@, key@) == pairs_get(pairs@.skip(i as int), key@),
                    decreases n - i,
                {
                    let p = &pairs[i];
                    proof {
                        assert(pairs@.skip(i as int)[0] == pairs@[i as int]);
                        assert(pairs@.skip(i as int).drop_first() =~= pairs@.skip(i as int + 1));
                    }
                    if str_eq(p.0.as_str(), key) {
                        return Some(&p.1);
                    }
                    i += 1;
                }
                proof {
                    assert(pairs@.skip(n as int) =~= Seq::<(String, JsonValue)>::empty());
                }
                None
            },
            _ => None,
        }
    }

    pub fn get2<'a>(&'a self, k1: &str, k2: &str) -> (r: Option<&'a JsonValue>)
        ensures
            match r {
                Some(v) => self.spec_get2(k1@, k2@) == Some(*v),
                None => self.spec_get2(k1@, k2@) is None,
            },
    {
        match self.get(k1) {
            Some(v) => v.get(k2),
            None => None,
        }
    }

    pub fn as_str<'a>(&'a self) -> (r: Option<&'a String>)
        ensures
            match r {
                Some(s) => self.spec_str() == Some(s@),
                None => self.spec_str() is None,
            },
    {
        match self {
            JsonValue::Str(s) => Some(s),
            _ => None,
        }
    }
}

} // verus!
