//! Uploaded records: field lookup, the row identifier rule, and the columns
//! that a batch of records gives its staging table.

use vstd::prelude::*;
use vstd::string::*;
use crate::text::str_eq;
use crate::value::FieldValue;

verus! {

/// A flat key/value record, its fields in the order in which they came.
pub struct Record {
    pub fields: Vec<(String, FieldValue)>,
}

/// One uploaded item: a flat record, or a value that is not one.
pub enum Item {
    Record(Record),
    Other,
}

pub open spec fn id_key() -> Seq<char> {
    "_id"@
}

pub open spec fn legacy_id_key() -> Seq<char> {
    "id"@
}

pub open spec fn errors_key() -> Seq<char> {
    "errors"@
}

/// The value under `k`: the first field with that name.
pub open spec fn lookup(fields: Seq<(String, FieldValue)>, k: Seq<char>) -> Option<FieldValue>
    decreases fields.len(),
{
    if fields.len() == 0 {
        None
    } else if fields[0].0@ == k {
        Some(fields[0].1)
    } else {
        lookup(fields.drop_first(), k)
    }
}

/// The identifier that an `_id` field gives: a non-empty string, or the
/// non-empty `$oid` of an object-id wrapper.
pub open spec fn id_from_primary(v: Option<FieldValue>) -> Option<Seq<char>> {
    match v {
        Some(FieldValue::Object { json: _, oid: Some(o) }) if o@.len() > 0 => Some(o@),
        Some(FieldValue::Text(s)) if s@.len() > 0 => Some(s@),
        _ => None,
    }
}

/// The identifier that an `id` field gives: a non-empty string, or a number's
/// decimal text.
pub open spec fn id_from_legacy(v: Option<FieldValue>) -> Option<Seq<char>> {
    match v {
        Some(FieldValue::Text(s)) if s@.len() > 0 => Some(s@),
        Some(FieldValue::Number(t)) => Some(t@),
        _ => None,
    }
}

/// The identifier that a record carries itself, if any: what its `_id`
/// gives, else what its `id` gives.
pub open spec fn explicit_id(fields: Seq<(String, FieldValue)>) -> Option<Seq<char>> {
    match id_from_primary(lookup(fields, id_key())) {
        Some(i) => Some(i),
        None => id_from_legacy(lookup(fields, legacy_id_key())),
    }
}

/// The identifier a record is stored under: its own, else `fresh`.
pub open spec fn row_id_of(fields: Seq<(String, FieldValue)>, fresh: Seq<char>) -> Seq<char> {
    match explicit_id(fields) {
        Some(i) => i,
        None => fresh,
    }
}

/// Field names of a record in order, but those rejected by `keep`.
pub open spec fn kept_keys(fields: Seq<(String, FieldValue)>, keep: spec_fn(Seq<char>) -> bool) -> Seq<Seq<char>>
    decreases fields.len(),
{
    if fields.len() == 0 {
        Seq::empty()
    } else {
        let rest = kept_keys(fields.drop_last(), keep);
        if keep(fields.last().0@) {
            rest.push(fields.last().0@)
        } else {
            rest
        }
    }
}

pub open spec fn is_data_column(k: Seq<char>) -> bool {
    k != id_key() && k != legacy_id_key()
}

pub open spec fn is_not_errors(k: Seq<char>) -> bool {
    k != errors_key()
}

pub open spec fn is_not_id(k: Seq<char>) -> bool {
    k != id_key()
}

impl Record {
    /// The value under `key`.
    pub fn get(&self, key: &str) -> (r: Option<&FieldValue>)
        ensures
            match r {
                Some(v) => lookup(self.fields@, key@) == Some(*v),
                None => lookup(self.fields@, key@) is None,
            },
    {
        let n = self.fields.len();
        let mut i: usize = 0;
        assert(self.fields@.subrange(0, n as int) =~= self.fields@);
        while i < n
            invariant
                n == self.fields@.len(),
                i <= n,
                lookup(self.fields@, key@) == lookup(self.fields@.subrange(i as int, n as int), key@),
            decreases n - i,
        {
            let ghost rest = self.fields@.subrange(i as int, n as int);
            assert(rest.drop_first() =~= self.fields@.subrange(i + 1, n as int));
            if str_eq(self.fields[i].0.as_str(), key) {
                return Some(&self.fields[i].1);
            }
            i += 1;
        }
        None
    }

    /// The identifier the record carries itself, if any.
    pub fn explicit_id(&self) -> (r: Option<String>)
        ensures
            match r {
                Some(s) => explicit_id(self.fields@) == Some(s@),
                None => explicit_id(self.fields@) is None,
            },
    {
        match self.get("_id") {
            Some(FieldValue::Object { json: _, oid: Some(o) }) => {
                if o.as_str().unicode_len() > 0 {
                    return Some(o.clone());
                }
            },
            Some(FieldValue::Text(s)) => {
                if s.as_str().unicode_len() > 0 {
                    return Some(s.clone());
                }
            },
            _ => {},
        }
        match self.get("id") {
            Some(FieldValue::Text(s)) => if s.as_str().unicode_len() > 0 {
                Some(s.clone())
            } else {
                None
            },
            Some(FieldValue::Number(t)) => Some(t.clone()),
            _ => None,
        }
    }

    /// The columns that this record gives the valid table: its field names
    /// but `_id` and `id`.
    pub fn data_columns(&self) -> (r: Vec<String>)
        ensures
            crate::json::views_of(r@) == kept_keys(self.fields@, |k: Seq<char>| is_data_column(k)),
    {
        let mut out: Vec<String> = Vec::new();
        let mut i: usize = 0;
        while i < self.fields.len()
            invariant
                i <= self.fields@.len(),
                crate::json::views_of(out@) == kept_keys(self.fields@.subrange(0, i as int), |k: Seq<char>| is_data_column(k)),
            decreases self.fields@.len() - i,
        {
            assert(self.fields@.subrange(0, i + 1).drop_last() =~= self.fields@.subrange(0, i as int));
            let k = self.fields[i].0.as_str();
            if !str_eq(k, "_id") && !str_eq(k, "id") {
                out.push(self.fields[i].0.clone());
            }
            assert(crate::json::views_of(out@) =~= kept_keys(self.fields@.subrange(0, i + 1), |k: Seq<char>| is_data_column(k)));
            i += 1;
        }
        assert(self.fields@.subrange(0, self.fields@.len() as int) =~= self.fields@);
        out
    }

    /// The columns that this record gives the invalid table: its field names
    /// but `errors` and `_id`.
    pub fn invalid_columns(&self) -> (r: Vec<String>)
        ensures
            crate::json::views_of(r@) == kept_keys(self.fields@, |k: Seq<char>| is_not_errors(k) && is_not_id(k)),
    {
        let mut out: Vec<String> = Vec::new();
        let mut i: usize = 0;
        while i < self.fields.len()
            invariant
                i <= self.fields@.len(),
                crate::json::views_of(out@) == kept_keys(self.fields@.subrange(0, i as int), |k: Seq<char>| is_not_errors(k) && is_not_id(k)),
            decreases self.fields@.len() - i,
        {
            assert(self.fields@.subrange(0, i + 1).drop_last() =~= self.fields@.subrange(0, i as int));
            let k = self.fields[i].0.as_str();
            if !str_eq(k, "errors") && !str_eq(k, "_id") {
                out.push(self.fields[i].0.clone());
            }
            assert(crate::json::views_of(out@) =~= kept_keys(self.fields@.subrange(0, i + 1), |k: Seq<char>| is_not_errors(k) && is_not_id(k)));
            i += 1;
        }
        assert(self.fields@.subrange(0, self.fields@.len() as int) =~= self.fields@);
        out
    }
}

} // verus!
