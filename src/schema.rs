//! The schema of a collection of the authoritative store, as the staging
//! pipeline reads it: per field, its declared type, whether it is unique, and
//! its short display name.

use vstd::prelude::*;
use vstd::string::*;
use crate::json::views_of;
use crate::text::str_eq;

verus! {

/// One declared property of a collection.
pub struct PropertySchema {
    pub name: String,
    /// The declared BSON type name, when it is given as a single string.
    pub bson_type: Option<String>,
    pub unique: bool,
}

/// A collection's declared properties, in order, and the short names that
/// its display metadata gives some of them.
pub struct CollectionSchema {
    pub properties: Vec<PropertySchema>,
    pub short_names: Vec<(String, String)>,
}

pub open spec fn unique_names(props: Seq<PropertySchema>) -> Seq<Seq<char>>
    decreases props.len(),
{
    if props.len() == 0 {
        Seq::empty()
    } else {
        let rest = unique_names(props.drop_last());
        if props.last().unique {
            rest.push(props.last().name@)
        } else {
            rest
        }
    }
}

pub open spec fn property_names(props: Seq<PropertySchema>) -> Seq<Seq<char>> {
    props.map_values(|p: PropertySchema| p.name@)
}

/// The declared type of a field: that of its first property, `string` when
/// it has none or is not declared.
pub open spec fn type_of_field(props: Seq<PropertySchema>, f: Seq<char>) -> Seq<char>
    decreases props.len(),
{
    if props.len() == 0 {
        "string"@
    } else if props[0].name@ == f {
        match props[0].bson_type {
            Some(t) => t@,
            None => "string"@,
        }
    } else {
        type_of_field(props.drop_first(), f)
    }
}

/// The short name of a field, or the field itself when it has none.
pub open spec fn short_name_of(names: Seq<(String, String)>, f: Seq<char>) -> Seq<char>
    decreases names.len(),
{
    if names.len() == 0 {
        f
    } else if names[0].0@ == f {
        names[0].1@
    } else {
        short_name_of(names.drop_first(), f)
    }
}

impl CollectionSchema {
    /// The fields declared unique, in property order.
    pub fn unique_fields(&self) -> (r: Vec<String>)
        ensures
            views_of(r@) == unique_names(self.properties@),
    {
        let mut out: Vec<String> = Vec::new();
        let mut i: usize = 0;
        while i < self.properties.len()
            invariant
                i <= self.properties@.len(),
                views_of(out@) == unique_names(self.properties@.subrange(0, i as int)),
            decreases self.properties@.len() - i,
        {
            assert(self.properties@.subrange(0, i + 1).drop_last() =~= self.properties@.subrange(0, i as int));
            let ghost before = views_of(out@);
            if self.properties[i].unique {
                out.push(self.properties[i].name.clone());
                assert(views_of(out@) =~= before.push(self.properties@[i as int].name@));
            }
            i += 1;
        }
        assert(self.properties@.subrange(0, self.properties@.len() as int) =~= self.properties@);
        out
    }

    /// The declared property names, in order.
    pub fn field_names(&self) -> (r: Vec<String>)
        ensures
            views_of(r@) == property_names(self.properties@),
    {
        let mut out: Vec<String> = Vec::new();
        let mut i: usize = 0;
        while i < self.properties.len()
            invariant
                i <= self.properties@.len(),
                views_of(out@) =~= property_names(self.properties@.subrange(0, i as int)),
            decreases self.properties@.len() - i,
        {
            let ghost before = views_of(out@);
            out.push(self.properties[i].name.clone());
            assert(views_of(out@) =~= before.push(self.properties@[i as int].name@));
            assert(property_names(self.properties@.subrange(0, i + 1)) =~= property_names(self.properties@.subrange(0, i as int)).push(self.properties@[i as int].name@));
            i += 1;
        }
        assert(self.properties@.subrange(0, self.properties@.len() as int) =~= self.properties@);
        out
    }

    /// The declared type of a field, `string` by default.
    pub fn type_of(&self, f: &str) -> (r: String)
        ensures
            r@ == type_of_field(self.properties@, f@),
    {
        let ghost ps = self.properties@;
        let n = self.properties.len();
        let mut i: usize = 0;
        assert(ps.subrange(0, n as int) =~= ps);
        while i < n
            invariant
                n == ps.len(),
                ps == self.properties@,
                i <= n,
                type_of_field(ps, f@) == type_of_field(ps.subrange(i as int, n as int), f@),
            decreases n - i,
        {
            assert(ps.subrange(i as int, n as int).drop_first() =~= ps.subrange(i + 1, n as int));
            if str_eq(self.properties[i].name.as_str(), f) {
                return match &self.properties[i].bson_type {
                    Some(t) => t.clone(),
                    None => String::from_str("string"),
                };
            }
            i += 1;
        }
        String::from_str("string")
    }

    /// The short name of a field, or the field itself.
    pub fn short_name(&self, f: &String) -> (r: String)
        ensures
            r@ == short_name_of(self.short_names@, f@),
    {
        let ghost ns = self.short_names@;
        let n = self.short_names.len();
        let mut i: usize = 0;
        assert(ns.subrange(0, n as int) =~= ns);
        while i < n
            invariant
                n == ns.len(),
                ns == self.short_names@,
                i <= n,
                short_name_of(ns, f@) == short_name_of(ns.subrange(i as int, n as int), f@),
            decreases n - i,
        {
            assert(ns.subrange(i as int, n as int).drop_first() =~= ns.subrange(i + 1, n as int));
            if self.short_names[i].0 == *f {
                return self.short_names[i].1.clone();
            }
            i += 1;
        }
        f.clone()
    }
}

} // verus!
