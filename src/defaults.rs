//! Default display settings of the library collections.

use vstd::prelude::*;
use crate::text::str_eq;

verus! {

pub open spec fn lib_sort_field_of(collection: Seq<char>) -> Seq<char> {
    if collection == "school_accounts"@ {
        "school_id"@
    } else if collection == "attendance"@ {
        "time_in_date"@
    } else if collection == "purposes"@ || collection == "semesters"@ {
        "label"@
    } else if collection == "settings_styles"@ {
        "component_name"@
    } else {
        "created_at"@
    }
}

/// The field a library collection is sorted by by default.
pub fn get_default_lib_sort_field(collection_name: &str) -> (r: &'static str)
    ensures
        r@ == lib_sort_field_of(collection_name@),
{
    if str_eq(collection_name, "school_accounts") {
        "school_id"
    } else if str_eq(collection_name, "attendance") {
        "time_in_date"
    } else if str_eq(collection_name, "purposes") || str_eq(collection_name, "semesters") {
        "label"
    } else if str_eq(collection_name, "settings_styles") {
        "component_name"
    } else {
        "created_at"
    }
}

} // verus!
