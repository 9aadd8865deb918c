//! Conflict validation: which staged valid rows would collide with the
//! authoritative store, and how they move to the invalid table.

use vstd::prelude::*;
use vstd::string::*;
use crate::json::{views_of, json_of_strings, encode_strings};
use crate::record::errors_key;
use crate::staged::{StagedRow, RowView, rows_view};
use crate::text::str_eq;
use crate::value::{opt_view, text_cell};

verus! {

/// The counts that a validation run reports.
#[derive(PartialEq, Eq, Structural, Debug, Clone, Copy)]
pub struct ValidationSummary {
    pub validated_count: usize,
    pub conflicts_found: usize,
    pub remaining_valid: usize,
}

/// The values of one unique field: asked about, or found to exist.
pub struct FieldLookup {
    pub field: String,
    pub values: Vec<String>,
}

/// What to ask the authoritative store: which identifiers exist, and for
/// each unique field with candidates, which of its values exist.
pub struct CheckPlan {
    pub ids: Vec<String>,
    pub fields: Vec<FieldLookup>,
}

/// The outcome of a validation run: the rows to write into the invalid
/// table (insert or replace), the identifiers to delete from the valid table,
/// and the counts.
pub struct Relocation {
    pub moved: Vec<StagedRow>,
    pub removed_ids: Vec<String>,
    pub summary: ValidationSummary,
}

pub type Found = Seq<(Seq<char>, Seq<Seq<char>>)>;

pub open spec fn lookups_view(v: Seq<FieldLookup>) -> Found {
    v.map_values(|l: FieldLookup| (l.field@, views_of(l.values@)))
}

/// The cell of column `f` in a row whose cells follow `cols`.
pub open spec fn cell_in(cols: Seq<Seq<char>>, cells: Seq<Option<Seq<char>>>, f: Seq<char>) -> Option<Seq<char>>
    decreases cols.len(),
{
    if cols.len() == 0 || cells.len() == 0 {
        None
    } else if cols[0] == f {
        cells[0]
    } else {
        cell_in(cols.drop_first(), cells.drop_first(), f)
    }
}

/// The values listed for field `f`: the first entry for it.
pub open spec fn found_for(found: Found, f: Seq<char>) -> Option<Seq<Seq<char>>>
    decreases found.len(),
{
    if found.len() == 0 {
        None
    } else if found[0].0 == f {
        Some(found[0].1)
    } else {
        found_for(found.drop_first(), f)
    }
}

pub open spec fn found_has(found: Found, f: Seq<char>, v: Seq<char>) -> bool {
    match found_for(found, f) {
        Some(vs) => vs.contains(v),
        None => false,
    }
}

/// The row's non-empty value of unique field `f` is known to exist.
pub open spec fn collides(cols: Seq<Seq<char>>, row: RowView, f: Seq<char>, found: Found) -> bool {
    match cell_in(cols, row.1, f) {
        Some(v) => v.len() > 0 && found_has(found, f, v),
        None => false,
    }
}

pub open spec fn id_reason() -> Seq<char> {
    "Existing document with the same _id"@
}

pub open spec fn dup_reason(f: Seq<char>) -> Seq<char> {
    "Duplicate value for unique field '"@ + f + "'"@
}

pub open spec fn field_reasons(cols: Seq<Seq<char>>, row: RowView, fields: Seq<Seq<char>>, found: Found) -> Seq<Seq<char>>
    decreases fields.len(),
{
    if fields.len() == 0 {
        Seq::empty()
    } else {
        let rest = field_reasons(cols, row, fields.drop_last(), found);
        if collides(cols, row, fields.last(), found) {
            rest.push(dup_reason(fields.last()))
        } else {
            rest
        }
    }
}

/// Why a row conflicts: an existing identifier first, then one reason per
/// unique field whose value exists, in field order.
pub open spec fn reasons(cols: Seq<Seq<char>>, row: RowView, fields: Seq<Seq<char>>, ids: Seq<Seq<char>>, found: Found) -> Seq<Seq<char>> {
    (if ids.contains(row.0) {
        seq![id_reason()]
    } else {
        Seq::empty()
    }) + field_reasons(cols, row, fields, found)
}

/// The cell that a relocated row gets in invalid column `c`.
pub open spec fn moved_cell(cols: Seq<Seq<char>>, row: RowView, c: Seq<char>, rs: Seq<Seq<char>>) -> Option<Seq<char>> {
    if c == errors_key() {
        text_cell(json_of_strings(rs))
    } else {
        match cell_in(cols, row.1, c) {
            Some(v) => text_cell(v),
            None => None,
        }
    }
}

pub open spec fn moved_row(cols: Seq<Seq<char>>, row: RowView, inv_cols: Seq<Seq<char>>, rs: Seq<Seq<char>>) -> RowView {
    (row.0, inv_cols.map_values(|c: Seq<char>| moved_cell(cols, row, c, rs)))
}

/// The invalid-table rows for the conflicting rows, in order.
pub open spec fn moved_rows(cols: Seq<Seq<char>>, rows: Seq<RowView>, fields: Seq<Seq<char>>, ids: Seq<Seq<char>>, found: Found, inv_cols: Seq<Seq<char>>) -> Seq<RowView>
    decreases rows.len(),
{
    if rows.len() == 0 {
        Seq::empty()
    } else {
        let rest = moved_rows(cols, rows.drop_last(), fields, ids, found, inv_cols);
        let rs = reasons(cols, rows.last(), fields, ids, found);
        if rs.len() > 0 {
            rest.push(moved_row(cols, rows.last(), inv_cols, rs))
        } else {
            rest
        }
    }
}

/// The rows that stay valid, in order.
pub open spec fn remaining_rows(cols: Seq<Seq<char>>, rows: Seq<RowView>, fields: Seq<Seq<char>>, ids: Seq<Seq<char>>, found: Found) -> Seq<RowView>
    decreases rows.len(),
{
    if rows.len() == 0 {
        Seq::empty()
    } else {
        let rest = remaining_rows(cols, rows.drop_last(), fields, ids, found);
        if reasons(cols, rows.last(), fields, ids, found).len() == 0 {
            rest.push(rows.last())
        } else {
            rest
        }
    }
}

pub open spec fn moved_ids(rows: Seq<RowView>) -> Seq<Seq<char>> {
    rows.map_values(|r: RowView| r.0)
}

/// The non-empty identifiers of the rows, in order.
pub open spec fn id_candidates(rows: Seq<RowView>) -> Seq<Seq<char>>
    decreases rows.len(),
{
    if rows.len() == 0 {
        Seq::empty()
    } else {
        let rest = id_candidates(rows.drop_last());
        if rows.last().0.len() > 0 {
            rest.push(rows.last().0)
        } else {
            rest
        }
    }
}

/// The distinct non-empty values of field `f` among the rows, in order of
/// first appearance.
pub open spec fn value_candidates(cols: Seq<Seq<char>>, rows: Seq<RowView>, f: Seq<char>) -> Seq<Seq<char>>
    decreases rows.len(),
{
    if rows.len() == 0 {
        Seq::empty()
    } else {
        let rest = value_candidates(cols, rows.drop_last(), f);
        match cell_in(cols, rows.last().1, f) {
            Some(v) => if v.len() > 0 && !rest.contains(v) {
                rest.push(v)
            } else {
                rest
            },
            None => rest,
        }
    }
}

/// The unique fields that have candidates, each with its candidates.
pub open spec fn field_questions(cols: Seq<Seq<char>>, rows: Seq<RowView>, fields: Seq<Seq<char>>) -> Found
    decreases fields.len(),
{
    if fields.len() == 0 {
        Seq::empty()
    } else {
        let rest = field_questions(cols, rows, fields.drop_last());
        let vs = value_candidates(cols, rows, fields.last());
        if vs.len() > 0 {
            rest.push((fields.last(), vs))
        } else {
            rest
        }
    }
}

fn contains_string(v: &Vec<String>, s: &String) -> (r: bool)
    ensures
        r == views_of(v@).contains(s@),
{
    let mut i: usize = 0;
    while i < v.len()
        invariant
            i <= v@.len(),
            forall|k: int| 0 <= k < i ==> v@[k]@ != s@,
        decreases v@.len() - i,
    {
        if v[i] == *s {
            assert(views_of(v@)[i as int] == s@);
            return true;
        }
        i += 1;
    }
    assert(!views_of(v@).contains(s@)) by {
        if views_of(v@).contains(s@) {
            let k = choose|k: int| 0 <= k < views_of(v@).len() && views_of(v@)[k] == s@;
            assert(v@[k]@ == s@);
        }
    }
    false
}

/// The cell of column `f` in a row whose cells follow `cols`.
pub fn row_cell<'a>(cols: &Vec<String>, cells: &'a Vec<Option<String>>, f: &str) -> (r: Option<&'a String>)
    ensures
        match r {
            Some(v) => cell_in(views_of(cols@), cells@.map_values(|c: Option<String>| opt_view(c)), f@) == Some(v@),
            None => cell_in(views_of(cols@), cells@.map_values(|c: Option<String>| opt_view(c)), f@) is None,
        },
{
    let ghost cv = views_of(cols@);
    let ghost ce = cells@.map_values(|c: Option<String>| opt_view(c));
    let n = cols.len();
    let m = cells.len();
    let mut i: usize = 0;
    assert(cv.subrange(0, n as int) =~= cv);
    assert(ce.subrange(0, m as int) =~= ce);
    while i < n && i < m
        invariant
            n == cv.len(),
            m == ce.len(),
            cv == views_of(cols@),
            ce == cells@.map_values(|c: Option<String>| opt_view(c)),
            i <= n,
            i <= m,
            cell_in(cv, ce, f@) == cell_in(cv.subrange(i as int, n as int), ce.subrange(i as int, m as int), f@),
        decreases n - i,
    {
        assert(cv.subrange(i as int, n as int).drop_first() =~= cv.subrange(i + 1, n as int));
        assert(ce.subrange(i as int, m as int).drop_first() =~= ce.subrange(i + 1, m as int));
        if str_eq(cols[i].as_str(), f) {
            return match &cells[i] {
                Some(v) => Some(v),
                None => None,
            };
        }
        i += 1;
    }
    None
}

fn found_contains(found: &Vec<FieldLookup>, f: &String, v: &String) -> (r: bool)
    ensures
        r == found_has(lookups_view(found@), f@, v@),
{
    let ghost fv = lookups_view(found@);
    let n = found.len();
    let mut i: usize = 0;
    assert(fv.subrange(0, n as int) =~= fv);
    while i < n
        invariant
            n == fv.len(),
            fv == lookups_view(found@),
            i <= n,
            found_for(fv, f@) == found_for(fv.subrange(i as int, n as int), f@),
        decreases n - i,
    {
        assert(fv.subrange(i as int, n as int).drop_first() =~= fv.subrange(i + 1, n as int));
        if found[i].field == *f {
            return contains_string(&found[i].values, v);
        }
        i += 1;
    }
    false
}

fn collides_exec(cols: &Vec<String>, row: &StagedRow, f: &String, found: &Vec<FieldLookup>) -> (r: bool)
    ensures
        r == collides(views_of(cols@), row@, f@, lookups_view(found@)),
{
    match row_cell(cols, &row.cells, f.as_str()) {
        Some(v) => v.as_str().unicode_len() > 0 && found_contains(found, f, v),
        None => false,
    }
}

/// Why a row conflicts, given what the authoritative store reported.
pub fn row_reasons(cols: &Vec<String>, row: &StagedRow, fields: &Vec<String>, ids: &Vec<String>, found: &Vec<FieldLookup>) -> (r: Vec<String>)
    ensures
        views_of(r@) == reasons(views_of(cols@), row@, views_of(fields@), views_of(ids@), lookups_view(found@)),
{
    let ghost cv = views_of(cols@);
    let ghost fv = views_of(fields@);
    let ghost lv = lookups_view(found@);
    let mut out: Vec<String> = Vec::new();
    if contains_string(ids, &row.id) {
        out.push(String::from_str("Existing document with the same _id"));
    }
    let ghost head = views_of(out@);
    assert(head =~= if views_of(ids@).contains(row@.0) { seq![id_reason()] } else { Seq::<Seq<char>>::empty() });
    let mut k: usize = 0;
    while k < fields.len()
        invariant
            k <= fields@.len(),
            cv == views_of(cols@),
            fv == views_of(fields@),
            lv == lookups_view(found@),
            views_of(out@) == head + field_reasons(cv, row@, fv.subrange(0, k as int), lv),
        decreases fields@.len() - k,
    {
        assert(fv.subrange(0, k + 1).drop_last() =~= fv.subrange(0, k as int));
        let f = &fields[k];
        if collides_exec(cols, row, f, found) {
            let mut s = String::from_str("Duplicate value for unique field '");
            s.append(f.as_str());
            s.append("'");
            let ghost before = views_of(out@);
            out.push(s);
            assert(views_of(out@) =~= before.push(s@));
        }
        assert(views_of(out@) =~= head + field_reasons(cv, row@, fv.subrange(0, k + 1), lv));
        k += 1;
    }
    assert(fv.subrange(0, fields@.len() as int) =~= fv);
    out
}

fn build_moved_row(cols: &Vec<String>, row: &StagedRow, inv_cols: &Vec<String>, rs: &Vec<String>) -> (r: StagedRow)
    ensures
        r@ == moved_row(views_of(cols@), row@, views_of(inv_cols@), views_of(rs@)),
{
    let errors = encode_strings(rs);
    let mut cells: Vec<Option<String>> = Vec::new();
    let mut j: usize = 0;
    while j < inv_cols.len()
        invariant
            j <= inv_cols@.len(),
            errors@ == json_of_strings(views_of(rs@)),
            cells@.len() == j,
            forall|k: int| 0 <= k < j ==> opt_view(#[trigger] cells@[k]) == moved_cell(views_of(cols@), row@, inv_cols@[k]@, views_of(rs@)),
        decreases inv_cols@.len() - j,
    {
        let c = inv_cols[j].as_str();
        let cell = if str_eq(c, "errors") {
            if errors.as_str().unicode_len() > 0 {
                Some(errors.clone())
            } else {
                None
            }
        } else {
            match row_cell(cols, &row.cells, c) {
                Some(v) => if v.as_str().unicode_len() > 0 {
                    Some(v.clone())
                } else {
                    None
                },
                None => None,
            }
        };
        cells.push(cell);
        j += 1;
    }
    assert(cells@.map_values(|c: Option<String>| opt_view(c)) =~= views_of(inv_cols@).map_values(|c: Seq<char>| moved_cell(views_of(cols@), row@, c, views_of(rs@))));
    StagedRow { id: row.id.clone(), cells }
}

/// What to ask the authoritative store about the valid rows: their
/// non-empty identifiers, and the distinct non-empty values of each unique
/// field that has any.
pub fn plan_checks(cols: &Vec<String>, rows: &Vec<StagedRow>, fields: &Vec<String>) -> (r: CheckPlan)
    ensures
        views_of(r.ids@) == id_candidates(rows_view(rows@)),
        lookups_view(r.fields@) == field_questions(views_of(cols@), rows_view(rows@), views_of(fields@)),
{
    let ghost rv = rows_view(rows@);
    let mut ids: Vec<String> = Vec::new();
    let mut i: usize = 0;
    while i < rows.len()
        invariant
            i <= rows@.len(),
            rv == rows_view(rows@),
            views_of(ids@) == id_candidates(rv.subrange(0, i as int)),
        decreases rows@.len() - i,
    {
        assert(rv.subrange(0, i + 1).drop_last() =~= rv.subrange(0, i as int));
        let ghost before = views_of(ids@);
        if rows[i].id.as_str().unicode_len() > 0 {
            ids.push(rows[i].id.clone());
            assert(views_of(ids@) =~= before.push(rows@[i as int].id@));
        }
        i += 1;
    }
    assert(rv.subrange(0, rows@.len() as int) =~= rv);
    let ghost cv = views_of(cols@);
    let ghost fv = views_of(fields@);
    let mut questions: Vec<FieldLookup> = Vec::new();
    let mut k: usize = 0;
    while k < fields.len()
        invariant
            k <= fields@.len(),
            rv == rows_view(rows@),
            cv == views_of(cols@),
            fv == views_of(fields@),
            lookups_view(questions@) == field_questions(cv, rv, fv.subrange(0, k as int)),
        decreases fields@.len() - k,
    {
        assert(fv.subrange(0, k + 1).drop_last() =~= fv.subrange(0, k as int));
        let values = distinct_values(cols, rows, &fields[k]);
        let ghost before = lookups_view(questions@);
        if values.len() > 0 {
            let q = FieldLookup { field: fields[k].clone(), values };
            questions.push(q);
            assert(lookups_view(questions@) =~= before.push((fv[k as int], value_candidates(cv, rv, fv[k as int]))));
        }
        k += 1;
    }
    assert(fv.subrange(0, fields@.len() as int) =~= fv);
    CheckPlan { ids, fields: questions }
}

/// The distinct non-empty values of field `f` among the rows, in order of
/// first appearance.
pub fn distinct_values(cols: &Vec<String>, rows: &Vec<StagedRow>, f: &String) -> (r: Vec<String>)
    ensures
        views_of(r@) == value_candidates(views_of(cols@), rows_view(rows@), f@),
{
    let ghost rv = rows_view(rows@);
    let mut out: Vec<String> = Vec::new();
    let mut i: usize = 0;
    while i < rows.len()
        invariant
            i <= rows@.len(),
            rv == rows_view(rows@),
            views_of(out@) == value_candidates(views_of(cols@), rv.subrange(0, i as int), f@),
        decreases rows@.len() - i,
    {
        assert(rv.subrange(0, i + 1).drop_last() =~= rv.subrange(0, i as int));
        assert(rv.subrange(0, i + 1).last() == rows@[i as int]@);
        let ghost before = views_of(out@);
        match row_cell(cols, &rows[i].cells, f.as_str()) {
            Some(v) => {
                if v.as_str().unicode_len() > 0 && !contains_string(&out, v) {
                    out.push(v.clone());
                    assert(views_of(out@) =~= before.push(v@));
                }
            },
            None => {},
        }
        i += 1;
    }
    assert(rv.subrange(0, rows@.len() as int) =~= rv);
    out
}

/// Every row is either moved or remains.
pub proof fn lemma_moved_and_remaining(cols: Seq<Seq<char>>, rows: Seq<RowView>, fields: Seq<Seq<char>>, ids: Seq<Seq<char>>, found: Found, inv_cols: Seq<Seq<char>>)
    ensures
        moved_rows(cols, rows, fields, ids, found, inv_cols).len() + remaining_rows(cols, rows, fields, ids, found).len() == rows.len(),
    decreases rows.len(),
{
    if rows.len() > 0 {
        lemma_moved_and_remaining(cols, rows.drop_last(), fields, ids, found, inv_cols);
    }
}

/// Relocates the conflicting rows, given what the authoritative store
/// reported: which identifiers exist (`ids`) and which values of each unique
/// field exist (`found`). The counts always add up: every row examined is
/// either relocated or remains valid.
pub fn relocate_conflicts(cols: &Vec<String>, rows: &Vec<StagedRow>, inv_cols: &Vec<String>, fields: &Vec<String>, ids: &Vec<String>, found: &Vec<FieldLookup>) -> (r: Relocation)
    ensures
        rows_view(r.moved@) == moved_rows(views_of(cols@), rows_view(rows@), views_of(fields@), views_of(ids@), lookups_view(found@), views_of(inv_cols@)),
        views_of(r.removed_ids@) == moved_ids(rows_view(r.moved@)),
        r.summary.validated_count == rows@.len(),
        r.summary.conflicts_found == r.moved@.len(),
        r.summary.remaining_valid == remaining_rows(views_of(cols@), rows_view(rows@), views_of(fields@), views_of(ids@), lookups_view(found@)).len(),
        r.summary.validated_count == r.summary.conflicts_found + r.summary.remaining_valid,
{
    let ghost cv = views_of(cols@);
    let ghost fv = views_of(fields@);
    let ghost iv = views_of(ids@);
    let ghost lv = lookups_view(found@);
    let ghost icv = views_of(inv_cols@);
    let ghost rv = rows_view(rows@);
    let mut moved: Vec<StagedRow> = Vec::new();
    let mut removed: Vec<String> = Vec::new();
    let mut i: usize = 0;
    while i < rows.len()
        invariant
            i <= rows@.len(),
            cv == views_of(cols@),
            fv == views_of(fields@),
            iv == views_of(ids@),
            lv == lookups_view(found@),
            icv == views_of(inv_cols@),
            rv == rows_view(rows@),
            rows_view(moved@) == moved_rows(cv, rv.subrange(0, i as int), fv, iv, lv, icv),
            views_of(removed@) == moved_ids(rows_view(moved@)),
        decreases rows@.len() - i,
    {
        assert(rv.subrange(0, i + 1).drop_last() =~= rv.subrange(0, i as int));
        assert(rv.subrange(0, i + 1).last() == rows@[i as int]@);
        let rs = row_reasons(cols, &rows[i], fields, ids, found);
        if rs.len() > 0 {
            let ghost bm = rows_view(moved@);
            let ghost br = views_of(removed@);
            let m = build_moved_row(cols, &rows[i], inv_cols, &rs);
            let mid = m.id.clone();
            assert(mid@ == m@.0);
            removed.push(mid);
            moved.push(m);
            assert(rows_view(moved@) =~= bm.push(m@));
            assert(views_of(removed@) =~= br.push(m@.0));
            assert(moved_ids(bm.push(m@)) =~= moved_ids(bm).push(m@.0));
        }
        i += 1;
    }
    assert(rv.subrange(0, rows@.len() as int) =~= rv);
    proof {
        lemma_moved_and_remaining(cv, rv, fv, iv, lv, icv);
    }
    let validated = rows.len();
    let conflicts = moved.len();
    Relocation {
        moved,
        removed_ids: removed,
        summary: ValidationSummary {
            validated_count: validated,
            conflicts_found: conflicts,
            remaining_valid: validated - conflicts,
        },
    }
}

/// A unique field value of the row that the authoritative store holds.
pub open spec fn held_by(cols: Seq<Seq<char>>, row: RowView, f: Seq<char>, held: Map<Seq<char>, Set<Seq<char>>>) -> bool {
    match cell_in(cols, row.1, f) {
        Some(v) => v.len() > 0 && held.contains_key(f) && held[f].contains(v),
        None => false,
    }
}

/// What the store reported about a row agrees with its contents: the
/// identifiers it holds and the values it holds per unique field.
pub open spec fn row_agrees(cols: Seq<Seq<char>>, row: RowView, fields: Seq<Seq<char>>, ids: Seq<Seq<char>>, found: Found, held_ids: Set<Seq<char>>, held: Map<Seq<char>, Set<Seq<char>>>) -> bool {
    &&& (ids.contains(row.0) <==> held_ids.contains(row.0))
    &&& forall|k: int| 0 <= k < fields.len() ==> (#[trigger] collides(cols, row, fields[k], found) <==> held_by(cols, row, fields[k], held))
}

pub open spec fn answers_agree(cols: Seq<Seq<char>>, rows: Seq<RowView>, fields: Seq<Seq<char>>, ids: Seq<Seq<char>>, found: Found, held_ids: Set<Seq<char>>, held: Map<Seq<char>, Set<Seq<char>>>) -> bool {
    forall|i: int| 0 <= i < rows.len() ==> row_agrees(cols, #[trigger] rows[i], fields, ids, found, held_ids, held)
}

proof fn lemma_field_reasons_same(cols: Seq<Seq<char>>, row: RowView, fields: Seq<Seq<char>>, found1: Found, found2: Found)
    requires
        forall|k: int| 0 <= k < fields.len() ==> (#[trigger] collides(cols, row, fields[k], found1) <==> collides(cols, row, fields[k], found2)),
    ensures
        field_reasons(cols, row, fields, found1) == field_reasons(cols, row, fields, found2),
    decreases fields.len(),
{
    if fields.len() > 0 {
        let p = fields.drop_last();
        assert forall|k: int| 0 <= k < p.len() implies (#[trigger] collides(cols, row, p[k], found1) <==> collides(cols, row, p[k], found2)) by {
            assert(p[k] == fields[k]);
        }
        lemma_field_reasons_same(cols, row, p, found1, found2);
        assert(collides(cols, row, fields[fields.len() - 1], found1) <==> collides(cols, row, fields[fields.len() - 1], found2));
    }
}

proof fn lemma_remaining_clean(cols: Seq<Seq<char>>, rows: Seq<RowView>, fields: Seq<Seq<char>>, ids: Seq<Seq<char>>, found: Found)
    ensures
        forall|j: int| 0 <= j < remaining_rows(cols, rows, fields, ids, found).len() ==> {
            &&& reasons(cols, #[trigger] remaining_rows(cols, rows, fields, ids, found)[j], fields, ids, found).len() == 0
            &&& rows.contains(remaining_rows(cols, rows, fields, ids, found)[j])
        },
    decreases rows.len(),
{
    if rows.len() > 0 {
        let p = rows.drop_last();
        lemma_remaining_clean(cols, p, fields, ids, found);
        let rem = remaining_rows(cols, rows, fields, ids, found);
        let prem = remaining_rows(cols, p, fields, ids, found);
        assert forall|j: int| 0 <= j < rem.len() implies {
            &&& reasons(cols, #[trigger] rem[j], fields, ids, found).len() == 0
            &&& rows.contains(rem[j])
        } by {
            if j < prem.len() {
                assert(rem[j] == prem[j]);
                let w = choose|w: int| 0 <= w < p.len() && p[w] == prem[j];
                assert(rows[w] == p[w]);
            } else {
                assert(rem[j] == rows[rows.len() - 1]);
            }
        }
    }
}

proof fn lemma_nothing_moved(cols: Seq<Seq<char>>, rows: Seq<RowView>, fields: Seq<Seq<char>>, ids: Seq<Seq<char>>, found: Found, inv_cols: Seq<Seq<char>>)
    requires
        forall|j: int| 0 <= j < rows.len() ==> reasons(cols, #[trigger] rows[j], fields, ids, found).len() == 0,
    ensures
        moved_rows(cols, rows, fields, ids, found, inv_cols).len() == 0,
    decreases rows.len(),
{
    if rows.len() > 0 {
        let p = rows.drop_last();
        assert forall|j: int| 0 <= j < p.len() implies reasons(cols, #[trigger] p[j], fields, ids, found).len() == 0 by {
            assert(p[j] == rows[j]);
        }
        lemma_nothing_moved(cols, p, fields, ids, found, inv_cols);
        assert(reasons(cols, rows[rows.len() - 1], fields, ids, found).len() == 0);
    }
}

/// Validating twice in a row, with no change to the authoritative store in
/// between, finds no conflict the second time: when both runs were told what
/// the store holds about the rows they asked about, every row left valid by
/// the first run is clean for the second.
pub proof fn lemma_validation_idempotent(cols: Seq<Seq<char>>, rows: Seq<RowView>, fields: Seq<Seq<char>>, inv_cols: Seq<Seq<char>>, ids1: Seq<Seq<char>>, found1: Found, ids2: Seq<Seq<char>>, found2: Found, held_ids: Set<Seq<char>>, held: Map<Seq<char>, Set<Seq<char>>>)
    requires
        answers_agree(cols, rows, fields, ids1, found1, held_ids, held),
        answers_agree(cols, remaining_rows(cols, rows, fields, ids1, found1), fields, ids2, found2, held_ids, held),
    ensures
        moved_rows(cols, remaining_rows(cols, rows, fields, ids1, found1), fields, ids2, found2, inv_cols).len() == 0,
        remaining_rows(cols, remaining_rows(cols, rows, fields, ids1, found1), fields, ids2, found2) == remaining_rows(cols, rows, fields, ids1, found1),
{
    let rem = remaining_rows(cols, rows, fields, ids1, found1);
    lemma_remaining_clean(cols, rows, fields, ids1, found1);
    assert forall|j: int| 0 <= j < rem.len() implies reasons(cols, #[trigger] rem[j], fields, ids2, found2).len() == 0 by {
        let w = choose|w: int| 0 <= w < rows.len() && rows[w] == rem[j];
        assert(row_agrees(cols, rows[w], fields, ids1, found1, held_ids, held));
        assert(row_agrees(cols, rem[j], fields, ids2, found2, held_ids, held));
        assert forall|k: int| 0 <= k < fields.len() implies (#[trigger] collides(cols, rem[j], fields[k], found1) <==> collides(cols, rem[j], fields[k], found2)) by {
            assert(collides(cols, rows[w], fields[k], found1) <==> held_by(cols, rows[w], fields[k], held));
            assert(collides(cols, rem[j], fields[k], found2) <==> held_by(cols, rem[j], fields[k], held));
        }
        lemma_field_reasons_same(cols, rem[j], fields, found1, found2);
        assert(reasons(cols, rem[j], fields, ids1, found1).len() == 0);
    }
    lemma_nothing_moved(cols, rem, fields, ids2, found2, inv_cols);
    lemma_all_remain(cols, rem, fields, ids2, found2);
}

proof fn lemma_all_remain(cols: Seq<Seq<char>>, rows: Seq<RowView>, fields: Seq<Seq<char>>, ids: Seq<Seq<char>>, found: Found)
    requires
        forall|j: int| 0 <= j < rows.len() ==> reasons(cols, #[trigger] rows[j], fields, ids, found).len() == 0,
    ensures
        remaining_rows(cols, rows, fields, ids, found) == rows,
    decreases rows.len(),
{
    if rows.len() > 0 {
        let p = rows.drop_last();
        assert forall|j: int| 0 <= j < p.len() implies reasons(cols, #[trigger] p[j], fields, ids, found).len() == 0 by {
            assert(p[j] == rows[j]);
        }
        lemma_all_remain(cols, p, fields, ids, found);
        assert(reasons(cols, rows[rows.len() - 1], fields, ids, found).len() == 0);
        assert(p.push(rows.last()) =~= rows);
    }
}

proof fn lemma_field_reason_listed(cols: Seq<Seq<char>>, row: RowView, fields: Seq<Seq<char>>, found: Found, k: int)
    requires
        0 <= k < fields.len(),
        collides(cols, row, fields[k], found),
    ensures
        field_reasons(cols, row, fields, found).contains(dup_reason(fields[k])),
    decreases fields.len(),
{
    let fr = field_reasons(cols, row, fields, found);
    if k == fields.len() - 1 {
        assert(fr[fr.len() - 1] == dup_reason(fields[k]));
    } else {
        let p = fields.drop_last();
        assert(p[k] == fields[k]);
        lemma_field_reason_listed(cols, row, p, found, k);
        let pr = field_reasons(cols, row, p, found);
        let w = choose|w: int| 0 <= w < pr.len() && pr[w] == dup_reason(fields[k]);
        assert(fr[w] == pr[w]);
    }
}

proof fn lemma_moved_listed(cols: Seq<Seq<char>>, rows: Seq<RowView>, fields: Seq<Seq<char>>, ids: Seq<Seq<char>>, found: Found, inv_cols: Seq<Seq<char>>, i: int)
    requires
        0 <= i < rows.len(),
        reasons(cols, rows[i], fields, ids, found).len() > 0,
    ensures
        moved_rows(cols, rows, fields, ids, found, inv_cols).contains(moved_row(cols, rows[i], inv_cols, reasons(cols, rows[i], fields, ids, found))),
    decreases rows.len(),
{
    let m = moved_rows(cols, rows, fields, ids, found, inv_cols);
    if i == rows.len() - 1 {
        assert(m[m.len() - 1] == moved_row(cols, rows[i], inv_cols, reasons(cols, rows[i], fields, ids, found)));
    } else {
        let p = rows.drop_last();
        assert(p[i] == rows[i]);
        lemma_moved_listed(cols, p, fields, ids, found, inv_cols, i);
        let pm = moved_rows(cols, p, fields, ids, found, inv_cols);
        let w = choose|w: int| 0 <= w < pm.len() && pm[w] == moved_row(cols, rows[i], inv_cols, reasons(cols, rows[i], fields, ids, found));
        assert(m[w] == pm[w]);
    }
}

/// A staged row whose identifier the authoritative store already holds
/// carries the reason "Existing document with the same _id"; one whose value
/// of a unique field is already held carries the reason naming that field;
/// a row colliding on both carries both. A row with any reason is relocated:
/// it is written to the invalid table with its reasons and does not remain
/// valid.
pub proof fn lemma_conflict_coverage(cols: Seq<Seq<char>>, rows: Seq<RowView>, fields: Seq<Seq<char>>, ids: Seq<Seq<char>>, found: Found, inv_cols: Seq<Seq<char>>, i: int)
    requires
        0 <= i < rows.len(),
    ensures
        ids.contains(rows[i].0) ==> reasons(cols, rows[i], fields, ids, found).contains(id_reason()),
        forall|k: int| 0 <= k < fields.len() && #[trigger] collides(cols, rows[i], fields[k], found) ==> reasons(cols, rows[i], fields, ids, found).contains(dup_reason(fields[k])),
        reasons(cols, rows[i], fields, ids, found).len() > 0 ==> {
            &&& moved_rows(cols, rows, fields, ids, found, inv_cols).contains(moved_row(cols, rows[i], inv_cols, reasons(cols, rows[i], fields, ids, found)))
            &&& !remaining_rows(cols, rows, fields, ids, found).contains(rows[i])
        },
{
    let rs = reasons(cols, rows[i], fields, ids, found);
    let head: Seq<Seq<char>> = if ids.contains(rows[i].0) { seq![id_reason()] } else { Seq::empty() };
    let fr = field_reasons(cols, rows[i], fields, found);
    if ids.contains(rows[i].0) {
        assert(rs[0] == id_reason());
    }
    assert forall|k: int| 0 <= k < fields.len() && #[trigger] collides(cols, rows[i], fields[k], found) implies rs.contains(dup_reason(fields[k])) by {
        lemma_field_reason_listed(cols, rows[i], fields, found, k);
        let w = choose|w: int| 0 <= w < fr.len() && fr[w] == dup_reason(fields[k]);
        assert(rs[head.len() + w] == fr[w]);
    }
    if rs.len() > 0 {
        lemma_moved_listed(cols, rows, fields, ids, found, inv_cols, i);
        lemma_remaining_clean(cols, rows, fields, ids, found);
        let rem = remaining_rows(cols, rows, fields, ids, found);
        if rem.contains(rows[i]) {
            let w = choose|w: int| 0 <= w < rem.len() && rem[w] == rows[i];
            assert(reasons(cols, rem[w], fields, ids, found).len() == 0);
        }
    }
}

} // verus!
