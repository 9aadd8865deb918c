//! The statements that create and fill the staging tables of the embedded
//! store, with column names quoted for its SQL dialect.

use vstd::prelude::*;
use vstd::string::*;
use crate::json::views_of;

verus! {

/// The two staging tables of a collection.
#[derive(PartialEq, Eq, Structural, Debug, Clone, Copy)]
pub enum StagingTable {
    Valid,
    Invalid,
}

pub open spec fn table_name_of(t: StagingTable) -> Seq<char> {
    match t {
        StagingTable::Valid => "valid_data"@,
        StagingTable::Invalid => "invalid_data"@,
    }
}

impl StagingTable {
    /// The table's name in the embedded store.
    pub fn name(&self) -> (r: &'static str)
        ensures
            r@ == table_name_of(*self),
    {
        match self {
            StagingTable::Valid => "valid_data",
            StagingTable::Invalid => "invalid_data",
        }
    }
}

/// The characters of a name with every double quote doubled.
pub open spec fn escaped(s: Seq<char>) -> Seq<char>
    decreases s.len(),
{
    if s.len() == 0 {
        Seq::empty()
    } else if s.last() == '"' {
        escaped(s.drop_last()) + seq!['"', '"']
    } else {
        escaped(s.drop_last()).push(s.last())
    }
}

/// A quoted identifier.
pub open spec fn quoted(s: Seq<char>) -> Seq<char> {
    seq!['"'] + escaped(s) + seq!['"']
}

/// `, "c" TEXT` for each column.
pub open spec fn column_defs(cols: Seq<Seq<char>>) -> Seq<char>
    decreases cols.len(),
{
    if cols.len() == 0 {
        Seq::empty()
    } else {
        column_defs(cols.drop_last()) + ", "@ + quoted(cols.last()) + " TEXT"@
    }
}

/// `, "c"` for each column.
pub open spec fn column_list(cols: Seq<Seq<char>>) -> Seq<char>
    decreases cols.len(),
{
    if cols.len() == 0 {
        Seq::empty()
    } else {
        column_list(cols.drop_last()) + ", "@ + quoted(cols.last())
    }
}

/// `, ?` for each column.
pub open spec fn placeholders(n: nat) -> Seq<char>
    decreases n,
{
    if n == 0 {
        Seq::empty()
    } else {
        placeholders((n - 1) as nat) + ", ?"@
    }
}

pub open spec fn create_sql_of(t: StagingTable, cols: Seq<Seq<char>>) -> Seq<char> {
    "CREATE TABLE "@ + table_name_of(t) + " (\"_id\" TEXT PRIMARY KEY"@ + column_defs(cols) + ")"@
}

pub open spec fn drop_sql_of(t: StagingTable) -> Seq<char> {
    "DROP TABLE IF EXISTS "@ + table_name_of(t)
}

pub open spec fn insert_sql_of(t: StagingTable, cols: Seq<Seq<char>>, replace: bool) -> Seq<char> {
    (if replace { "INSERT OR REPLACE INTO "@ } else { "INSERT INTO "@ }) + table_name_of(t) + " (\"_id\""@
        + column_list(cols) + ") VALUES (?"@ + placeholders(cols.len()) + ")"@
}

/// A name quoted as an identifier: in double quotes, each double quote in
/// it doubled.
pub fn quote_ident(name: &str) -> (r: String)
    ensures
        r@ == quoted(name@),
{
    let n = name.unicode_len();
    let mut out = String::from_str("\"");
    let ghost open = out@;
    proof {
        reveal_strlit("\"");
    }
    let mut i: usize = 0;
    while i < n
        invariant
            n == name@.len(),
            i <= n,
            out@ == seq!['"'] + escaped(name@.subrange(0, i as int)),
        decreases n - i,
    {
        assert(name@.subrange(0, i + 1).drop_last() =~= name@.subrange(0, i as int));
        let c = name.get_char(i);
        if c == '"' {
            proof {
                reveal_strlit("\"\"");
            }
            out.append("\"\"");
            assert("\"\""@ =~= seq!['"', '"']);
        } else {
            let piece = name.substring_char(i, i + 1);
            out.append(piece);
            assert(piece@ =~= seq![c]);
        }
        assert(out@ =~= seq!['"'] + escaped(name@.subrange(0, i + 1)));
        i += 1;
    }
    assert(name@.subrange(0, n as int) =~= name@);
    out.append("\"");
    assert(out@ =~= quoted(name@));
    out
}

/// The statement that drops a staging table if it exists.
pub fn drop_table_sql(t: StagingTable) -> (r: String)
    ensures
        r@ == drop_sql_of(t),
{
    let mut s = String::from_str("DROP TABLE IF EXISTS ");
    s.append(t.name());
    s
}

/// The statement that creates a staging table: `_id` as its text primary
/// key, then one text column per name.
pub fn create_table_sql(t: StagingTable, cols: &Vec<String>) -> (r: String)
    ensures
        r@ == create_sql_of(t, views_of(cols@)),
{
    let mut s = String::from_str("CREATE TABLE ");
    s.append(t.name());
    s.append(" (\"_id\" TEXT PRIMARY KEY");
    let ghost head = s@;
    let ghost cv = views_of(cols@);
    let mut i: usize = 0;
    while i < cols.len()
        invariant
            i <= cols@.len(),
            cv == views_of(cols@),
            s@ == head + column_defs(cv.subrange(0, i as int)),
        decreases cols@.len() - i,
    {
        assert(cv.subrange(0, i + 1).drop_last() =~= cv.subrange(0, i as int));
        let q = quote_ident(cols[i].as_str());
        s.append(", ");
        s.append(q.as_str());
        s.append(" TEXT");
        assert(s@ =~= head + column_defs(cv.subrange(0, i + 1)));
        i += 1;
    }
    assert(cv.subrange(0, cols@.len() as int) =~= cv);
    s.append(")");
    assert(s@ =~= create_sql_of(t, cv));
    s
}

/// The statement that inserts (or, with `replace`, inserts or replaces) one
/// row: `_id` and then the columns, each bound to a parameter.
pub fn insert_sql(t: StagingTable, cols: &Vec<String>, replace: bool) -> (r: String)
    ensures
        r@ == insert_sql_of(t, views_of(cols@), replace),
{
    let mut s = if replace {
        String::from_str("INSERT OR REPLACE INTO ")
    } else {
        String::from_str("INSERT INTO ")
    };
    s.append(t.name());
    s.append(" (\"_id\"");
    let ghost head = s@;
    let ghost cv = views_of(cols@);
    let mut i: usize = 0;
    while i < cols.len()
        invariant
            i <= cols@.len(),
            cv == views_of(cols@),
            s@ == head + column_list(cv.subrange(0, i as int)),
        decreases cols@.len() - i,
    {
        assert(cv.subrange(0, i + 1).drop_last() =~= cv.subrange(0, i as int));
        let q = quote_ident(cols[i].as_str());
        s.append(", ");
        s.append(q.as_str());
        assert(s@ =~= head + column_list(cv.subrange(0, i + 1)));
        i += 1;
    }
    assert(cv.subrange(0, cols@.len() as int) =~= cv);
    s.append(") VALUES (?");
    let ghost mid = s@;
    let mut j: usize = 0;
    while j < cols.len()
        invariant
            j <= cols@.len(),
            s@ == mid + placeholders(j as nat),
        decreases cols@.len() - j,
    {
        s.append(", ?");
        assert(s@ =~= mid + placeholders((j + 1) as nat));
        j += 1;
    }
    s.append(")");
    assert(s@ =~= insert_sql_of(t, cv, replace));
    s
}

} // verus!
