//! The store-level guarantees of the command language, stated on their own:
//! each follows from the executor's postconditions, and each is proved here
//! so a reader sees what is promised without unfolding those postconditions.

use vstd::prelude::*;

use crate::errors::SqlErrorV;
use crate::executor::{all_valid, count_matched, delete_post, insert_post, remove_matched,
    spec_find_col, spec_select, spec_select_many, sets_resolved, update_post, validated_row};
use crate::store::{spec_find_table, DatabaseV};

verus! {

/// A well-typed INSERT appends exactly one row, whose values are the
/// validated literals in column order; the row count grows by one.
pub proof fn lemma_insert_appends_validated(
    d0: DatabaseV,
    d1: DatabaseV,
    name: Seq<char>,
    lits: Seq<Seq<char>>,
    r: Result<nat, SqlErrorV>,
)
    requires
        insert_post(d0, d1, name, lits, r),
        spec_find_table(d0, name) is Some,
        lits.len() == d0.tables[spec_find_table(d0, name).unwrap()].columns.len(),
        all_valid(d0.tables[spec_find_table(d0, name).unwrap()].columns, lits),
    ensures
        r == Ok::<nat, SqlErrorV>(1),
        ({
            let ti = spec_find_table(d0, name).unwrap();
            &&& d1.tables[ti].rows == d0.tables[ti].rows.push(
                validated_row(d0.tables[ti].columns, lits),
            )
            &&& d1.tables[ti].rows.len() == d0.tables[ti].rows.len() + 1
            &&& d1.tables[ti].columns == d0.tables[ti].columns
        }),
{
    crate::store::lemma_find_table_from(d0.tables, name, 0);
    let ti = spec_find_table(d0, name).unwrap();
    assert(d1.tables[ti] == d0.tables.update(
        ti,
        d0.tables[ti].with_rows(d0.tables[ti].rows.push(validated_row(d0.tables[ti].columns, lits))),
    )[ti]);
}

/// An INSERT whose literal count differs from the column count never mutates
/// the store, and its error reports both counts.
pub proof fn lemma_insert_arity_mismatch(
    d0: DatabaseV,
    d1: DatabaseV,
    name: Seq<char>,
    lits: Seq<Seq<char>>,
    r: Result<nat, SqlErrorV>,
)
    requires
        insert_post(d0, d1, name, lits, r),
        spec_find_table(d0, name) is Some,
        lits.len() != d0.tables[spec_find_table(d0, name).unwrap()].columns.len(),
    ensures
        d1 == d0,
        r == Err::<nat, SqlErrorV>(
            SqlErrorV::ColumnCountMismatch {
                expected: d0.tables[spec_find_table(d0, name).unwrap()].columns.len(),
                actual: lits.len(),
            },
        ),
{
}

/// An INSERT with an invalid Int or Bool literal never mutates the store.
pub proof fn lemma_insert_invalid_literal(
    d0: DatabaseV,
    d1: DatabaseV,
    name: Seq<char>,
    lits: Seq<Seq<char>>,
    r: Result<nat, SqlErrorV>,
)
    requires
        insert_post(d0, d1, name, lits, r),
        spec_find_table(d0, name) is Some,
        lits.len() == d0.tables[spec_find_table(d0, name).unwrap()].columns.len(),
        !all_valid(d0.tables[spec_find_table(d0, name).unwrap()].columns, lits),
    ensures
        d1 == d0,
        r is Err,
        r->Err_0 matches SqlErrorV::TypeValidation { .. },
{
}

/// An UPDATE naming a column that does not exist, in SET or in WHERE,
/// mutates nothing and reports `ColumnNotFound`.
pub proof fn lemma_update_unknown_column(
    d0: DatabaseV,
    d1: DatabaseV,
    name: Seq<char>,
    sets: Seq<(Seq<char>, Seq<char>)>,
    cond: (Seq<char>, Seq<char>),
    r: Result<nat, SqlErrorV>,
)
    requires
        update_post(d0, d1, name, sets, cond, r),
        spec_find_table(d0, name) is Some,
        !sets_resolved(d0.tables[spec_find_table(d0, name).unwrap()].columns, sets)
            || spec_find_col(d0.tables[spec_find_table(d0, name).unwrap()].columns, cond.0) is None,
    ensures
        d1 == d0,
        r is Err,
        r->Err_0 matches SqlErrorV::ColumnNotFound(_),
{
}

/// A DELETE without a condition empties the table and reports the prior row
/// count.
pub proof fn lemma_delete_all_empties(
    d0: DatabaseV,
    d1: DatabaseV,
    name: Seq<char>,
    r: Result<nat, SqlErrorV>,
)
    requires
        delete_post(d0, d1, name, None, r),
        spec_find_table(d0, name) is Some,
    ensures
        ({
            let ti = spec_find_table(d0, name).unwrap();
            &&& d1.tables[ti].rows.len() == 0
            &&& r == Ok::<nat, SqlErrorV>(d0.tables[ti].rows.len())
        }),
{
    crate::store::lemma_find_table_from(d0.tables, name, 0);
    let ti = spec_find_table(d0, name).unwrap();
    assert(d1.tables[ti] == d0.tables.update(ti, d0.tables[ti].with_rows(Seq::empty()))[ti]);
}

/// A SELECT on a table that does not exist reports `TableNotFound` and
/// produces no tabular output; a SELECT never mutates the store at all.
pub proof fn lemma_select_missing_table(dbv: DatabaseV, names: Seq<Seq<char>>, k: int)
    requires
        0 <= k < names.len(),
        spec_find_table(dbv, names[k]) is None,
        forall|m: int| 0 <= m < k ==> spec_find_table(dbv, #[trigger] names[m]) is Some,
    ensures
        names.len() == 1 ==> spec_select(dbv, names) == Err::<Seq<char>, SqlErrorV>(
            SqlErrorV::TableNotFound(names[0]),
        ),
        spec_select_many(dbv, names) == Err::<Seq<char>, SqlErrorV>(
            SqlErrorV::TableNotFound(names[k]),
        ),
    decreases k,
{
    if k == 0 {
    } else {
        assert(spec_find_table(dbv, names[0]) is Some);
        lemma_select_missing_table(dbv, names.skip(1), k - 1);
        assert(names.skip(1)[k - 1] == names[k]);
    }
}

} // verus!
