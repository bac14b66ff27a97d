//! The command executor: applies one typed statement to the store.
//!
//! Reads render tabular text; mutations report a row count.  Validation
//! (arity and types for INSERT, column resolution for UPDATE and DELETE) is
//! finished before any row is touched, so no statement ever partially
//! applies: on every error the store is exactly what it was.

use vstd::prelude::*;

use crate::digits::{spec_digits, usize_to_string};
use crate::errors::{SqlError, SqlErrorV};
use crate::parser::{parse, spec_parse, Statement, StatementV};
use crate::schema::{spec_validate, validate};
use crate::store::{spec_find_table, ColumnV, Column, Database, DatabaseV, Row, Table, TableV};
use crate::text::{append_chars, chars_of, concat_with, lemma_concat_with_push, string_from_chars};
use vstd::string::StringExecFns;

verus! {

/// The first column at or after `i` whose name is exactly `name`.
pub open spec fn find_col_from(cols: Seq<ColumnV>, name: Seq<char>, i: int) -> Option<int>
    decreases cols.len() - i,
{
    if i < 0 || i >= cols.len() {
        None
    } else if cols[i].name == name {
        Some(i)
    } else {
        find_col_from(cols, name, i + 1)
    }
}

/// The position of the column named `name`; column names are matched
/// exactly, not under the table-name collation.
pub open spec fn spec_find_col(cols: Seq<ColumnV>, name: Seq<char>) -> Option<int> {
    find_col_from(cols, name, 0)
}

pub proof fn lemma_find_col_from(cols: Seq<ColumnV>, name: Seq<char>, i: int)
    requires
        0 <= i <= cols.len(),
    ensures
        match find_col_from(cols, name, i) {
            None => forall|j: int| i <= j < cols.len() ==> (#[trigger] cols[j]).name != name,
            Some(k) => i <= k < cols.len() && cols[k].name == name && forall|j: int|
                i <= j < k ==> (#[trigger] cols[j]).name != name,
        },
    decreases cols.len() - i,
{
    if i < cols.len() && cols[i].name != name {
        lemma_find_col_from(cols, name, i + 1);
    }
}

/// The position of the column named `name` in `columns`.
pub fn col_position(columns: &Vec<Column>, name: &String) -> (r: Option<usize>)
    ensures
        match r {
            None => spec_find_col(columns@.map_values(|c: Column| c@), name@) is None,
            Some(i) => i < columns@.len() && spec_find_col(
                columns@.map_values(|c: Column| c@),
                name@,
            ) == Some(i as int),
        },
{
    let ghost cols = columns@.map_values(|c: Column| c@);
    let mut i: usize = 0;
    while i < columns.len()
        invariant
            0 <= i <= columns@.len(),
            cols == columns@.map_values(|c: Column| c@),
            forall|j: int| 0 <= j < i ==> (#[trigger] cols[j]).name != name@,
        decreases columns@.len() - i,
    {
        if columns[i].name == *name {
            proof {
                assert(cols[i as int].name == name@);
                lemma_find_col_from(cols, name@, 0);
                let k = find_col_from(cols, name@, 0).unwrap();
                assert(k == i);
            }
            return Some(i);
        }
        i = i + 1;
    }
    proof {
        lemma_find_col_from(cols, name@, 0);
    }
    None
}

/// The row's condition column holds exactly this text; an absent value never
/// matches.
pub open spec fn row_matches(row: Seq<Option<Seq<char>>>, wi: int, val: Seq<char>) -> bool {
    0 <= wi < row.len() && row[wi] == Some(val)
}

/// How many rows at or after `i` match the condition.
pub open spec fn count_matched_from(
    rows: Seq<Seq<Option<Seq<char>>>>,
    wi: int,
    val: Seq<char>,
    i: int,
) -> nat
    decreases rows.len() - i,
{
    if i < 0 || i >= rows.len() {
        0
    } else {
        (if row_matches(rows[i], wi, val) {
            1nat
        } else {
            0nat
        }) + count_matched_from(rows, wi, val, i + 1)
    }
}

pub open spec fn count_matched(rows: Seq<Seq<Option<Seq<char>>>>, wi: int, val: Seq<char>) -> nat {
    count_matched_from(rows, wi, val, 0)
}

proof fn lemma_count_matched_from_bound(
    rows: Seq<Seq<Option<Seq<char>>>>,
    wi: int,
    val: Seq<char>,
    i: int,
)
    requires
        0 <= i <= rows.len(),
    ensures
        count_matched_from(rows, wi, val, i) <= rows.len() - i,
    decreases rows.len() - i,
{
    if i < rows.len() {
        lemma_count_matched_from_bound(rows, wi, val, i + 1);
    }
}

/// The rows at or after `i` that do not match the condition, in order.
pub open spec fn remove_matched_from(
    rows: Seq<Seq<Option<Seq<char>>>>,
    wi: int,
    val: Seq<char>,
    i: int,
) -> Seq<Seq<Option<Seq<char>>>>
    decreases rows.len() - i,
{
    if i < 0 || i >= rows.len() {
        Seq::empty()
    } else if row_matches(rows[i], wi, val) {
        remove_matched_from(rows, wi, val, i + 1)
    } else {
        seq![rows[i]] + remove_matched_from(rows, wi, val, i + 1)
    }
}

pub open spec fn remove_matched(
    rows: Seq<Seq<Option<Seq<char>>>>,
    wi: int,
    val: Seq<char>,
) -> Seq<Seq<Option<Seq<char>>>> {
    remove_matched_from(rows, wi, val, 0)
}

/// One row with every assignment applied in order; positions that do not
/// resolve are left as they are.
pub open spec fn apply_sets(
    row: Seq<Option<Seq<char>>>,
    cols: Seq<ColumnV>,
    sets: Seq<(Seq<char>, Seq<char>)>,
) -> Seq<Option<Seq<char>>>
    decreases sets.len(),
{
    if sets.len() == 0 {
        row
    } else {
        let row2 = match spec_find_col(cols, sets[0].0) {
            Some(ci) => if 0 <= ci < row.len() {
                row.update(ci, Some(sets[0].1))
            } else {
                row
            },
            None => row,
        };
        apply_sets(row2, cols, sets.skip(1))
    }
}

/// Applying assignments never changes a row's width.
pub proof fn lemma_apply_sets_len(
    row: Seq<Option<Seq<char>>>,
    cols: Seq<ColumnV>,
    sets: Seq<(Seq<char>, Seq<char>)>,
)
    ensures
        apply_sets(row, cols, sets).len() == row.len(),
    decreases sets.len(),
{
    if sets.len() > 0 {
        let row2 = match spec_find_col(cols, sets[0].0) {
            Some(ci) => if 0 <= ci < row.len() {
                row.update(ci, Some(sets[0].1))
            } else {
                row
            },
            None => row,
        };
        lemma_apply_sets_len(row2, cols, sets.skip(1));
    }
}

/// Rows that survive a conditional delete keep their width.
proof fn lemma_remove_matched_widths(
    rows: Seq<Seq<Option<Seq<char>>>>,
    wi: int,
    val: Seq<char>,
    i: int,
    width: nat,
)
    requires
        0 <= i <= rows.len(),
        forall|x: int| i <= x < rows.len() ==> (#[trigger] rows[x]).len() == width,
    ensures
        forall|y: int|
            0 <= y < remove_matched_from(rows, wi, val, i).len() ==> (#[trigger] remove_matched_from(
                rows,
                wi,
                val,
                i,
            )[y]).len() == width,
    decreases rows.len() - i,
{
    if i < rows.len() {
        lemma_remove_matched_widths(rows, wi, val, i + 1, width);
        if !row_matches(rows[i], wi, val) {
            let res = remove_matched_from(rows, wi, val, i);
            let rest = remove_matched_from(rows, wi, val, i + 1);
            assert(res == seq![rows[i]] + rest);
            assert forall|y: int| 0 <= y < res.len() implies (#[trigger] res[y]).len() == width by {
                if y == 0 {
                    assert(res[y] == rows[i]);
                } else {
                    assert(res[y] == rest[y - 1]);
                }
            }
        }
    }
}

/// Replacing one table's rows with rows of the right width keeps the store
/// well-formed.
pub proof fn lemma_wf_after_rows_change(
    d0: DatabaseV,
    d1: DatabaseV,
    ti: int,
    rows: Seq<Seq<Option<Seq<char>>>>,
)
    requires
        d0.wf(),
        0 <= ti < d0.tables.len(),
        d1.tables == d0.tables.update(ti, d0.tables[ti].with_rows(rows)),
        forall|l: int| 0 <= l < rows.len() ==> (#[trigger] rows[l]).len()
            == d0.tables[ti].columns.len(),
    ensures
        d1.wf(),
{
    assert forall|i: int| 0 <= i < d1.tables.len() implies (#[trigger] d1.tables[i]).wf() by {
        if i != ti {
            assert(d1.tables[i] == d0.tables[i]);
        }
    }
    assert forall|i: int, j: int| 0 <= i < j < d1.tables.len() implies !crate::text::seq_eq_ci(
        d1.tables[i].name,
        d1.tables[j].name,
    ) by {
        assert(d1.tables[i].name == d0.tables[i].name);
        assert(d1.tables[j].name == d0.tables[j].name);
    }
}

/// Every assignment's column resolves.
pub open spec fn sets_resolved(cols: Seq<ColumnV>, sets: Seq<(Seq<char>, Seq<char>)>) -> bool {
    forall|k: int| 0 <= k < sets.len() ==> spec_find_col(cols, (#[trigger] sets[k]).0) is Some
}

/// Every literal validates against its column's type.
pub open spec fn all_valid(cols: Seq<ColumnV>, lits: Seq<Seq<char>>) -> bool {
    forall|k: int| 0 <= k < cols.len() ==> spec_validate(
        (#[trigger] cols[k]).data_type,
        lits[k],
    ) is Ok
}

/// The row stored by a fully validated INSERT: the canonical text of each
/// literal, in column order.
pub open spec fn validated_row(cols: Seq<ColumnV>, lits: Seq<Seq<char>>) -> Seq<
    Option<Seq<char>>,
> {
    Seq::new(cols.len(), |k: int| Some(spec_validate(cols[k].data_type, lits[k])->Ok_0))
}

/// What INSERT does: everything is checked before the one new row is
/// appended, and on any error the store is unchanged.
pub open spec fn insert_post(
    d0: DatabaseV,
    d1: DatabaseV,
    name: Seq<char>,
    lits: Seq<Seq<char>>,
    r: Result<nat, SqlErrorV>,
) -> bool {
    match spec_find_table(d0, name) {
        None => d1 == d0 && r == Err::<nat, SqlErrorV>(SqlErrorV::TableNotFound(name)),
        Some(ti) => {
            let t = d0.tables[ti];
            if lits.len() != t.columns.len() {
                d1 == d0 && r == Err::<nat, SqlErrorV>(
                    SqlErrorV::ColumnCountMismatch {
                        expected: t.columns.len(),
                        actual: lits.len(),
                    },
                )
            } else if all_valid(t.columns, lits) {
                r == Ok::<nat, SqlErrorV>(1) && d1.tables == d0.tables.update(
                    ti,
                    t.with_rows(t.rows.push(validated_row(t.columns, lits))),
                )
            } else {
                d1 == d0 && exists|k: int|
                    {
                        &&& 0 <= k < t.columns.len()
                        &&& spec_validate(t.columns[k].data_type, lits[k]) is Err
                        &&& forall|m: int| 0 <= m < k ==> spec_validate(
                            (#[trigger] t.columns[m]).data_type,
                            lits[m],
                        ) is Ok
                        &&& r == Err::<nat, SqlErrorV>(
                            SqlErrorV::TypeValidation {
                                error: spec_validate(t.columns[k].data_type, lits[k])->Err_0,
                                literal: lits[k],
                            },
                        )
                    }
            }
        },
    }
}

/// What UPDATE does: the table and every named column are resolved before
/// any row is touched; then every matching row gets every assignment, and
/// the count of matching rows is reported.
pub open spec fn update_post(
    d0: DatabaseV,
    d1: DatabaseV,
    name: Seq<char>,
    sets: Seq<(Seq<char>, Seq<char>)>,
    cond: (Seq<char>, Seq<char>),
    r: Result<nat, SqlErrorV>,
) -> bool {
    match spec_find_table(d0, name) {
        None => d1 == d0 && r == Err::<nat, SqlErrorV>(SqlErrorV::TableNotFound(name)),
        Some(ti) => {
            let t = d0.tables[ti];
            if !sets_resolved(t.columns, sets) {
                d1 == d0 && exists|k: int|
                    {
                        &&& 0 <= k < sets.len()
                        &&& spec_find_col(t.columns, (#[trigger] sets[k]).0) is None
                        &&& forall|m: int| 0 <= m < k ==> spec_find_col(
                            t.columns,
                            (#[trigger] sets[m]).0,
                        ) is Some
                        &&& r == Err::<nat, SqlErrorV>(SqlErrorV::ColumnNotFound(sets[k].0))
                    }
            } else if spec_find_col(t.columns, cond.0) is None {
                d1 == d0 && r == Err::<nat, SqlErrorV>(SqlErrorV::ColumnNotFound(cond.0))
            } else {
                let wi = spec_find_col(t.columns, cond.0).unwrap();
                &&& d1.tables == d0.tables.update(
                    ti,
                    t.with_rows(
                        Seq::new(
                            t.rows.len(),
                            |j: int| if row_matches(t.rows[j], wi, cond.1) {
                                apply_sets(t.rows[j], t.columns, sets)
                            } else {
                                t.rows[j]
                            },
                        ),
                    ),
                )
                &&& r == Ok::<nat, SqlErrorV>(count_matched(t.rows, wi, cond.1))
            }
        },
    }
}

/// What DELETE does: with no condition the table is emptied and the prior
/// row count reported; with a condition, exactly the matching rows leave.
pub open spec fn delete_post(
    d0: DatabaseV,
    d1: DatabaseV,
    name: Seq<char>,
    cond: Option<(Seq<char>, Seq<char>)>,
    r: Result<nat, SqlErrorV>,
) -> bool {
    match spec_find_table(d0, name) {
        None => d1 == d0 && r == Err::<nat, SqlErrorV>(SqlErrorV::TableNotFound(name)),
        Some(ti) => {
            let t = d0.tables[ti];
            match cond {
                None => {
                    &&& d1.tables == d0.tables.update(ti, t.with_rows(Seq::empty()))
                    &&& r == Ok::<nat, SqlErrorV>(t.rows.len())
                },
                Some((c, v)) => match spec_find_col(t.columns, c) {
                    None => d1 == d0 && r == Err::<nat, SqlErrorV>(SqlErrorV::ColumnNotFound(c)),
                    Some(wi) => {
                        &&& d1.tables == d0.tables.update(
                            ti,
                            t.with_rows(remove_matched(t.rows, wi, v)),
                        )
                        &&& r == Ok::<nat, SqlErrorV>(count_matched(t.rows, wi, v))
                    },
                },
            }
        },
    }
}

/// The view of a mutation's result: a row count or an error.
pub open spec fn count_view(r: Result<usize, SqlError>) -> Result<nat, SqlErrorV> {
    match r {
        Ok(n) => Ok(n as nat),
        Err(e) => Err(e@),
    }
}

/// Inserts one validated row into the named table.
pub fn execute_insert(db: &mut Database, table: &String, literals: &Vec<String>) -> (r: Result<
    usize,
    SqlError,
>)
    requires
        old(db)@.wf(),
    ensures
        final(db)@.wf(),
        insert_post(old(db)@, final(db)@, table@, literals@.map_values(|s: String| s@), count_view(r)),
{
    let ghost d0 = db@;
    let ghost lits = literals@.map_values(|s: String| s@);
    let tname = chars_of(table.as_str());
    let ti = match db.table_position(&tname) {
        None => {
            return Err(SqlError::TableNotFound(table.clone()));
        },
        Some(ti) => ti,
    };
    let ghost t = d0.tables[ti as int];
    let ncols = db.tables[ti].columns.len();
    if literals.len() != ncols {
        return Err(SqlError::ColumnCountMismatch { expected: ncols, actual: literals.len() });
    }
    let mut values: Vec<Option<String>> = Vec::new();
    let mut k: usize = 0;
    while k < ncols
        invariant
            0 <= k <= ncols,
            db == old(db),
            d0 == db@,
            t == d0.tables[ti as int],
            spec_find_table(d0, table@) == Some(ti as int),
            ti < db.tables.len(),
            ncols == t.columns.len(),
            lits.len() == ncols,
            lits == literals@.map_values(|s: String| s@),
            values@.map_values(|ov: Option<String>| crate::store::opt_string_view(ov))
                == validated_row(t.columns, lits).take(k as int),
            forall|m: int| 0 <= m < k ==> spec_validate(
                (#[trigger] t.columns[m]).data_type,
                lits[m],
            ) is Ok,
        decreases ncols - k,
    {
        let ghost v0 = values@;
        proof {
            assert(t.columns[k as int] == db.tables@[ti as int].columns@.map_values(
                |c: Column| c@,
            )[k as int]);
            assert(lits[k as int] == literals@[k as int]@);
        }
        match validate(&db.tables[ti].columns[k].data_type, literals[k].as_str()) {
            Ok(s) => {
                values.push(Some(s));
                proof {
                    let f = |ov: Option<String>| crate::store::opt_string_view(ov);
                    assert(values@.map_values(f) =~= v0.map_values(f).push(Some(s@)));
                    assert(validated_row(t.columns, lits).take(k as int + 1) =~= validated_row(
                        t.columns,
                        lits,
                    ).take(k as int).push(validated_row(t.columns, lits)[k as int]));
                }
            },
            Err(e) => {
                return Err(SqlError::TypeValidation { error: e, literal: literals[k].clone() });
            },
        }
        k = k + 1;
    }
    let row = Row { values };
    proof {
        assert(row@ =~= validated_row(t.columns, lits).take(ncols as int));
        assert(validated_row(t.columns, lits).take(ncols as int) =~= validated_row(t.columns, lits));
    }
    db.tables[ti].rows.push(row);
    proof {
        assert(db@.tables[ti as int].rows =~= t.rows.push(validated_row(t.columns, lits)));
        assert(db@.tables =~= d0.tables.update(
            ti as int,
            t.with_rows(t.rows.push(validated_row(t.columns, lits))),
        ));
    }
    Ok(1)
}

/// Overwrites the assigned columns of every row matching the condition.
pub fn execute_update(
    db: &mut Database,
    table: &String,
    assignments: &Vec<(String, String)>,
    condition: &(String, String),
) -> (r: Result<usize, SqlError>)
    requires
        old(db)@.wf(),
    ensures
        final(db)@.wf(),
        update_post(
            old(db)@,
            final(db)@,
            table@,
            assignments@.map_values(|p: (String, String)| (p.0@, p.1@)),
            (condition.0@, condition.1@),
            count_view(r),
        ),
{
    let ghost d0 = db@;
    let ghost sets = assignments@.map_values(|p: (String, String)| (p.0@, p.1@));
    let tname = chars_of(table.as_str());
    let ti = match db.table_position(&tname) {
        None => {
            return Err(SqlError::TableNotFound(table.clone()));
        },
        Some(ti) => ti,
    };
    let ghost t = d0.tables[ti as int];
    // Resolve every SET column before any row is touched.
    let mut set_idx: Vec<usize> = Vec::new();
    let mut k: usize = 0;
    while k < assignments.len()
        invariant
            0 <= k <= assignments@.len(),
            db == old(db),
            d0 == db@,
            t == d0.tables[ti as int],
            ti < db.tables.len(),
            sets == assignments@.map_values(|p: (String, String)| (p.0@, p.1@)),
            set_idx@.len() == k,
            forall|m: int| 0 <= m < k ==> spec_find_col(t.columns, (#[trigger] sets[m]).0)
                == Some(set_idx@[m] as int),
            forall|m: int| 0 <= m < k ==> (#[trigger] set_idx@[m]) < t.columns.len(),
        decreases assignments@.len() - k,
    {
        proof {
            assert(sets[k as int] == (assignments@[k as int].0@, assignments@[k as int].1@));
        }
        match col_position(&db.tables[ti].columns, &assignments[k].0) {
            None => {
                return Err(SqlError::ColumnNotFound(assignments[k].0.clone()));
            },
            Some(ci) => {
                set_idx.push(ci);
            },
        }
        k = k + 1;
    }
    let wi = match col_position(&db.tables[ti].columns, &condition.0) {
        None => {
            return Err(SqlError::ColumnNotFound(condition.0.clone()));
        },
        Some(wi) => wi,
    };
    let ghost val = condition.1@;
    let ghost target = Seq::new(
        t.rows.len(),
        |j: int| if row_matches(t.rows[j], wi as int, val) {
            apply_sets(t.rows[j], t.columns, sets)
        } else {
            t.rows[j]
        },
    );
    let nrows = db.tables[ti].rows.len();
    let mut count: usize = 0;
    let mut j: usize = 0;
    while j < nrows
        invariant
            0 <= j <= nrows,
            ti < db@.tables.len(),
            db@.tables.len() == d0.tables.len(),
            forall|m: int| 0 <= m < d0.tables.len() && m != ti ==> db@.tables[m] == d0.tables[m],
            db@.tables[ti as int].name == t.name,
            db@.tables[ti as int].columns == t.columns,
            db@.tables[ti as int].rows.len() == t.rows.len(),
            nrows == t.rows.len(),
            forall|l: int| 0 <= l < j ==> db@.tables[ti as int].rows[l] == target[l],
            forall|l: int| j <= l < nrows ==> db@.tables[ti as int].rows[l] == t.rows[l],
            count == count_matched_from(t.rows, wi as int, val, 0) - count_matched_from(
                t.rows,
                wi as int,
                val,
                j as int,
            ),
            count_matched_from(t.rows, wi as int, val, j as int) <= count_matched_from(
                t.rows,
                wi as int,
                val,
                0,
            ),
            wi < t.columns.len(),
            spec_find_col(t.columns, condition.0@) == Some(wi as int),
            sets == assignments@.map_values(|p: (String, String)| (p.0@, p.1@)),
            set_idx@.len() == sets.len(),
            forall|m: int| 0 <= m < sets.len() ==> spec_find_col(t.columns, (#[trigger] sets[m]).0)
                == Some(set_idx@[m] as int),
            forall|m: int| 0 <= m < sets.len() ==> (#[trigger] set_idx@[m]) < t.columns.len(),
            t.wf(),
            val == condition.1@,
            target == Seq::new(
                t.rows.len(),
                |l: int| if row_matches(t.rows[l], wi as int, val) {
                    apply_sets(t.rows[l], t.columns, sets)
                } else {
                    t.rows[l]
                },
            ),
        decreases nrows - j,
    {
        proof {
            lemma_count_matched_from_bound(t.rows, wi as int, val, j as int);
        }
        let matched = match &db.tables[ti].rows[j].values[wi] {
            Some(v) => *v == condition.1,
            None => false,
        };
        proof {
            assert(db@.tables[ti as int].rows[j as int][wi as int] == crate::store::opt_string_view(
                db.tables@[ti as int].rows@[j as int].values@[wi as int],
            ));
            assert(matched == row_matches(t.rows[j as int], wi as int, val));
        }
        if matched {
            proof {
                assert(sets.skip(0) =~= sets);
                assert(db@.tables[ti as int].rows[j as int] == t.rows[j as int]);
            }
            let mut m: usize = 0;
            while m < set_idx.len()
                invariant
                    0 <= m <= set_idx@.len(),
                    ti < db@.tables.len(),
                    j < db@.tables[ti as int].rows.len(),
                    db@.tables.len() == d0.tables.len(),
                    forall|x: int| 0 <= x < d0.tables.len() && x != ti ==> db@.tables[x]
                        == d0.tables[x],
                    db@.tables[ti as int].name == t.name,
                    db@.tables[ti as int].columns == t.columns,
                    db@.tables[ti as int].rows.len() == t.rows.len(),
                    forall|l: int| 0 <= l < j ==> db@.tables[ti as int].rows[l] == target[l],
                    forall|l: int| j < l < t.rows.len() ==> db@.tables[ti as int].rows[l]
                        == t.rows[l],
                    db@.tables[ti as int].rows[j as int].len() == t.rows[j as int].len(),
                    set_idx@.len() == sets.len(),
                    forall|x: int| 0 <= x < sets.len() ==> spec_find_col(
                        t.columns,
                        (#[trigger] sets[x]).0,
                    ) == Some(set_idx@[x] as int),
                    forall|x: int| 0 <= x < sets.len() ==> (#[trigger] set_idx@[x])
                        < t.columns.len(),
                    t.wf(),
                    t.rows[j as int].len() == t.columns.len(),
                    sets == assignments@.map_values(|p: (String, String)| (p.0@, p.1@)),
                    apply_sets(t.rows[j as int], t.columns, sets) == apply_sets(
                        db@.tables[ti as int].rows[j as int],
                        t.columns,
                        sets.skip(m as int),
                    ),
                decreases set_idx@.len() - m,
            {
                let ghost rowm = db@.tables[ti as int].rows[j as int];
                let si = set_idx[m];
                let newval = assignments[m].1.clone();
                proof {
                    assert(sets[m as int].1 == assignments@[m as int].1@);
                }
                db.tables[ti].rows[j].values[si] = Some(newval);
                proof {
                    assert(db@.tables[ti as int].rows[j as int] =~= rowm.update(
                        si as int,
                        Some(sets[m as int].1),
                    ));
                    assert(sets.skip(m as int)[0] == sets[m as int]);
                    assert(sets.skip(m as int).skip(1) =~= sets.skip(m as int + 1));
                }
                m = m + 1;
            }
            proof {
                assert(sets.skip(set_idx@.len() as int) =~= Seq::<(Seq<char>, Seq<char>)>::empty());
                assert(db@.tables[ti as int].rows[j as int] == apply_sets(
                    t.rows[j as int],
                    t.columns,
                    sets,
                ));
                assert(db@.tables[ti as int].rows[j as int] == target[j as int]);
            }
            proof {
                lemma_count_matched_from_bound(t.rows, wi as int, val, 0);
                assert(count_matched_from(t.rows, wi as int, val, j as int) >= 1);
            }
            count = count + 1;
        }
        j = j + 1;
    }
    proof {
        assert(db@.tables[ti as int].rows =~= target);
        assert(db@.tables[ti as int] == t.with_rows(target));
        assert(db@.tables =~= d0.tables.update(ti as int, t.with_rows(target)));
        assert forall|l: int| 0 <= l < target.len() implies (#[trigger] target[l]).len()
            == t.columns.len() by {
            if row_matches(t.rows[l], wi as int, val) {
                lemma_apply_sets_len(t.rows[l], t.columns, sets);
            }
        }
        lemma_wf_after_rows_change(d0, db@, ti as int, target);
    }
    Ok(count)
}

/// Removes the matching rows, or all rows when no condition is given.
pub fn execute_delete(
    db: &mut Database,
    table: &String,
    condition: &Option<(String, String)>,
) -> (r: Result<usize, SqlError>)
    requires
        old(db)@.wf(),
    ensures
        final(db)@.wf(),
        delete_post(
            old(db)@,
            final(db)@,
            table@,
            match condition {
                Some(c) => Some((c.0@, c.1@)),
                None => None,
            },
            count_view(r),
        ),
{
    let ghost d0 = db@;
    let tname = chars_of(table.as_str());
    let ti = match db.table_position(&tname) {
        None => {
            return Err(SqlError::TableNotFound(table.clone()));
        },
        Some(ti) => ti,
    };
    let ghost t = d0.tables[ti as int];
    match condition {
        None => {
            let n = db.tables[ti].rows.len();
            db.tables[ti].rows.clear();
            proof {
                assert(db@.tables[ti as int].rows =~= Seq::<Seq<Option<Seq<char>>>>::empty());
                assert(db@.tables =~= d0.tables.update(
                    ti as int,
                    t.with_rows(Seq::empty()),
                ));
                lemma_wf_after_rows_change(d0, db@, ti as int, Seq::empty());
            }
            Ok(n)
        },
        Some(cond) => {
            let wi = match col_position(&db.tables[ti].columns, &cond.0) {
                None => {
                    return Err(SqlError::ColumnNotFound(cond.0.clone()));
                },
                Some(wi) => wi,
            };
            let ghost val = cond.1@;
            let ghost kept = remove_matched(t.rows, wi as int, val);
            proof {
                assert(db.tables@[ti as int].rows.len() <= usize::MAX);
                assert(t.rows.len() == db.tables@[ti as int].rows@.len());
            }
            let mut cur: usize = 0;
            let ghost jorig: int = 0;
            let mut count: usize = 0;
            while cur < db.tables[ti].rows.len()
                invariant
                    t.rows.len() <= usize::MAX,
                    ti < db@.tables.len(),
                    db@.tables.len() == d0.tables.len(),
                    forall|m: int| 0 <= m < d0.tables.len() && m != ti ==> db@.tables[m]
                        == d0.tables[m],
                    db@.tables[ti as int].name == t.name,
                    db@.tables[ti as int].columns == t.columns,
                    0 <= cur <= db@.tables[ti as int].rows.len(),
                    0 <= jorig <= t.rows.len(),
                    db@.tables[ti as int].rows.take(cur as int) + remove_matched_from(
                        t.rows,
                        wi as int,
                        val,
                        jorig,
                    ) == kept,
                    db@.tables[ti as int].rows.skip(cur as int) == t.rows.skip(jorig),
                    count == count_matched_from(t.rows, wi as int, val, 0) - count_matched_from(
                        t.rows,
                        wi as int,
                        val,
                        jorig,
                    ),
                    count_matched_from(t.rows, wi as int, val, jorig) <= count_matched_from(
                        t.rows,
                        wi as int,
                        val,
                        0,
                    ),
                    kept == remove_matched(t.rows, wi as int, val),
                    val == cond.1@,
                    t.wf(),
                    wi < t.columns.len(),
                    spec_find_col(t.columns, cond.0@) == Some(wi as int),
                decreases db@.tables[ti as int].rows.len() - cur,
            {
                let ghost rows_before = db@.tables[ti as int].rows;
                proof {
                    assert(rows_before.skip(cur as int)[0] == rows_before[cur as int]);
                    assert(t.rows.skip(jorig)[0] == t.rows[jorig]);
                    assert(rows_before[cur as int] == t.rows[jorig]);
                    assert(jorig < t.rows.len());
                    lemma_count_matched_from_bound(t.rows, wi as int, val, jorig);
                    lemma_count_matched_from_bound(t.rows, wi as int, val, 0);
                }
                let matched = match &db.tables[ti].rows[cur].values[wi] {
                    Some(v) => *v == cond.1,
                    None => false,
                };
                proof {
                    assert(rows_before[cur as int][wi as int] == crate::store::opt_string_view(
                        db.tables@[ti as int].rows@[cur as int].values@[wi as int],
                    ));
                    assert(matched == row_matches(t.rows[jorig], wi as int, val));
                }
                if matched {
                    proof {
                        assert(count_matched_from(t.rows, wi as int, val, jorig) >= 1);
                    }
                    let _removed = db.tables[ti].rows.remove(cur);
                    count = count + 1;
                    proof {
                        let rows_after = db@.tables[ti as int].rows;
                        assert(rows_after =~= rows_before.remove(cur as int));
                        assert(rows_after.take(cur as int) =~= rows_before.take(cur as int));
                        assert(rows_after.skip(cur as int) =~= rows_before.skip(cur as int + 1));
                        assert(rows_before.skip(cur as int).skip(1) =~= rows_before.skip(
                            cur as int + 1,
                        ));
                        assert(t.rows.skip(jorig).skip(1) =~= t.rows.skip(jorig + 1));
                        assert(rows_after.skip(cur as int) =~= t.rows.skip(jorig + 1));
                    }
                } else {
                    proof {
                        let rows_now = db@.tables[ti as int].rows;
                        assert(rows_now.take(cur as int + 1) =~= rows_now.take(cur as int).push(
                            rows_now[cur as int],
                        ));
                        assert(remove_matched_from(t.rows, wi as int, val, jorig) == seq![
                            t.rows[jorig],
                        ] + remove_matched_from(t.rows, wi as int, val, jorig + 1));
                        assert(rows_now.take(cur as int).push(rows_now[cur as int])
                            + remove_matched_from(t.rows, wi as int, val, jorig + 1) =~= rows_now.take(
                            cur as int,
                        ) + (seq![t.rows[jorig]] + remove_matched_from(
                            t.rows,
                            wi as int,
                            val,
                            jorig + 1,
                        )));
                        assert(rows_now.skip(cur as int).skip(1) =~= rows_now.skip(cur as int + 1));
                        assert(t.rows.skip(jorig).skip(1) =~= t.rows.skip(jorig + 1));
                        assert(rows_now.skip(cur as int + 1) =~= t.rows.skip(jorig + 1));
                    }
                    cur = cur + 1;
                }
                proof {
                    jorig = jorig + 1;
                }
            }
            proof {
                let rows_end = db@.tables[ti as int].rows;
                assert(rows_end.skip(cur as int) =~= Seq::<Seq<Option<Seq<char>>>>::empty());
                assert(t.rows.skip(jorig).len() == 0);
                assert(jorig == t.rows.len());
                assert(remove_matched_from(t.rows, wi as int, val, jorig) =~= Seq::<
                    Seq<Option<Seq<char>>>,
                >::empty());
                assert(rows_end.take(cur as int) =~= rows_end);
                assert(rows_end + Seq::<Seq<Option<Seq<char>>>>::empty() =~= rows_end);
                assert(rows_end == kept);
                assert(db@.tables[ti as int] == t.with_rows(kept));
                assert(db@.tables =~= d0.tables.update(ti as int, t.with_rows(kept)));
                lemma_remove_matched_widths(t.rows, wi as int, val, 0, t.columns.len());
                lemma_wf_after_rows_change(d0, db@, ti as int, kept);
            }
            Ok(count)
        },
    }
}

/// `n` space characters.
pub open spec fn spec_spaces(n: nat) -> Seq<char> {
    Seq::new(n, |i: int| ' ')
}

/// A cell padded with spaces to the rendering width; text at or over the
/// width is kept whole.
pub open spec fn spec_pad(s: Seq<char>) -> Seq<char> {
    if s.len() >= 20 {
        s
    } else {
        s + spec_spaces((20 - s.len()) as nat)
    }
}

/// One rendered value: the stored text, or `NULL` for an absent value.
pub open spec fn spec_cell(v: Option<Seq<char>>) -> Seq<char> {
    match v {
        Some(s) => spec_pad(s),
        None => spec_pad("NULL"@),
    }
}

/// One row line: the padded cells joined with column separators.
pub open spec fn spec_render_row(r: Seq<Option<Seq<char>>>) -> Seq<char> {
    concat_with(" | "@, r.map_values(|v: Option<Seq<char>>| spec_cell(v)))
}

/// One rendered table: a header of column names, a separator line of dashes
/// as long as the header, then one line per row.
pub open spec fn spec_render_table(t: TableV) -> Seq<char> {
    let header = concat_with(" | "@, t.columns.map_values(|c: ColumnV| spec_pad(c.name)));
    let sep = Seq::new(header.len(), |i: int| '-');
    let body = concat_with(
        Seq::empty(),
        t.rows.map_values(|r: Seq<Option<Seq<char>>>| spec_render_row(r) + seq!['\n']),
    );
    header + seq!['\n'] + sep + seq!['\n'] + body
}

/// The heading placed above each table of a multi-table SELECT.
pub open spec fn spec_heading(name: Seq<char>) -> Seq<char> {
    "Table "@ + name + ":\n"@
}

/// What a multi-table SELECT renders: each table under its heading, in
/// order; the first missing table aborts the whole statement.
pub open spec fn spec_select_many(dbv: DatabaseV, names: Seq<Seq<char>>) -> Result<
    Seq<char>,
    SqlErrorV,
>
    decreases names.len(),
{
    if names.len() == 0 {
        Ok(Seq::empty())
    } else {
        match spec_find_table(dbv, names[0]) {
            None => Err(SqlErrorV::TableNotFound(names[0])),
            Some(i) => match spec_select_many(dbv, names.skip(1)) {
                Err(e) => Err(e),
                Ok(rest) => Ok(spec_heading(names[0]) + spec_render_table(dbv.tables[i]) + rest),
            },
        }
    }
}

/// What SELECT renders: a lone table without a heading, several tables each
/// under a heading.  A read never mutates the store.
pub open spec fn spec_select(dbv: DatabaseV, names: Seq<Seq<char>>) -> Result<Seq<char>, SqlErrorV> {
    if names.len() == 1 {
        match spec_find_table(dbv, names[0]) {
            None => Err(SqlErrorV::TableNotFound(names[0])),
            Some(i) => Ok(spec_render_table(dbv.tables[i])),
        }
    } else {
        spec_select_many(dbv, names)
    }
}

/// Appends `cell` padded to the rendering width.
fn append_padded(out: &mut Vec<char>, cell: &Vec<char>)
    ensures
        final(out)@ == old(out)@ + spec_pad(cell@),
{
    let ghost mid = old(out)@ + cell@;
    append_chars(out, cell);
    let mut i: usize = cell.len();
    while i < 20
        invariant
            cell@.len() <= i <= 20 || (cell@.len() >= 20 && i == cell@.len()),
            out@ == mid + spec_spaces((i - cell@.len()) as nat),
        decreases 20 - i,
    {
        out.push(' ');
        i = i + 1;
        proof {
            assert(out@ =~= mid + spec_spaces((i - cell@.len()) as nat));
        }
    }
    proof {
        assert(out@ =~= old(out)@ + spec_pad(cell@));
    }
}

/// Renders one table: header, separator, and one line per row.
fn render_table(t: &Table) -> (out: Vec<char>)
    ensures
        out@ == spec_render_table(t@),
{
    let ghost hcells = t@.columns.map_values(|c: ColumnV| spec_pad(c.name));
    let bar = chars_of(" | ");
    let mut header: Vec<char> = Vec::new();
    let mut k: usize = 0;
    while k < t.columns.len()
        invariant
            0 <= k <= t@.columns.len(),
            hcells == t@.columns.map_values(|c: ColumnV| spec_pad(c.name)),
            t@.columns.len() == t.columns@.len(),
            bar@ == " | "@,
            header@ == concat_with(" | "@, hcells.take(k as int)),
        decreases t@.columns.len() - k,
    {
        let ghost h0 = header@;
        if k > 0 {
            append_chars(&mut header, &bar);
        }
        let name_chars = chars_of(t.columns[k].name.as_str());
        append_padded(&mut header, &name_chars);
        proof {
            assert(hcells[k as int] == spec_pad(t@.columns[k as int].name));
            assert(t@.columns[k as int].name == t.columns@[k as int].name@);
            lemma_concat_with_push(" | "@, hcells.take(k as int), hcells[k as int]);
            assert(hcells.take(k as int + 1) =~= hcells.take(k as int).push(hcells[k as int]));
            if k > 0 {
                assert(header@ =~= concat_with(" | "@, hcells.take(k as int)) + " | "@
                    + hcells[k as int]);
            } else {
                assert(header@ =~= hcells[k as int]);
            }
        }
        k = k + 1;
    }
    proof {
        assert(hcells.take(k as int) =~= hcells);
    }
    let ghost headerv = header@;
    let mut out = header;
    out.push('\n');
    let ghost n = headerv.len();
    let hlen = out.len() - 1;
    let mut i: usize = 0;
    while i < hlen
        invariant
            0 <= i <= hlen,
            hlen == n,
            out@ == headerv + seq!['\n'] + Seq::new(i as nat, |x: int| '-'),
        decreases hlen - i,
    {
        out.push('-');
        i = i + 1;
        proof {
            assert(out@ =~= headerv + seq!['\n'] + Seq::new(i as nat, |x: int| '-'));
        }
    }
    out.push('\n');
    let ghost head_all = headerv + seq!['\n'] + Seq::new(n, |x: int| '-') + seq!['\n'];
    proof {
        assert(out@ =~= head_all);
    }
    let ghost lines = t@.rows.map_values(|r: Seq<Option<Seq<char>>>| spec_render_row(r) + seq![
        '\n',
    ]);
    let null_chars = chars_of("NULL");
    let mut j: usize = 0;
    while j < t.rows.len()
        invariant
            0 <= j <= t@.rows.len(),
            t@.rows.len() == t.rows@.len(),
            bar@ == " | "@,
            null_chars@ == "NULL"@,
            lines == t@.rows.map_values(
                |r: Seq<Option<Seq<char>>>| spec_render_row(r) + seq!['\n'],
            ),
            out@ == head_all + concat_with(Seq::empty(), lines.take(j as int)),
        decreases t@.rows.len() - j,
    {
        let ghost out0 = out@;
        let ghost rowv = t@.rows[j as int];
        let ghost cells = rowv.map_values(|v: Option<Seq<char>>| spec_cell(v));
        let nvals = t.rows[j].values.len();
        proof {
            assert(rowv == t.rows@[j as int]@);
            assert(cells.len() == nvals);
        }
        let mut c: usize = 0;
        while c < nvals
            invariant
                0 <= c <= nvals,
                j < t.rows@.len(),
                nvals == t.rows@[j as int].values@.len(),
                rowv == t.rows@[j as int]@,
                cells == rowv.map_values(|v: Option<Seq<char>>| spec_cell(v)),
                cells.len() == nvals,
                bar@ == " | "@,
                null_chars@ == "NULL"@,
                out@ == out0 + concat_with(" | "@, cells.take(c as int)),
            decreases nvals - c,
        {
            if c > 0 {
                append_chars(&mut out, &bar);
            }
            proof {
                assert(rowv[c as int] == crate::store::opt_string_view(
                    t.rows@[j as int].values@[c as int],
                ));
                assert(cells[c as int] == spec_cell(rowv[c as int]));
            }
            match &t.rows[j].values[c] {
                Some(s) => {
                    let sc = chars_of(s.as_str());
                    append_padded(&mut out, &sc);
                },
                None => {
                    append_padded(&mut out, &null_chars);
                },
            }
            proof {
                lemma_concat_with_push(" | "@, cells.take(c as int), cells[c as int]);
                assert(cells.take(c as int + 1) =~= cells.take(c as int).push(cells[c as int]));
                if c > 0 {
                    assert(out@ =~= out0 + (concat_with(" | "@, cells.take(c as int)) + " | "@
                        + cells[c as int]));
                } else {
                    assert(out@ =~= out0 + cells[c as int]);
                }
            }
            c = c + 1;
        }
        out.push('\n');
        proof {
            assert(cells.take(c as int) =~= cells);
            assert(lines[j as int] == spec_render_row(rowv) + seq!['\n']);
            assert(out@ =~= out0 + lines[j as int]);
            lemma_concat_with_push(Seq::empty(), lines.take(j as int), lines[j as int]);
            assert(lines.take(j as int + 1) =~= lines.take(j as int).push(lines[j as int]));
            if j > 0 || lines.take(j as int).len() == 0 {
                if lines.take(j as int).len() == 0 {
                    assert(out@ =~= head_all + concat_with(Seq::empty(), lines.take(j as int + 1)));
                } else {
                    assert(concat_with(Seq::empty(), lines.take(j as int + 1)) =~= concat_with(
                        Seq::empty(),
                        lines.take(j as int),
                    ) + lines[j as int]);
                    assert(out@ =~= head_all + concat_with(Seq::empty(), lines.take(j as int + 1)));
                }
            }
        }
        j = j + 1;
    }
    proof {
        assert(lines.take(j as int) =~= lines);
        assert(out@ =~= spec_render_table(t@));
    }
    out
}

/// Renders the named tables, in order; a read never mutates the store.
pub fn execute_select(db: &Database, tables: &Vec<String>) -> (r: Result<String, SqlError>)
    ensures
        match r {
            Ok(s) => spec_select(db@, tables@.map_values(|x: String| x@)) == Ok::<
                Seq<char>,
                SqlErrorV,
            >(s@),
            Err(e) => spec_select(db@, tables@.map_values(|x: String| x@)) == Err::<
                Seq<char>,
                SqlErrorV,
            >(e@),
        },
{
    let ghost names = tables@.map_values(|x: String| x@);
    if tables.len() == 1 {
        let tname = chars_of(tables[0].as_str());
        proof {
            assert(names[0] == tables@[0]@);
        }
        match db.table_position(&tname) {
            None => Err(SqlError::TableNotFound(tables[0].clone())),
            Some(i) => {
                proof {
                    assert(db@.tables[i as int] == db.tables@[i as int]@);
                }
                let text = render_table(&db.tables[i]);
                Ok(string_from_chars(&text))
            },
        }
    } else {
        let mut out: Vec<char> = Vec::new();
        let heading_kw = chars_of("Table ");
        let colon_kw = chars_of(":\n");
        proof {
            assert(names.skip(0) =~= names);
            if spec_select_many(db@, names) is Ok {
                assert(out@ + spec_select_many(db@, names)->Ok_0 =~= spec_select_many(
                    db@,
                    names,
                )->Ok_0);
            }
        }
        let mut i: usize = 0;
        while i < tables.len()
            invariant
                0 <= i <= tables@.len(),
                names == tables@.map_values(|x: String| x@),
                heading_kw@ == "Table "@,
                colon_kw@ == ":\n"@,
                spec_select_many(db@, names) == match spec_select_many(db@, names.skip(i as int)) {
                    Ok(rest) => Ok::<Seq<char>, SqlErrorV>(out@ + rest),
                    Err(e) => Err::<Seq<char>, SqlErrorV>(e),
                },
            decreases tables@.len() - i,
        {
            let ghost out0 = out@;
            proof {
                assert(names.skip(i as int)[0] == names[i as int]);
                assert(names[i as int] == tables@[i as int]@);
                assert(names.skip(i as int).skip(1) =~= names.skip(i as int + 1));
            }
            let tname = chars_of(tables[i].as_str());
            match db.table_position(&tname) {
                None => {
                    return Err(SqlError::TableNotFound(tables[i].clone()));
                },
                Some(ti) => {
                    proof {
                        assert(db@.tables[ti as int] == db.tables@[ti as int]@);
                    }
                    append_chars(&mut out, &heading_kw);
                    append_chars(&mut out, &tname);
                    append_chars(&mut out, &colon_kw);
                    let text = render_table(&db.tables[ti]);
                    append_chars(&mut out, &text);
                    proof {
                        assert(out@ =~= out0 + (spec_heading(names[i as int]) + spec_render_table(
                            db@.tables[ti as int],
                        )));
                        if spec_select_many(db@, names.skip(i as int + 1)) is Ok {
                            let rest = spec_select_many(db@, names.skip(i as int + 1))->Ok_0;
                            assert(out0 + ((spec_heading(names[i as int]) + spec_render_table(
                                db@.tables[ti as int],
                            )) + rest) =~= out@ + rest);
                        }
                    }
                },
            }
            i = i + 1;
        }
        proof {
            assert(names.skip(i as int) =~= Seq::<Seq<char>>::empty());
            assert(out@ + Seq::<char>::empty() =~= out@);
        }
        Ok(string_from_chars(&out))
    }
}

impl Database {
    /// Parses and executes one raw command against this store: rendered
    /// tabular text for a read, a status line for a mutation, or an error.
    /// On every error the store is exactly what it was.
    pub fn execute_sql_query(&mut self, query: &str) -> (r: Result<String, SqlError>)
        requires
            old(self)@.wf(),
        ensures
            final(self)@.wf(),
            match spec_parse(query@) {
                Err(e) => final(self)@ == old(self)@ && (r matches Err(er) && er@ == e),
                Ok(st) => match st {
                    StatementV::Unsupported => final(self)@ == old(self)@ && (r matches Err(er)
                        && er@ == SqlErrorV::UnsupportedCommand),
                    StatementV::SelectJoin => final(self)@ == old(self)@ && (r matches Err(er)
                        && er@ == SqlErrorV::NotImplemented),
                    StatementV::Select { tables } => final(self)@ == old(self)@ && (match r {
                        Ok(s) => spec_select(old(self)@, tables) == Ok::<Seq<char>, SqlErrorV>(s@),
                        Err(e) => spec_select(old(self)@, tables) == Err::<Seq<char>, SqlErrorV>(
                            e@,
                        ),
                    }),
                    StatementV::Insert { table, literals } => match r {
                        Ok(s) => s@ == "1 row inserted"@ && insert_post(
                            old(self)@,
                            final(self)@,
                            table,
                            literals,
                            Ok(1),
                        ),
                        Err(e) => insert_post(old(self)@, final(self)@, table, literals, Err(e@)),
                    },
                    StatementV::Update { table, assignments, condition } => match r {
                        Ok(s) => exists|n: nat|
                            update_post(old(self)@, final(self)@, table, assignments, condition, Ok(n))
                                && s@ == spec_digits(n) + " rows updated"@,
                        Err(e) => update_post(
                            old(self)@,
                            final(self)@,
                            table,
                            assignments,
                            condition,
                            Err(e@),
                        ),
                    },
                    StatementV::Delete { table, condition } => match r {
                        Ok(s) => exists|n: nat|
                            delete_post(old(self)@, final(self)@, table, condition, Ok(n)) && s@
                                == spec_digits(n) + " rows deleted"@,
                        Err(e) => delete_post(old(self)@, final(self)@, table, condition, Err(e@)),
                    },
                },
            },
    {
        let stmt = match parse(query) {
            Ok(st) => st,
            Err(e) => {
                return Err(e);
            },
        };
        match stmt {
            Statement::Unsupported => Err(SqlError::UnsupportedCommand),
            Statement::SelectJoin => Err(SqlError::NotImplemented),
            Statement::Select { tables } => execute_select(self, &tables),
            Statement::Insert { table, literals } => match execute_insert(self, &table, &literals) {
                Ok(_n) => Ok(String::from_str("1 row inserted")),
                Err(e) => Err(e),
            },
            Statement::Update { table, assignments, condition } => match execute_update(
                self,
                &table,
                &assignments,
                &condition,
            ) {
                Ok(n) => Ok(usize_to_string(n).concat(" rows updated")),
                Err(e) => Err(e),
            },
            Statement::Delete { table, condition } => match execute_delete(
                self,
                &table,
                &condition,
            ) {
                Ok(n) => Ok(usize_to_string(n).concat(" rows deleted")),
                Err(e) => Err(e),
            },
        }
    }
}

} // verus!
