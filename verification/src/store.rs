//! The relational store: named tables of typed columns and textual rows.
//!
//! Table names are matched under one uniform collation, the case-insensitive
//! comparison `seq_eq_ci`; duplicate table names are rejected on creation.
//! Every row of a table holds exactly one optional value per column; an
//! absent value represents NULL.

use vstd::prelude::*;

use crate::errors::{SqlError, SqlErrorV};
use crate::schema::DataType;
use crate::text::{chars_of, norm, seq_eq_ci};

verus! {

/// One column: a name (unique within its table by convention, not enforced),
/// a declared type, and an advisory primary-key flag.
#[derive(Debug, Clone)]
pub struct Column {
    pub name: String,
    pub data_type: DataType,
    pub is_primary_key: bool,
}

/// One row: optional text values, positionally aligned with the owning
/// table's columns.  An absent value represents NULL.
#[derive(Debug)]
pub struct Row {
    pub values: Vec<Option<String>>,
}

/// One table: a name, an ordered column sequence (which defines row-value
/// order), and rows in insertion order.
#[derive(Debug)]
pub struct Table {
    pub name: String,
    pub columns: Vec<Column>,
    pub rows: Vec<Row>,
}

/// The store: a sequence of tables with pairwise distinct names under the
/// case-insensitive collation.
#[derive(Debug)]
pub struct Database {
    pub tables: Vec<Table>,
}

/// The mathematical value of a column.
pub ghost struct ColumnV {
    pub name: Seq<char>,
    pub data_type: DataType,
    pub is_primary_key: bool,
}

/// The mathematical value of a table.
pub ghost struct TableV {
    pub name: Seq<char>,
    pub columns: Seq<ColumnV>,
    pub rows: Seq<Seq<Option<Seq<char>>>>,
}

/// The mathematical value of the store.
pub ghost struct DatabaseV {
    pub tables: Seq<TableV>,
}

pub open spec fn opt_string_view(ov: Option<String>) -> Option<Seq<char>> {
    match ov {
        Some(s) => Some(s@),
        None => None,
    }
}

impl View for Column {
    type V = ColumnV;

    open spec fn view(&self) -> ColumnV {
        ColumnV { name: self.name@, data_type: self.data_type, is_primary_key: self.is_primary_key }
    }
}

impl View for Row {
    type V = Seq<Option<Seq<char>>>;

    open spec fn view(&self) -> Self::V {
        self.values@.map_values(|ov: Option<String>| opt_string_view(ov))
    }
}

impl View for Table {
    type V = TableV;

    open spec fn view(&self) -> TableV {
        TableV {
            name: self.name@,
            columns: self.columns@.map_values(|c: Column| c@),
            rows: self.rows@.map_values(|r: Row| r@),
        }
    }
}

impl View for Database {
    type V = DatabaseV;

    open spec fn view(&self) -> DatabaseV {
        DatabaseV { tables: self.tables@.map_values(|t: Table| t@) }
    }
}

impl TableV {
    /// Every row holds exactly one value per column.
    pub open spec fn wf(self) -> bool {
        forall|i: int| 0 <= i < self.rows.len() ==> (#[trigger] self.rows[i]).len() == self.columns.len()
    }

    /// The same table with its rows replaced.
    pub open spec fn with_rows(self, rows: Seq<Seq<Option<Seq<char>>>>) -> TableV {
        TableV { name: self.name, columns: self.columns, rows }
    }
}

impl DatabaseV {
    /// Every table is well-formed and table names are pairwise distinct
    /// under the case-insensitive collation.
    pub open spec fn wf(self) -> bool {
        &&& forall|i: int| 0 <= i < self.tables.len() ==> (#[trigger] self.tables[i]).wf()
        &&& forall|i: int, j: int|
            0 <= i < j < self.tables.len() ==> !seq_eq_ci(
                self.tables[i].name,
                self.tables[j].name,
            )
    }
}

/// The first index at or after `i` whose table name matches `name` under the
/// case-insensitive collation.
pub open spec fn find_table_from(tables: Seq<TableV>, name: Seq<char>, i: int) -> Option<int>
    decreases tables.len() - i,
{
    if i < 0 || i >= tables.len() {
        None
    } else if seq_eq_ci(tables[i].name, name) {
        Some(i)
    } else {
        find_table_from(tables, name, i + 1)
    }
}

/// The index of the table named `name`, if any.
pub open spec fn spec_find_table(dbv: DatabaseV, name: Seq<char>) -> Option<int> {
    find_table_from(dbv.tables, name, 0)
}

/// What `find_table_from` returns: the first match at or after `i`, or
/// nothing when no table from `i` on matches.
pub proof fn lemma_find_table_from(tables: Seq<TableV>, name: Seq<char>, i: int)
    requires
        0 <= i <= tables.len(),
    ensures
        match find_table_from(tables, name, i) {
            None => forall|j: int| i <= j < tables.len() ==> !seq_eq_ci(
                (#[trigger] tables[j]).name,
                name,
            ),
            Some(k) => i <= k < tables.len() && seq_eq_ci(tables[k].name, name) && forall|j: int|
                i <= j < k ==> !seq_eq_ci((#[trigger] tables[j]).name, name),
        },
    decreases tables.len() - i,
{
    if i < tables.len() && !seq_eq_ci(tables[i].name, name) {
        lemma_find_table_from(tables, name, i + 1);
    }
}

/// Exact equality of two character vectors.
pub fn eq_chars(a: &Vec<char>, b: &Vec<char>) -> (r: bool)
    ensures
        r == (a@ == b@),
{
    if a.len() != b.len() {
        return false;
    }
    let mut i: usize = 0;
    while i < a.len()
        invariant
            0 <= i <= a@.len(),
            a@.len() == b@.len(),
            forall|j: int| 0 <= j < i ==> a@[j] == b@[j],
        decreases a@.len() - i,
    {
        if a[i] != b[i] {
            return false;
        }
        i = i + 1;
    }
    proof {
        assert(a@ =~= b@);
    }
    true
}

/// What a column built from form input is: a nonempty name, one of the four
/// type names (`Int`, `Bool`, `Char`, `String`, matched exactly), and, for
/// the character types, a declared length.  The primary-key flag is off.
pub open spec fn spec_column_from_input(
    name: Seq<char>,
    kind: Seq<char>,
    length: Seq<char>,
) -> Option<ColumnV> {
    if name.len() == 0 {
        None
    } else if kind == "Int"@ {
        Some(ColumnV { name, data_type: DataType::Int, is_primary_key: false })
    } else if kind == "Bool"@ {
        Some(ColumnV { name, data_type: DataType::Bool, is_primary_key: false })
    } else if kind == "Char"@ {
        match crate::schema::spec_parse_u32(length) {
            Some(n) => Some(
                ColumnV { name, data_type: DataType::Char(n as u32), is_primary_key: false },
            ),
            None => None,
        }
    } else if kind == "String"@ {
        match crate::schema::spec_parse_u32(length) {
            Some(n) => Some(
                ColumnV { name, data_type: DataType::String(n as u32), is_primary_key: false },
            ),
            None => None,
        }
    } else {
        None
    }
}

/// Builds one column from the text fields of a column form: the name, the
/// type's name, and the declared length for the character types.
pub fn column_from_input(name: &str, kind: &str, length: &str) -> (r: Option<Column>)
    ensures
        match r {
            Some(c) => spec_column_from_input(name@, kind@, length@) == Some(c@),
            None => spec_column_from_input(name@, kind@, length@) is None,
        },
{
    let name_chars = chars_of(name);
    if name_chars.len() == 0 {
        return None;
    }
    let tn = chars_of(kind);
    let data_type = if eq_chars(&tn, &chars_of("Int")) {
        DataType::Int
    } else if eq_chars(&tn, &chars_of("Bool")) {
        DataType::Bool
    } else if eq_chars(&tn, &chars_of("Char")) {
        match crate::schema::parse_u32(&chars_of(length)) {
            Some(n) => DataType::Char(n),
            None => {
                return None;
            },
        }
    } else if eq_chars(&tn, &chars_of("String")) {
        match crate::schema::parse_u32(&chars_of(length)) {
            Some(n) => DataType::String(n),
            None => {
                return None;
            },
        }
    } else {
        return None;
    };
    Some(Column { name: name.to_owned(), data_type, is_primary_key: false })
}

/// Case-insensitive equality of two character vectors.
pub fn eq_ci(a: &Vec<char>, b: &Vec<char>) -> (r: bool)
    ensures
        r == seq_eq_ci(a@, b@),
{
    if a.len() != b.len() {
        return false;
    }
    let mut i: usize = 0;
    while i < a.len()
        invariant
            0 <= i <= a@.len(),
            a@.len() == b@.len(),
            forall|j: int| 0 <= j < i ==> crate::text::spec_norm(a@[j]) == crate::text::spec_norm(b@[j]),
        decreases a@.len() - i,
    {
        if norm(a[i]) != norm(b[i]) {
            return false;
        }
        i = i + 1;
    }
    true
}

impl Database {
    /// A fresh store with no tables.  The name is accepted for interface
    /// compatibility and not recorded.
    pub fn new(_name: &str) -> (r: Database)
        ensures
            r@.tables.len() == 0,
            r@.wf(),
    {
        let r = Database { tables: Vec::new() };
        proof {
            assert(r@.tables =~= Seq::<TableV>::empty());
        }
        r
    }

    /// The position of the table named `name`, under the case-insensitive
    /// collation.
    pub fn table_position(&self, name: &Vec<char>) -> (r: Option<usize>)
        ensures
            match r {
                None => spec_find_table(self@, name@) is None,
                Some(i) => i < self@.tables.len() && spec_find_table(self@, name@) == Some(
                    i as int,
                ) && seq_eq_ci(self@.tables[i as int].name, name@),
            },
    {
        let mut i: usize = 0;
        while i < self.tables.len()
            invariant
                0 <= i <= self@.tables.len(),
                forall|j: int| 0 <= j < i ==> !seq_eq_ci((#[trigger] self@.tables[j]).name, name@),
            decreases self@.tables.len() - i,
        {
            let tname = chars_of(self.tables[i].name.as_str());
            if eq_ci(&tname, name) {
                proof {
                    lemma_find_table_from(self@.tables, name@, 0);
                    assert(seq_eq_ci(self@.tables[i as int].name, name@));
                    let fo = find_table_from(self@.tables, name@, 0);
                    assert(fo is Some);
                    let k = fo.unwrap();
                    if k < i {
                        assert(!seq_eq_ci(self@.tables[k].name, name@));
                    }
                    assert(k == i);
                }
                return Some(i);
            }
            i = i + 1;
        }
        proof {
            lemma_find_table_from(self@.tables, name@, 0);
        }
        None
    }

    /// Appends the table if no table of that name exists yet; rejects a
    /// duplicate name with `TableAlreadyExists`.
    pub fn create_table(&mut self, table: Table) -> (r: Result<(), SqlError>)
        requires
            old(self)@.wf(),
            table@.wf(),
        ensures
            final(self)@.wf(),
            match spec_find_table(old(self)@, table@.name) {
                Some(_) => final(self)@ == old(self)@ && (r matches Err(e) && e@
                    == SqlErrorV::TableAlreadyExists(table@.name)),
                None => r is Ok && final(self)@.tables == old(self)@.tables.push(table@),
            },
    {
        let tname = chars_of(table.name.as_str());
        match self.table_position(&tname) {
            Some(_) => Err(SqlError::TableAlreadyExists(table.name)),
            None => {
                proof {
                    lemma_find_table_from(self@.tables, table@.name, 0);
                }
                let ghost t0 = self@.tables;
                let ghost tv = table@;
                self.tables.push(table);
                proof {
                    assert(self@.tables =~= t0.push(tv));
                    assert forall|i: int, j: int|
                        0 <= i < j < self@.tables.len() implies !seq_eq_ci(
                        self@.tables[i].name,
                        self@.tables[j].name,
                    ) by {
                        if j < t0.len() {
                        } else {
                            assert(!seq_eq_ci(t0[i].name, tv.name));
                        }
                    }
                }
                Ok(())
            },
        }
    }

    /// Appends `row` to the table named `table_name`; no effect when no such
    /// table exists.
    pub fn insert_row(&mut self, table_name: &str, row: Row)
        requires
            old(self)@.wf(),
            match spec_find_table(old(self)@, table_name@) {
                Some(i) => row@.len() == old(self)@.tables[i].columns.len(),
                None => true,
            },
        ensures
            final(self)@.wf(),
            match spec_find_table(old(self)@, table_name@) {
                None => final(self)@ == old(self)@,
                Some(i) => final(self)@.tables == old(self)@.tables.update(
                    i,
                    old(self)@.tables[i].with_rows(old(self)@.tables[i].rows.push(row@)),
                ),
            },
    {
        let tname = chars_of(table_name);
        match self.table_position(&tname) {
            None => {},
            Some(i) => {
                let ghost d0 = self@;
                let ghost rv = row@;
                self.tables[i].rows.push(row);
                proof {
                    assert(self@.tables[i as int].rows =~= d0.tables[i as int].rows.push(rv));
                    assert(self@.tables =~= d0.tables.update(
                        i as int,
                        d0.tables[i as int].with_rows(d0.tables[i as int].rows.push(rv)),
                    ));
                }
            },
        }
    }

    /// The rows of the table named `table_name`, if it exists.
    pub fn read_rows(&self, table_name: &str) -> (r: Option<&Vec<Row>>)
        ensures
            match r {
                None => spec_find_table(self@, table_name@) is None,
                Some(rows) => {
                    &&& spec_find_table(self@, table_name@) matches Some(i)
                    &&& rows@.map_values(|x: Row| x@) == self@.tables[
                        spec_find_table(self@, table_name@).unwrap()
                    ].rows
                },
            },
    {
        let tname = chars_of(table_name);
        match self.table_position(&tname) {
            None => None,
            Some(i) => Some(&self.tables[i].rows),
        }
    }

    /// Overwrites the row at `row_index` in the named table; no effect when
    /// the table is missing or the index is out of range.
    pub fn update_row(&mut self, table_name: &str, row_index: usize, new_row: Row)
        requires
            old(self)@.wf(),
            match spec_find_table(old(self)@, table_name@) {
                Some(i) => new_row@.len() == old(self)@.tables[i].columns.len(),
                None => true,
            },
        ensures
            final(self)@.wf(),
            match spec_find_table(old(self)@, table_name@) {
                None => final(self)@ == old(self)@,
                Some(i) => if row_index < old(self)@.tables[i].rows.len() {
                    final(self)@.tables == old(self)@.tables.update(
                        i,
                        old(self)@.tables[i].with_rows(
                            old(self)@.tables[i].rows.update(row_index as int, new_row@),
                        ),
                    )
                } else {
                    final(self)@ == old(self)@
                },
            },
    {
        let tname = chars_of(table_name);
        match self.table_position(&tname) {
            None => {},
            Some(i) => {
                if row_index < self.tables[i].rows.len() {
                    let ghost d0 = self@;
                    let ghost rv = new_row@;
                    self.tables[i].rows[row_index] = new_row;
                    proof {
                        assert(self@.tables[i as int].rows =~= d0.tables[i as int].rows.update(
                            row_index as int,
                            rv,
                        ));
                        assert(self@.tables =~= d0.tables.update(
                            i as int,
                            d0.tables[i as int].with_rows(
                                d0.tables[i as int].rows.update(row_index as int, rv),
                            ),
                        ));
                    }
                }
            },
        }
    }

    /// Removes the row at `row_index` in the named table; no effect when the
    /// table is missing or the index is out of range.
    pub fn delete_row(&mut self, table_name: &str, row_index: usize)
        requires
            old(self)@.wf(),
        ensures
            final(self)@.wf(),
            match spec_find_table(old(self)@, table_name@) {
                None => final(self)@ == old(self)@,
                Some(i) => if row_index < old(self)@.tables[i].rows.len() {
                    final(self)@.tables == old(self)@.tables.update(
                        i,
                        old(self)@.tables[i].with_rows(
                            old(self)@.tables[i].rows.remove(row_index as int),
                        ),
                    )
                } else {
                    final(self)@ == old(self)@
                },
            },
    {
        let tname = chars_of(table_name);
        match self.table_position(&tname) {
            None => {},
            Some(i) => {
                if row_index < self.tables[i].rows.len() {
                    let ghost d0 = self@;
                    let _removed = self.tables[i].rows.remove(row_index);
                    proof {
                        assert(self@.tables[i as int].rows =~= d0.tables[i as int].rows.remove(
                            row_index as int,
                        ));
                        assert(self@.tables =~= d0.tables.update(
                            i as int,
                            d0.tables[i as int].with_rows(
                                d0.tables[i as int].rows.remove(row_index as int),
                            ),
                        ));
                    }
                }
            },
        }
    }
}

} // verus!
