//! The persistence codec: the whole store serialized to a canonical text
//! document that mirrors the Database/Table/Column/Row model, and read back.
//!
//! Every number is written as decimal digits terminated by `;`; every string
//! as its length followed by its characters, so no escaping is needed.
//! Decoding an encoded store yields the store again (`lemma_decode_encode`).
//! The document's SHA-256 digest is stored alongside it as an advisory
//! tamper signal: on reload the digest of the re-encoded store is compared
//! to the stored one, and a mismatch only clears the `secure` flag, it never
//! blocks loading.

use vstd::prelude::*;

use sha2::{Digest, Sha256};

use crate::digits::{digit_val, digit_val_exec, is_digit, is_digit_exec, lemma_val_of_digits,
    push_digits, spec_digits};
use crate::schema::DataType;
use crate::store::{eq_ci, opt_string_view, Column, ColumnV, Database, DatabaseV, Row, Table,
    TableV};
use crate::text::{append_chars, chars_of, seq_eq_ci, string_from_chars, subvec};

verus! {

pub open spec fn spec_enc_nat(n: nat) -> Seq<char> {
    spec_digits(n) + seq![';']
}

pub open spec fn spec_enc_str(s: Seq<char>) -> Seq<char> {
    spec_enc_nat(s.len()) + s
}

pub open spec fn spec_enc_bool(b: bool) -> Seq<char> {
    if b {
        seq!['T']
    } else {
        seq!['F']
    }
}

pub open spec fn spec_enc_dt(dt: DataType) -> Seq<char> {
    match dt {
        DataType::Int => seq!['I'],
        DataType::Bool => seq!['B'],
        DataType::Char(n) => seq!['C'] + spec_enc_nat(n as nat),
        DataType::String(n) => seq!['S'] + spec_enc_nat(n as nat),
    }
}

pub open spec fn spec_enc_col(c: ColumnV) -> Seq<char> {
    spec_enc_str(c.name) + spec_enc_dt(c.data_type) + spec_enc_bool(c.is_primary_key)
}

pub open spec fn spec_enc_val(v: Option<Seq<char>>) -> Seq<char> {
    match v {
        None => seq!['N'],
        Some(s) => seq!['V'] + spec_enc_str(s),
    }
}

pub open spec fn spec_enc_vals(vs: Seq<Option<Seq<char>>>) -> Seq<char>
    decreases vs.len(),
{
    if vs.len() == 0 {
        Seq::empty()
    } else {
        spec_enc_val(vs[0]) + spec_enc_vals(vs.skip(1))
    }
}

pub open spec fn spec_enc_row(r: Seq<Option<Seq<char>>>) -> Seq<char> {
    spec_enc_nat(r.len()) + spec_enc_vals(r)
}

pub open spec fn spec_enc_rows(rows: Seq<Seq<Option<Seq<char>>>>) -> Seq<char>
    decreases rows.len(),
{
    if rows.len() == 0 {
        Seq::empty()
    } else {
        spec_enc_row(rows[0]) + spec_enc_rows(rows.skip(1))
    }
}

pub open spec fn spec_enc_cols(cols: Seq<ColumnV>) -> Seq<char>
    decreases cols.len(),
{
    if cols.len() == 0 {
        Seq::empty()
    } else {
        spec_enc_col(cols[0]) + spec_enc_cols(cols.skip(1))
    }
}

pub open spec fn spec_enc_table(t: TableV) -> Seq<char> {
    spec_enc_str(t.name) + spec_enc_nat(t.columns.len()) + spec_enc_cols(t.columns) + spec_enc_nat(
        t.rows.len(),
    ) + spec_enc_rows(t.rows)
}

pub open spec fn spec_enc_tables(ts: Seq<TableV>) -> Seq<char>
    decreases ts.len(),
{
    if ts.len() == 0 {
        Seq::empty()
    } else {
        spec_enc_table(ts[0]) + spec_enc_tables(ts.skip(1))
    }
}

/// The canonical document for one store.
pub open spec fn spec_enc_db(d: DatabaseV) -> Seq<char> {
    spec_enc_nat(d.tables.len()) + spec_enc_tables(d.tables)
}

// ---- decoding ----

/// Consumes the longest digit prefix, accumulating its value; fails on a
/// value over `usize::MAX`.
pub open spec fn spec_scan_digits(s: Seq<char>, acc: nat) -> Option<(nat, Seq<char>)>
    decreases s.len(),
{
    if s.len() > 0 && is_digit(s[0]) {
        let acc2 = acc * 10 + digit_val(s[0]) as nat;
        if acc2 <= usize::MAX as nat {
            spec_scan_digits(s.skip(1), acc2)
        } else {
            None
        }
    } else {
        Some((acc, s))
    }
}

/// A number: at least one digit, then `;`.
pub open spec fn spec_dec_nat(s: Seq<char>) -> Option<(nat, Seq<char>)> {
    if s.len() > 0 && is_digit(s[0]) {
        match spec_scan_digits(s, 0) {
            None => None,
            Some((n, rest)) => if rest.len() > 0 && rest[0] == ';' {
                Some((n, rest.skip(1)))
            } else {
                None
            },
        }
    } else {
        None
    }
}

/// A string: its length, then that many characters.
pub open spec fn spec_dec_str(s: Seq<char>) -> Option<(Seq<char>, Seq<char>)> {
    match spec_dec_nat(s) {
        None => None,
        Some((n, rest)) => if rest.len() >= n {
            Some((rest.take(n as int), rest.skip(n as int)))
        } else {
            None
        },
    }
}

pub open spec fn spec_dec_bool(s: Seq<char>) -> Option<(bool, Seq<char>)> {
    if s.len() > 0 && s[0] == 'T' {
        Some((true, s.skip(1)))
    } else if s.len() > 0 && s[0] == 'F' {
        Some((false, s.skip(1)))
    } else {
        None
    }
}

pub open spec fn spec_dec_dt(s: Seq<char>) -> Option<(DataType, Seq<char>)> {
    if s.len() > 0 && s[0] == 'I' {
        Some((DataType::Int, s.skip(1)))
    } else if s.len() > 0 && s[0] == 'B' {
        Some((DataType::Bool, s.skip(1)))
    } else if s.len() > 0 && (s[0] == 'C' || s[0] == 'S') {
        match spec_dec_nat(s.skip(1)) {
            None => None,
            Some((n, rest)) => if n <= u32::MAX as nat {
                if s[0] == 'C' {
                    Some((DataType::Char(n as u32), rest))
                } else {
                    Some((DataType::String(n as u32), rest))
                }
            } else {
                None
            },
        }
    } else {
        None
    }
}

pub open spec fn spec_dec_col(s: Seq<char>) -> Option<(ColumnV, Seq<char>)> {
    match spec_dec_str(s) {
        None => None,
        Some((name, s1)) => match spec_dec_dt(s1) {
            None => None,
            Some((dt, s2)) => match spec_dec_bool(s2) {
                None => None,
                Some((pk, s3)) => Some(
                    (ColumnV { name, data_type: dt, is_primary_key: pk }, s3),
                ),
            },
        },
    }
}

pub open spec fn spec_dec_val(s: Seq<char>) -> Option<(Option<Seq<char>>, Seq<char>)> {
    if s.len() > 0 && s[0] == 'N' {
        Some((None, s.skip(1)))
    } else if s.len() > 0 && s[0] == 'V' {
        match spec_dec_str(s.skip(1)) {
            None => None,
            Some((v, rest)) => Some((Some(v), rest)),
        }
    } else {
        None
    }
}

pub open spec fn spec_dec_vals(s: Seq<char>, k: nat) -> Option<(Seq<Option<Seq<char>>>, Seq<char>)>
    decreases k,
{
    if k == 0 {
        Some((Seq::empty(), s))
    } else {
        match spec_dec_val(s) {
            None => None,
            Some((v, s1)) => match spec_dec_vals(s1, (k - 1) as nat) {
                None => None,
                Some((tail, rest)) => Some((seq![v] + tail, rest)),
            },
        }
    }
}

pub open spec fn spec_dec_row(s: Seq<char>) -> Option<(Seq<Option<Seq<char>>>, Seq<char>)> {
    match spec_dec_nat(s) {
        None => None,
        Some((n, rest)) => spec_dec_vals(rest, n),
    }
}

pub open spec fn spec_dec_rows(s: Seq<char>, k: nat) -> Option<
    (Seq<Seq<Option<Seq<char>>>>, Seq<char>),
>
    decreases k,
{
    if k == 0 {
        Some((Seq::empty(), s))
    } else {
        match spec_dec_row(s) {
            None => None,
            Some((r, s1)) => match spec_dec_rows(s1, (k - 1) as nat) {
                None => None,
                Some((tail, rest)) => Some((seq![r] + tail, rest)),
            },
        }
    }
}

pub open spec fn spec_dec_cols(s: Seq<char>, k: nat) -> Option<(Seq<ColumnV>, Seq<char>)>
    decreases k,
{
    if k == 0 {
        Some((Seq::empty(), s))
    } else {
        match spec_dec_col(s) {
            None => None,
            Some((c, s1)) => match spec_dec_cols(s1, (k - 1) as nat) {
                None => None,
                Some((tail, rest)) => Some((seq![c] + tail, rest)),
            },
        }
    }
}

pub open spec fn spec_dec_table(s: Seq<char>) -> Option<(TableV, Seq<char>)> {
    match spec_dec_str(s) {
        None => None,
        Some((name, s1)) => match spec_dec_nat(s1) {
            None => None,
            Some((nc, s2)) => match spec_dec_cols(s2, nc) {
                None => None,
                Some((cols, s3)) => match spec_dec_nat(s3) {
                    None => None,
                    Some((nr, s4)) => match spec_dec_rows(s4, nr) {
                        None => None,
                        Some((rows, s5)) => Some((TableV { name, columns: cols, rows }, s5)),
                    },
                },
            },
        },
    }
}

pub open spec fn spec_dec_tables(s: Seq<char>, k: nat) -> Option<(Seq<TableV>, Seq<char>)>
    decreases k,
{
    if k == 0 {
        Some((Seq::empty(), s))
    } else {
        match spec_dec_table(s) {
            None => None,
            Some((t, s1)) => match spec_dec_tables(s1, (k - 1) as nat) {
                None => None,
                Some((tail, rest)) => Some((seq![t] + tail, rest)),
            },
        }
    }
}

/// What decoding one whole document yields: the store, provided the whole
/// document is consumed.
pub open spec fn spec_dec_db(s: Seq<char>) -> Option<DatabaseV> {
    match spec_dec_nat(s) {
        None => None,
        Some((n, rest)) => match spec_dec_tables(rest, n) {
            None => None,
            Some((ts, leftover)) => if leftover.len() == 0 {
                Some(DatabaseV { tables: ts })
            } else {
                None
            },
        },
    }
}

// ---- boundedness: every count and length in the model fits the machine ----

pub open spec fn bounded_val(v: Option<Seq<char>>) -> bool {
    match v {
        Some(s) => s.len() <= usize::MAX,
        None => true,
    }
}

pub open spec fn bounded_row(r: Seq<Option<Seq<char>>>) -> bool {
    r.len() <= usize::MAX && forall|i: int| 0 <= i < r.len() ==> bounded_val(#[trigger] r[i])
}

pub open spec fn bounded_table(t: TableV) -> bool {
    &&& t.name.len() <= usize::MAX
    &&& t.columns.len() <= usize::MAX
    &&& t.rows.len() <= usize::MAX
    &&& forall|i: int| 0 <= i < t.columns.len() ==> (#[trigger] t.columns[i]).name.len()
        <= usize::MAX
    &&& forall|i: int| 0 <= i < t.rows.len() ==> bounded_row(#[trigger] t.rows[i])
}

pub open spec fn bounded_db(d: DatabaseV) -> bool {
    d.tables.len() <= usize::MAX && forall|i: int| 0 <= i < d.tables.len() ==> bounded_table(
        #[trigger] d.tables[i],
    )
}

// ---- the round trip ----

pub open spec fn pow10(k: nat) -> nat
    decreases k,
{
    if k == 0 {
        1
    } else {
        10 * pow10((k - 1) as nat)
    }
}

/// Scanning the canonical digits of `n` folds `n` into the accumulator.
proof fn lemma_scan_digits_enc(n: nat, t: Seq<char>, acc: nat)
    requires
        acc * pow10(spec_digits(n).len()) + n <= usize::MAX,
    ensures
        spec_scan_digits(spec_digits(n) + t, acc) == spec_scan_digits(
            t,
            acc * pow10(spec_digits(n).len()) + n,
        ),
    decreases n,
{
    lemma_val_of_digits(n);
    if n < 10 {
        let s = spec_digits(n) + t;
        assert(spec_digits(n) =~= seq![crate::digits::digit_char(n as int)]);
        assert(s[0] == crate::digits::digit_char(n as int));
        assert(is_digit(s[0]) && digit_val(s[0]) == n);
        assert(pow10(0) == 1);
        assert(pow10(1) == 10);
        let acc2 = acc * 10 + n;
        assert(acc2 <= usize::MAX);
        assert(s.skip(1) =~= t);
        assert(spec_scan_digits(s, acc) == spec_scan_digits(t, acc2));
    } else {
        let d = crate::digits::digit_char(n as int % 10);
        let prefix = spec_digits(n / 10);
        assert(spec_digits(n) =~= prefix + seq![d]);
        assert((prefix + seq![d]) + t =~= prefix + (seq![d] + t));
        let lp = prefix.len();
        assert(spec_digits(n).len() == lp + 1);
        assert(pow10(lp + 1) == 10 * pow10(lp));
        let a1 = acc * pow10(lp) + n / 10;
        assert(a1 * 10 + n % 10 == acc * pow10(lp + 1) + n) by (nonlinear_arith)
            requires
                a1 == acc * pow10(lp) + n / 10,
                pow10(lp + 1) == 10 * pow10(lp),
                n >= 10,
                n / 10 * 10 + n % 10 == n,
        ;
        assert(a1 <= a1 * 10 + n % 10) by (nonlinear_arith)
            requires
                a1 >= 0,
                n % 10 >= 0,
        ;
        lemma_scan_digits_enc(n / 10, seq![d] + t, acc);
        let s2 = seq![d] + t;
        assert(s2[0] == d);
        assert(is_digit(d) && digit_val(d) == n % 10) by {
            lemma_val_of_digits(n);
        }
        assert(a1 * 10 + digit_val(d) as nat == acc * pow10(spec_digits(n).len()) + n);
        assert(s2.skip(1) =~= t);
        assert(spec_scan_digits(s2, a1) == spec_scan_digits(t, acc * pow10(spec_digits(n).len()) + n));
    }
}

/// Reading back an encoded number yields the number and the rest.
proof fn lemma_dec_nat_enc(n: nat, t: Seq<char>)
    requires
        n <= usize::MAX,
    ensures
        spec_dec_nat(spec_enc_nat(n) + t) == Some((n, t)),
{
    lemma_val_of_digits(n);
    let s = spec_enc_nat(n) + t;
    let tail = seq![';'] + t;
    assert((spec_digits(n) + seq![';']) + t =~= spec_digits(n) + tail);
    assert(s[0] == spec_digits(n)[0]);
    assert(is_digit(s[0]));
    assert(pow10(spec_digits(n).len()) >= 1) by {
        lemma_pow10_pos(spec_digits(n).len());
    }
    assert(0 * pow10(spec_digits(n).len()) + n == n);
    lemma_scan_digits_enc(n, tail, 0);
    assert(spec_scan_digits(s, 0) == spec_scan_digits(tail, n));
    assert(!is_digit(tail[0]));
    assert(spec_scan_digits(tail, n) == Some((n, tail)));
    assert(tail[0] == ';');
    assert(tail.skip(1) =~= t);
}

proof fn lemma_pow10_pos(k: nat)
    ensures
        pow10(k) >= 1,
    decreases k,
{
    if k > 0 {
        lemma_pow10_pos((k - 1) as nat);
    }
}

proof fn lemma_dec_str_enc(v: Seq<char>, t: Seq<char>)
    requires
        v.len() <= usize::MAX,
    ensures
        spec_dec_str(spec_enc_str(v) + t) == Some((v, t)),
{
    assert((spec_enc_nat(v.len()) + v) + t =~= spec_enc_nat(v.len()) + (v + t));
    lemma_dec_nat_enc(v.len(), v + t);
    assert((v + t).take(v.len() as int) =~= v);
    assert((v + t).skip(v.len() as int) =~= t);
}

proof fn lemma_dec_dt_enc(dt: DataType, t: Seq<char>)
    ensures
        spec_dec_dt(spec_enc_dt(dt) + t) == Some((dt, t)),
{
    match dt {
        DataType::Int => {
            let s = spec_enc_dt(dt) + t;
            assert(s[0] == 'I');
            assert(s.skip(1) =~= t);
        },
        DataType::Bool => {
            let s = spec_enc_dt(dt) + t;
            assert(s[0] == 'B');
            assert(s.skip(1) =~= t);
        },
        DataType::Char(n) => {
            let s = spec_enc_dt(dt) + t;
            assert(s[0] == 'C');
            assert(s.skip(1) =~= spec_enc_nat(n as nat) + t);
            lemma_dec_nat_enc(n as nat, t);
        },
        DataType::String(n) => {
            let s = spec_enc_dt(dt) + t;
            assert(s[0] == 'S');
            assert(s.skip(1) =~= spec_enc_nat(n as nat) + t);
            lemma_dec_nat_enc(n as nat, t);
        },
    }
}

proof fn lemma_dec_col_enc(c: ColumnV, t: Seq<char>)
    requires
        c.name.len() <= usize::MAX,
    ensures
        spec_dec_col(spec_enc_col(c) + t) == Some((c, t)),
{
    let s = spec_enc_col(c) + t;
    assert(s =~= spec_enc_str(c.name) + (spec_enc_dt(c.data_type) + (spec_enc_bool(
        c.is_primary_key,
    ) + t)));
    lemma_dec_str_enc(c.name, spec_enc_dt(c.data_type) + (spec_enc_bool(c.is_primary_key) + t));
    lemma_dec_dt_enc(c.data_type, spec_enc_bool(c.is_primary_key) + t);
    let sb = spec_enc_bool(c.is_primary_key) + t;
    assert(sb.skip(1) =~= t);
}

proof fn lemma_dec_val_enc(v: Option<Seq<char>>, t: Seq<char>)
    requires
        bounded_val(v),
    ensures
        spec_dec_val(spec_enc_val(v) + t) == Some((v, t)),
{
    match v {
        None => {
            let s = spec_enc_val(v) + t;
            assert(s[0] == 'N');
            assert(s.skip(1) =~= t);
        },
        Some(x) => {
            let s = spec_enc_val(v) + t;
            assert(s[0] == 'V');
            assert(s.skip(1) =~= spec_enc_str(x) + t);
            lemma_dec_str_enc(x, t);
        },
    }
}

proof fn lemma_dec_vals_enc(vs: Seq<Option<Seq<char>>>, t: Seq<char>)
    requires
        forall|i: int| 0 <= i < vs.len() ==> bounded_val(#[trigger] vs[i]),
    ensures
        spec_dec_vals(spec_enc_vals(vs) + t, vs.len()) == Some((vs, t)),
    decreases vs.len(),
{
    if vs.len() == 0 {
        assert(spec_enc_vals(vs) + t =~= t);
        assert(spec_dec_vals(t, 0) == Some((Seq::<Option<Seq<char>>>::empty(), t)));
        assert(vs =~= Seq::<Option<Seq<char>>>::empty());
    } else {
        let rest = vs.skip(1);
        assert(spec_enc_vals(vs) + t =~= spec_enc_val(vs[0]) + (spec_enc_vals(rest) + t));
        lemma_dec_val_enc(vs[0], spec_enc_vals(rest) + t);
        lemma_dec_vals_enc(rest, t);
        assert(seq![vs[0]] + rest =~= vs);
    }
}

proof fn lemma_dec_row_enc(r: Seq<Option<Seq<char>>>, t: Seq<char>)
    requires
        bounded_row(r),
    ensures
        spec_dec_row(spec_enc_row(r) + t) == Some((r, t)),
{
    assert(spec_enc_row(r) + t =~= spec_enc_nat(r.len()) + (spec_enc_vals(r) + t));
    lemma_dec_nat_enc(r.len(), spec_enc_vals(r) + t);
    lemma_dec_vals_enc(r, t);
}

proof fn lemma_dec_rows_enc(rows: Seq<Seq<Option<Seq<char>>>>, t: Seq<char>)
    requires
        forall|i: int| 0 <= i < rows.len() ==> bounded_row(#[trigger] rows[i]),
    ensures
        spec_dec_rows(spec_enc_rows(rows) + t, rows.len()) == Some((rows, t)),
    decreases rows.len(),
{
    if rows.len() == 0 {
        assert(spec_enc_rows(rows) + t =~= t);
        assert(rows =~= Seq::<Seq<Option<Seq<char>>>>::empty());
    } else {
        let rest = rows.skip(1);
        assert(spec_enc_rows(rows) + t =~= spec_enc_row(rows[0]) + (spec_enc_rows(rest) + t));
        lemma_dec_row_enc(rows[0], spec_enc_rows(rest) + t);
        lemma_dec_rows_enc(rest, t);
        assert(seq![rows[0]] + rest =~= rows);
    }
}

proof fn lemma_dec_cols_enc(cols: Seq<ColumnV>, t: Seq<char>)
    requires
        forall|i: int| 0 <= i < cols.len() ==> (#[trigger] cols[i]).name.len() <= usize::MAX,
    ensures
        spec_dec_cols(spec_enc_cols(cols) + t, cols.len()) == Some((cols, t)),
    decreases cols.len(),
{
    if cols.len() == 0 {
        assert(spec_enc_cols(cols) + t =~= t);
        assert(cols =~= Seq::<ColumnV>::empty());
    } else {
        let rest = cols.skip(1);
        assert(spec_enc_cols(cols) + t =~= spec_enc_col(cols[0]) + (spec_enc_cols(rest) + t));
        lemma_dec_col_enc(cols[0], spec_enc_cols(rest) + t);
        lemma_dec_cols_enc(rest, t);
        assert(seq![cols[0]] + rest =~= cols);
    }
}

proof fn lemma_dec_table_enc(t: TableV, rest: Seq<char>)
    requires
        bounded_table(t),
    ensures
        spec_dec_table(spec_enc_table(t) + rest) == Some((t, rest)),
{
    let a = spec_enc_str(t.name);
    let b = spec_enc_nat(t.columns.len());
    let c = spec_enc_cols(t.columns);
    let d = spec_enc_nat(t.rows.len());
    let e = spec_enc_rows(t.rows);
    assert(spec_enc_table(t) + rest =~= a + (b + (c + (d + (e + rest)))));
    lemma_dec_str_enc(t.name, b + (c + (d + (e + rest))));
    lemma_dec_nat_enc(t.columns.len(), c + (d + (e + rest)));
    lemma_dec_cols_enc(t.columns, d + (e + rest));
    lemma_dec_nat_enc(t.rows.len(), e + rest);
    lemma_dec_rows_enc(t.rows, rest);
}

proof fn lemma_dec_tables_enc(ts: Seq<TableV>, t: Seq<char>)
    requires
        forall|i: int| 0 <= i < ts.len() ==> bounded_table(#[trigger] ts[i]),
    ensures
        spec_dec_tables(spec_enc_tables(ts) + t, ts.len()) == Some((ts, t)),
    decreases ts.len(),
{
    if ts.len() == 0 {
        assert(spec_enc_tables(ts) + t =~= t);
        assert(ts =~= Seq::<TableV>::empty());
    } else {
        let rest = ts.skip(1);
        assert(spec_enc_tables(ts) + t =~= spec_enc_table(ts[0]) + (spec_enc_tables(rest) + t));
        lemma_dec_table_enc(ts[0], spec_enc_tables(rest) + t);
        lemma_dec_tables_enc(rest, t);
        assert(seq![ts[0]] + rest =~= ts);
    }
}

/// The persistence round trip: decoding an encoded store yields the store,
/// so the digest recomputed after a reload equals the stored digest of the
/// untampered document.
pub proof fn lemma_decode_encode(d: DatabaseV)
    requires
        bounded_db(d),
    ensures
        spec_dec_db(spec_enc_db(d)) == Some(d),
        sha256_hex_of(spec_enc_db(spec_dec_db(spec_enc_db(d)).unwrap())) == sha256_hex_of(
            spec_enc_db(d),
        ),
{
    let empty = Seq::<char>::empty();
    assert(spec_enc_db(d) =~= spec_enc_nat(d.tables.len()) + (spec_enc_tables(d.tables) + empty));
    lemma_dec_nat_enc(d.tables.len(), spec_enc_tables(d.tables) + empty);
    lemma_dec_tables_enc(d.tables, empty);
}

/// The hexadecimal SHA-256 digest of a document's UTF-8 bytes, named: it is
/// a function of the characters alone.
pub uninterp spec fn sha256_hex_of(s: Seq<char>) -> Seq<char>;

/// Relies on sha2's `Sha256`: the digest depends on the input bytes alone,
/// a `&str`'s UTF-8 bytes depend on its characters alone, and each digest
/// byte is rendered as two lowercase hex digits.
#[verifier::external_body]
fn sha256_hex(s: &str) -> (r: String)
    ensures
        r@ == sha256_hex_of(s@),
{
    let digest = Sha256::digest(s.as_bytes());
    let mut out = String::new();
    for b in digest.iter() {
        out.push_str(&format!("{:02x}", b));
    }
    out
}

// ---- executable encoding ----

proof fn lemma_enc_tables_snoc(ts: Seq<TableV>, x: TableV)
    ensures
        spec_enc_tables(ts.push(x)) == spec_enc_tables(ts) + spec_enc_table(x),
    decreases ts.len(),
{
    let p = ts.push(x);
    if ts.len() == 0 {
        assert(p[0] == x);
        assert(p.skip(1) =~= Seq::<TableV>::empty());
        assert(spec_enc_tables(p.skip(1)) == Seq::<char>::empty());
        assert(spec_enc_tables(p) == spec_enc_table(x) + spec_enc_tables(p.skip(1)));
        assert(spec_enc_tables(ts) == Seq::<char>::empty());
        assert(spec_enc_tables(p) =~= spec_enc_tables(ts) + spec_enc_table(x));
    } else {
        lemma_enc_tables_snoc(ts.skip(1), x);
        assert(p.skip(1) =~= ts.skip(1).push(x));
        assert(p[0] == ts[0]);
        assert(spec_enc_tables(p) == spec_enc_table(ts[0]) + (spec_enc_tables(ts.skip(1))
            + spec_enc_table(x)));
        assert(spec_enc_tables(p) =~= spec_enc_tables(ts) + spec_enc_table(x));
    }
}

proof fn lemma_enc_cols_snoc(cs: Seq<ColumnV>, x: ColumnV)
    ensures
        spec_enc_cols(cs.push(x)) == spec_enc_cols(cs) + spec_enc_col(x),
    decreases cs.len(),
{
    let p = cs.push(x);
    if cs.len() == 0 {
        assert(p[0] == x);
        assert(p.skip(1) =~= Seq::<ColumnV>::empty());
        assert(spec_enc_cols(p.skip(1)) == Seq::<char>::empty());
        assert(spec_enc_cols(p) == spec_enc_col(x) + spec_enc_cols(p.skip(1)));
        assert(spec_enc_cols(cs) == Seq::<char>::empty());
        assert(spec_enc_cols(p) =~= spec_enc_cols(cs) + spec_enc_col(x));
    } else {
        lemma_enc_cols_snoc(cs.skip(1), x);
        assert(p.skip(1) =~= cs.skip(1).push(x));
        assert(p[0] == cs[0]);
        assert(spec_enc_cols(p) == spec_enc_col(cs[0]) + (spec_enc_cols(cs.skip(1))
            + spec_enc_col(x)));
        assert(spec_enc_cols(p) =~= spec_enc_cols(cs) + spec_enc_col(x));
    }
}

proof fn lemma_enc_rows_snoc(rs: Seq<Seq<Option<Seq<char>>>>, x: Seq<Option<Seq<char>>>)
    ensures
        spec_enc_rows(rs.push(x)) == spec_enc_rows(rs) + spec_enc_row(x),
    decreases rs.len(),
{
    let p = rs.push(x);
    if rs.len() == 0 {
        assert(p[0] == x);
        assert(p.skip(1) =~= Seq::<Seq<Option<Seq<char>>>>::empty());
        assert(spec_enc_rows(p.skip(1)) == Seq::<char>::empty());
        assert(spec_enc_rows(p) == spec_enc_row(x) + spec_enc_rows(p.skip(1)));
        assert(spec_enc_rows(rs) == Seq::<char>::empty());
        assert(spec_enc_rows(p) =~= spec_enc_rows(rs) + spec_enc_row(x));
    } else {
        lemma_enc_rows_snoc(rs.skip(1), x);
        assert(p.skip(1) =~= rs.skip(1).push(x));
        assert(p[0] == rs[0]);
        assert(spec_enc_rows(p) == spec_enc_row(rs[0]) + (spec_enc_rows(rs.skip(1))
            + spec_enc_row(x)));
        assert(spec_enc_rows(p) =~= spec_enc_rows(rs) + spec_enc_row(x));
    }
}

proof fn lemma_enc_vals_snoc(vs: Seq<Option<Seq<char>>>, x: Option<Seq<char>>)
    ensures
        spec_enc_vals(vs.push(x)) == spec_enc_vals(vs) + spec_enc_val(x),
    decreases vs.len(),
{
    let p = vs.push(x);
    if vs.len() == 0 {
        assert(p[0] == x);
        assert(p.skip(1) =~= Seq::<Option<Seq<char>>>::empty());
        assert(spec_enc_vals(p.skip(1)) == Seq::<char>::empty());
        assert(spec_enc_vals(p) == spec_enc_val(x) + spec_enc_vals(p.skip(1)));
        assert(spec_enc_vals(vs) == Seq::<char>::empty());
        assert(spec_enc_vals(p) =~= spec_enc_vals(vs) + spec_enc_val(x));
    } else {
        lemma_enc_vals_snoc(vs.skip(1), x);
        assert(p.skip(1) =~= vs.skip(1).push(x));
        assert(p[0] == vs[0]);
        assert(spec_enc_vals(p) == spec_enc_val(vs[0]) + (spec_enc_vals(vs.skip(1))
            + spec_enc_val(x)));
        assert(spec_enc_vals(p) =~= spec_enc_vals(vs) + spec_enc_val(x));
    }
}

fn push_nat(out: &mut Vec<char>, n: usize)
    ensures
        final(out)@ == old(out)@ + spec_enc_nat(n as nat),
{
    push_digits(n, out);
    out.push(';');
    proof {
        assert(out@ =~= old(out)@ + spec_enc_nat(n as nat));
    }
}

fn push_str_enc(out: &mut Vec<char>, s: &str)
    ensures
        final(out)@ == old(out)@ + spec_enc_str(s@),
{
    let cs = chars_of(s);
    push_nat(out, cs.len());
    append_chars(out, &cs);
    proof {
        assert(out@ =~= old(out)@ + spec_enc_str(s@));
    }
}

#[verifier::rlimit(50)]
fn push_table_enc(out: &mut Vec<char>, t: &Table)
    ensures
        final(out)@ == old(out)@ + spec_enc_table(t@),
{
    push_str_enc(out, t.name.as_str());
    push_nat(out, t.columns.len());
    let ghost colsv = t@.columns;
    let mut k: usize = 0;
    while k < t.columns.len()
        invariant
            0 <= k <= t.columns@.len(),
            colsv == t@.columns,
            colsv.len() == t.columns@.len(),
            out@ == old(out)@ + spec_enc_str(t@.name) + spec_enc_nat(colsv.len())
                + spec_enc_cols(colsv.take(k as int)),
        decreases t.columns@.len() - k,
    {
        let ghost o0 = out@;
        proof {
            assert(colsv[k as int] == t.columns@[k as int]@);
        }
        push_str_enc(out, t.columns[k].name.as_str());
        match t.columns[k].data_type {
            DataType::Int => {
                out.push('I');
            },
            DataType::Bool => {
                out.push('B');
            },
            DataType::Char(n) => {
                out.push('C');
                push_nat(out, n as usize);
            },
            DataType::String(n) => {
                out.push('S');
                push_nat(out, n as usize);
            },
        }
        if t.columns[k].is_primary_key {
            out.push('T');
        } else {
            out.push('F');
        }
        proof {
            assert(out@ =~= o0 + spec_enc_col(colsv[k as int]));
            lemma_enc_cols_snoc(colsv.take(k as int), colsv[k as int]);
            assert(colsv.take(k as int + 1) =~= colsv.take(k as int).push(colsv[k as int]));
            assert(out@ =~= old(out)@ + spec_enc_str(t@.name) + spec_enc_nat(colsv.len())
                + spec_enc_cols(colsv.take(k as int + 1)));
        }
        k = k + 1;
    }
    proof {
        assert(colsv.take(k as int) =~= colsv);
    }
    push_nat(out, t.rows.len());
    let ghost rowsv = t@.rows;
    let ghost head = old(out)@ + spec_enc_str(t@.name) + spec_enc_nat(colsv.len()) + spec_enc_cols(
        colsv,
    ) + spec_enc_nat(rowsv.len());
    let mut j: usize = 0;
    while j < t.rows.len()
        invariant
            0 <= j <= t.rows@.len(),
            rowsv == t@.rows,
            rowsv.len() == t.rows@.len(),
            out@ == head + spec_enc_rows(rowsv.take(j as int)),
        decreases t.rows@.len() - j,
    {
        let ghost o0 = out@;
        let ghost rowv = rowsv[j as int];
        proof {
            assert(rowv == t.rows@[j as int]@);
        }
        let nvals = t.rows[j].values.len();
        push_nat(out, nvals);
        let ghost vhead = o0 + spec_enc_nat(rowv.len());
        let mut c: usize = 0;
        while c < nvals
            invariant
                0 <= c <= nvals,
                j < t.rows@.len(),
                rowv == t.rows@[j as int]@,
                nvals == t.rows@[j as int].values@.len(),
                rowv.len() == nvals,
                out@ == vhead + spec_enc_vals(rowv.take(c as int)),
            decreases nvals - c,
        {
            let ghost o1 = out@;
            proof {
                assert(rowv[c as int] == opt_string_view(t.rows@[j as int].values@[c as int]));
            }
            match &t.rows[j].values[c] {
                None => {
                    out.push('N');
                },
                Some(s) => {
                    out.push('V');
                    push_str_enc(out, s.as_str());
                },
            }
            proof {
                assert(out@ =~= o1 + spec_enc_val(rowv[c as int]));
                lemma_enc_vals_snoc(rowv.take(c as int), rowv[c as int]);
                assert(rowv.take(c as int + 1) =~= rowv.take(c as int).push(rowv[c as int]));
                assert(out@ =~= vhead + spec_enc_vals(rowv.take(c as int + 1)));
            }
            c = c + 1;
        }
        proof {
            assert(rowv.take(c as int) =~= rowv);
            assert(out@ =~= o0 + spec_enc_row(rowv));
            lemma_enc_rows_snoc(rowsv.take(j as int), rowv);
            assert(rowsv.take(j as int + 1) =~= rowsv.take(j as int).push(rowv));
            assert(out@ =~= head + spec_enc_rows(rowsv.take(j as int + 1)));
        }
        j = j + 1;
    }
    proof {
        assert(rowsv.take(j as int) =~= rowsv);
        assert(out@ =~= old(out)@ + spec_enc_table(t@));
    }
}

/// Serializes the whole store to its canonical document.
pub fn encode_database(db: &Database) -> (r: String)
    ensures
        r@ == spec_enc_db(db@),
{
    let mut out: Vec<char> = Vec::new();
    push_nat(&mut out, db.tables.len());
    let ghost tsv = db@.tables;
    let mut i: usize = 0;
    while i < db.tables.len()
        invariant
            0 <= i <= db.tables@.len(),
            tsv == db@.tables,
            tsv.len() == db.tables@.len(),
            out@ == spec_enc_nat(tsv.len()) + spec_enc_tables(tsv.take(i as int)),
        decreases db.tables@.len() - i,
    {
        let ghost o0 = out@;
        proof {
            assert(tsv[i as int] == db.tables@[i as int]@);
        }
        push_table_enc(&mut out, &db.tables[i]);
        proof {
            lemma_enc_tables_snoc(tsv.take(i as int), tsv[i as int]);
            assert(tsv.take(i as int + 1) =~= tsv.take(i as int).push(tsv[i as int]));
            assert(out@ =~= spec_enc_nat(tsv.len()) + spec_enc_tables(tsv.take(i as int + 1)));
        }
        i = i + 1;
    }
    proof {
        assert(tsv.take(i as int) =~= tsv);
    }
    string_from_chars(&out)
}

// ---- executable decoding ----

fn dec_nat(v: &Vec<char>, pos: usize) -> (r: Option<(usize, usize)>)
    requires
        pos <= v@.len(),
    ensures
        match r {
            None => spec_dec_nat(v@.skip(pos as int)) is None,
            Some((n, p)) => pos <= p <= v@.len() && spec_dec_nat(v@.skip(pos as int)) == Some(
                (n as nat, v@.skip(p as int)),
            ),
        },
{
    if pos >= v.len() || !is_digit_exec(v[pos]) {
        proof {
            if pos < v@.len() {
                assert(v@.skip(pos as int)[0] == v@[pos as int]);
            }
        }
        return None;
    }
    proof {
        assert(v@.skip(pos as int)[0] == v@[pos as int]);
    }
    let mut acc: usize = 0;
    let mut i: usize = pos;
    while i < v.len() && is_digit_exec(v[i])
        invariant
            pos <= i <= v@.len(),
            spec_scan_digits(v@.skip(pos as int), 0) == spec_scan_digits(
                v@.skip(i as int),
                acc as nat,
            ),
        decreases v@.len() - i,
    {
        let d = digit_val_exec(v[i]) as usize;
        proof {
            assert(v@.skip(i as int)[0] == v@[i as int]);
        }
        if acc > (usize::MAX - d) / 10 {
            proof {
                assert(acc * 10 + d > usize::MAX) by (nonlinear_arith)
                    requires
                        acc > (usize::MAX - d) / 10,
                        0 <= d < 10,
                        acc >= 0,
                ;
                assert(spec_scan_digits(v@.skip(i as int), acc as nat) is None);
            }
            return None;
        }
        proof {
            assert(acc * 10 + d <= usize::MAX) by (nonlinear_arith)
                requires
                    acc <= (usize::MAX - d) / 10,
                    0 <= d < 10,
                    acc >= 0,
            ;
            assert(v@.skip(i as int).skip(1) =~= v@.skip(i as int + 1));
        }
        acc = acc * 10 + d;
        i = i + 1;
    }
    proof {
        if i < v@.len() {
            assert(v@.skip(i as int)[0] == v@[i as int]);
        }
        assert(spec_scan_digits(v@.skip(i as int), acc as nat) == Some(
            (acc as nat, v@.skip(i as int)),
        ));
    }
    if i < v.len() && v[i] == ';' {
        proof {
            assert(v@.skip(i as int)[0] == ';');
            assert(v@.skip(i as int).skip(1) =~= v@.skip(i as int + 1));
        }
        Some((acc, i + 1))
    } else {
        None
    }
}

fn dec_str(v: &Vec<char>, pos: usize) -> (r: Option<(String, usize)>)
    requires
        pos <= v@.len(),
    ensures
        match r {
            None => spec_dec_str(v@.skip(pos as int)) is None,
            Some((s, p)) => pos <= p <= v@.len() && spec_dec_str(v@.skip(pos as int)) == Some(
                (s@, v@.skip(p as int)),
            ),
        },
{
    match dec_nat(v, pos) {
        None => None,
        Some((n, p)) => {
            if v.len() - p < n {
                return None;
            }
            let sv = subvec(v, p, p + n);
            proof {
                assert(v@.skip(p as int).take(n as int) =~= v@.subrange(p as int, p as int + n));
                assert(v@.skip(p as int).skip(n as int) =~= v@.skip(p as int + n));
            }
            Some((string_from_chars(&sv), p + n))
        },
    }
}

fn dec_bool(v: &Vec<char>, pos: usize) -> (r: Option<(bool, usize)>)
    requires
        pos <= v@.len(),
    ensures
        match r {
            None => spec_dec_bool(v@.skip(pos as int)) is None,
            Some((b, p)) => pos <= p <= v@.len() && spec_dec_bool(v@.skip(pos as int)) == Some(
                (b, v@.skip(p as int)),
            ),
        },
{
    if pos < v.len() && (v[pos] == 'T' || v[pos] == 'F') {
        proof {
            assert(v@.skip(pos as int)[0] == v@[pos as int]);
            assert(v@.skip(pos as int).skip(1) =~= v@.skip(pos as int + 1));
        }
        Some((v[pos] == 'T', pos + 1))
    } else {
        proof {
            if pos < v@.len() {
                assert(v@.skip(pos as int)[0] == v@[pos as int]);
            }
        }
        None
    }
}

fn dec_dt(v: &Vec<char>, pos: usize) -> (r: Option<(DataType, usize)>)
    requires
        pos <= v@.len(),
    ensures
        match r {
            None => spec_dec_dt(v@.skip(pos as int)) is None,
            Some((dt, p)) => pos <= p <= v@.len() && spec_dec_dt(v@.skip(pos as int)) == Some(
                (dt, v@.skip(p as int)),
            ),
        },
{
    if pos >= v.len() {
        return None;
    }
    proof {
        assert(v@.skip(pos as int)[0] == v@[pos as int]);
        assert(v@.skip(pos as int).skip(1) =~= v@.skip(pos as int + 1));
    }
    let c = v[pos];
    if c == 'I' {
        Some((DataType::Int, pos + 1))
    } else if c == 'B' {
        Some((DataType::Bool, pos + 1))
    } else if c == 'C' || c == 'S' {
        match dec_nat(v, pos + 1) {
            None => None,
            Some((n, p)) => {
                if n > u32::MAX as usize {
                    return None;
                }
                if c == 'C' {
                    Some((DataType::Char(n as u32), p))
                } else {
                    Some((DataType::String(n as u32), p))
                }
            },
        }
    } else {
        None
    }
}

fn dec_col(v: &Vec<char>, pos: usize) -> (r: Option<(Column, usize)>)
    requires
        pos <= v@.len(),
    ensures
        match r {
            None => spec_dec_col(v@.skip(pos as int)) is None,
            Some((c, p)) => pos <= p <= v@.len() && spec_dec_col(v@.skip(pos as int)) == Some(
                (c@, v@.skip(p as int)),
            ),
        },
{
    match dec_str(v, pos) {
        None => None,
        Some((name, p1)) => match dec_dt(v, p1) {
            None => None,
            Some((dt, p2)) => match dec_bool(v, p2) {
                None => None,
                Some((pk, p3)) => Some(
                    (Column { name, data_type: dt, is_primary_key: pk }, p3),
                ),
            },
        },
    }
}

fn dec_row(v: &Vec<char>, pos: usize) -> (r: Option<(Row, usize)>)
    requires
        pos <= v@.len(),
    ensures
        match r {
            None => spec_dec_row(v@.skip(pos as int)) is None,
            Some((row, p)) => pos <= p <= v@.len() && spec_dec_row(v@.skip(pos as int)) == Some(
                (row@, v@.skip(p as int)),
            ),
        },
{
    let (n, p0) = match dec_nat(v, pos) {
        None => {
            return None;
        },
        Some(x) => x,
    };
    let mut values: Vec<Option<String>> = Vec::new();
    let mut cur: usize = p0;
    let mut k: usize = 0;
    proof {
        assert(values@.map_values(|ov: Option<String>| opt_string_view(ov)) =~= Seq::<
            Option<Seq<char>>,
        >::empty());
    }
    while k < n
        invariant
            0 <= k <= n,
            p0 <= cur <= v@.len(),
            values@.len() == k,
            spec_dec_vals(v@.skip(p0 as int), n as nat) == match spec_dec_vals(
                v@.skip(cur as int),
                (n - k) as nat,
            ) {
                Some((tail, rest)) => Some(
                    (values@.map_values(|ov: Option<String>| opt_string_view(ov)) + tail, rest),
                ),
                None => None,
            },
        decreases n - k,
    {
        let ghost vals0 = values@;
        let (val, p2) = match dec_val(v, cur) {
            None => {
                return None;
            },
            Some(x) => x,
        };
        values.push(val);
        proof {
            let f = |ov: Option<String>| opt_string_view(ov);
            assert(values@.map_values(f) =~= vals0.map_values(f).push(opt_string_view(val)));
            if spec_dec_vals(v@.skip(p2 as int), (n - k - 1) as nat) is Some {
                let (tail, rest) = spec_dec_vals(v@.skip(p2 as int), (n - k - 1) as nat)->Some_0;
                assert(vals0.map_values(f) + (seq![opt_string_view(val)] + tail) =~= values@.map_values(
                    f,
                ) + tail);
            }
        }
        cur = p2;
        k = k + 1;
    }
    proof {
        assert(spec_dec_vals(v@.skip(cur as int), 0) == Some(
            (Seq::<Option<Seq<char>>>::empty(), v@.skip(cur as int)),
        ));
        let f = |ov: Option<String>| opt_string_view(ov);
        assert(values@.map_values(f) + Seq::<Option<Seq<char>>>::empty() =~= values@.map_values(f));
    }
    Some((Row { values }, cur))
}

fn dec_val(v: &Vec<char>, pos: usize) -> (r: Option<(Option<String>, usize)>)
    requires
        pos <= v@.len(),
    ensures
        match r {
            None => spec_dec_val(v@.skip(pos as int)) is None,
            Some((val, p)) => pos <= p <= v@.len() && spec_dec_val(v@.skip(pos as int)) == Some(
                (opt_string_view(val), v@.skip(p as int)),
            ),
        },
{
    if pos >= v.len() {
        return None;
    }
    proof {
        assert(v@.skip(pos as int)[0] == v@[pos as int]);
        assert(v@.skip(pos as int).skip(1) =~= v@.skip(pos as int + 1));
    }
    let c = v[pos];
    if c == 'N' {
        Some((None, pos + 1))
    } else if c == 'V' {
        match dec_str(v, pos + 1) {
            None => None,
            Some((s, p)) => Some((Some(s), p)),
        }
    } else {
        None
    }
}

fn dec_table(v: &Vec<char>, pos: usize) -> (r: Option<(Table, usize)>)
    requires
        pos <= v@.len(),
    ensures
        match r {
            None => spec_dec_table(v@.skip(pos as int)) is None,
            Some((t, p)) => pos <= p <= v@.len() && spec_dec_table(v@.skip(pos as int)) == Some(
                (t@, v@.skip(p as int)),
            ),
        },
{
    let (name, p1) = match dec_str(v, pos) {
        None => {
            return None;
        },
        Some(x) => x,
    };
    let (nc, p2) = match dec_nat(v, p1) {
        None => {
            return None;
        },
        Some(x) => x,
    };
    let mut columns: Vec<Column> = Vec::new();
    let mut cur: usize = p2;
    let mut k: usize = 0;
    proof {
        assert(columns@.map_values(|c: Column| c@) =~= Seq::<ColumnV>::empty());
    }
    while k < nc
        invariant
            0 <= k <= nc,
            p2 <= cur <= v@.len(),
            columns@.len() == k,
            spec_dec_cols(v@.skip(p2 as int), nc as nat) == match spec_dec_cols(
                v@.skip(cur as int),
                (nc - k) as nat,
            ) {
                Some((tail, rest)) => Some((columns@.map_values(|c: Column| c@) + tail, rest)),
                None => None,
            },
        decreases nc - k,
    {
        let ghost cols0 = columns@;
        let (col, p3) = match dec_col(v, cur) {
            None => {
                return None;
            },
            Some(x) => x,
        };
        let ghost colv = col@;
        columns.push(col);
        proof {
            let f = |c: Column| c@;
            assert(columns@.map_values(f) =~= cols0.map_values(f).push(colv));
            if spec_dec_cols(v@.skip(p3 as int), (nc - k - 1) as nat) is Some {
                let (tail, rest) = spec_dec_cols(v@.skip(p3 as int), (nc - k - 1) as nat)->Some_0;
                assert(cols0.map_values(f) + (seq![colv] + tail) =~= columns@.map_values(f) + tail);
            }
        }
        cur = p3;
        k = k + 1;
    }
    proof {
        assert(spec_dec_cols(v@.skip(cur as int), 0) == Some(
            (Seq::<ColumnV>::empty(), v@.skip(cur as int)),
        ));
        let f = |c: Column| c@;
        assert(columns@.map_values(f) + Seq::<ColumnV>::empty() =~= columns@.map_values(f));
    }
    let (nr, p4) = match dec_nat(v, cur) {
        None => {
            return None;
        },
        Some(x) => x,
    };
    let mut rows: Vec<Row> = Vec::new();
    let mut cur2: usize = p4;
    let mut j: usize = 0;
    proof {
        assert(rows@.map_values(|r: Row| r@) =~= Seq::<Seq<Option<Seq<char>>>>::empty());
    }
    while j < nr
        invariant
            0 <= j <= nr,
            p4 <= cur2 <= v@.len(),
            rows@.len() == j,
            spec_dec_rows(v@.skip(p4 as int), nr as nat) == match spec_dec_rows(
                v@.skip(cur2 as int),
                (nr - j) as nat,
            ) {
                Some((tail, rest)) => Some((rows@.map_values(|r: Row| r@) + tail, rest)),
                None => None,
            },
        decreases nr - j,
    {
        let ghost rows0 = rows@;
        let (row, p5) = match dec_row(v, cur2) {
            None => {
                return None;
            },
            Some(x) => x,
        };
        let ghost rowv = row@;
        rows.push(row);
        proof {
            let f = |r: Row| r@;
            assert(rows@.map_values(f) =~= rows0.map_values(f).push(rowv));
            if spec_dec_rows(v@.skip(p5 as int), (nr - j - 1) as nat) is Some {
                let (tail, rest) = spec_dec_rows(v@.skip(p5 as int), (nr - j - 1) as nat)->Some_0;
                assert(rows0.map_values(f) + (seq![rowv] + tail) =~= rows@.map_values(f) + tail);
            }
        }
        cur2 = p5;
        j = j + 1;
    }
    proof {
        assert(spec_dec_rows(v@.skip(cur2 as int), 0) == Some(
            (Seq::<Seq<Option<Seq<char>>>>::empty(), v@.skip(cur2 as int)),
        ));
        let f = |r: Row| r@;
        assert(rows@.map_values(f) + Seq::<Seq<Option<Seq<char>>>>::empty() =~= rows@.map_values(f));
    }
    Some((Table { name, columns, rows }, cur2))
}

/// Whether the store's invariant holds: row widths match and table names are
/// pairwise distinct under the case-insensitive collation.
fn check_wf(db: &Database) -> (r: bool)
    ensures
        r == db@.wf(),
{
    let mut i: usize = 0;
    while i < db.tables.len()
        invariant
            0 <= i <= db.tables@.len(),
            forall|x: int| 0 <= x < i ==> (#[trigger] db@.tables[x]).wf(),
            forall|x: int, y: int| 0 <= x < y < i ==> !seq_eq_ci(
                db@.tables[x].name,
                db@.tables[y].name,
            ),
        decreases db.tables@.len() - i,
    {
        let ncols = db.tables[i].columns.len();
        let mut j: usize = 0;
        while j < db.tables[i].rows.len()
            invariant
                i < db.tables@.len(),
                ncols == db@.tables[i as int].columns.len(),
                0 <= j <= db.tables@[i as int].rows@.len(),
                forall|y: int| 0 <= y < j ==> (#[trigger] db@.tables[i as int].rows[y]).len()
                    == ncols,
            decreases db.tables@[i as int].rows@.len() - j,
        {
            if db.tables[i].rows[j].values.len() != ncols {
                proof {
                    assert(db@.tables[i as int].rows[j as int].len() != ncols);
                    assert(!db@.tables[i as int].wf());
                }
                return false;
            }
            j = j + 1;
        }
        let iname = chars_of(db.tables[i].name.as_str());
        let mut y: usize = 0;
        while y < i
            invariant
                y <= i < db.tables@.len(),
                iname@ == db@.tables[i as int].name,
                forall|x: int| 0 <= x < y ==> !seq_eq_ci(
                    (#[trigger] db@.tables[x]).name,
                    db@.tables[i as int].name,
                ),
            decreases i - y,
        {
            let yname = chars_of(db.tables[y].name.as_str());
            if eq_ci(&yname, &iname) {
                proof {
                    assert(seq_eq_ci(db@.tables[y as int].name, db@.tables[i as int].name));
                    assert(!db@.wf());
                }
                return false;
            }
            y = y + 1;
        }
        i = i + 1;
    }
    true
}

/// Reads one document back into a store; rejects text that is not a
/// well-formed encoded store.
pub fn decode_database(doc: &str) -> (r: Option<Database>)
    ensures
        match r {
            Some(db) => db@.wf() && spec_dec_db(doc@) == Some(db@),
            None => spec_dec_db(doc@) is None || !spec_dec_db(doc@).unwrap().wf(),
        },
{
    let v = chars_of(doc);
    proof {
        assert(v@.skip(0) =~= v@);
    }
    let (n, p0) = match dec_nat(&v, 0) {
        None => {
            return None;
        },
        Some(x) => x,
    };
    let mut tables: Vec<Table> = Vec::new();
    let mut cur: usize = p0;
    let mut k: usize = 0;
    proof {
        assert(tables@.map_values(|t: Table| t@) =~= Seq::<TableV>::empty());
    }
    while k < n
        invariant
            0 <= k <= n,
            p0 <= cur <= v@.len(),
            v@ == doc@,
            tables@.len() == k,
            spec_dec_tables(v@.skip(p0 as int), n as nat) == match spec_dec_tables(
                v@.skip(cur as int),
                (n - k) as nat,
            ) {
                Some((tail, rest)) => Some((tables@.map_values(|t: Table| t@) + tail, rest)),
                None => None,
            },
        decreases n - k,
    {
        let ghost ts0 = tables@;
        let (t, p1) = match dec_table(&v, cur) {
            None => {
                return None;
            },
            Some(x) => x,
        };
        let ghost tv = t@;
        tables.push(t);
        proof {
            let f = |t: Table| t@;
            assert(tables@.map_values(f) =~= ts0.map_values(f).push(tv));
            if spec_dec_tables(v@.skip(p1 as int), (n - k - 1) as nat) is Some {
                let (tail, rest) = spec_dec_tables(v@.skip(p1 as int), (n - k - 1) as nat)->Some_0;
                assert(ts0.map_values(f) + (seq![tv] + tail) =~= tables@.map_values(f) + tail);
            }
        }
        cur = p1;
        k = k + 1;
    }
    proof {
        assert(spec_dec_tables(v@.skip(cur as int), 0) == Some(
            (Seq::<TableV>::empty(), v@.skip(cur as int)),
        ));
        let f = |t: Table| t@;
        assert(tables@.map_values(f) + Seq::<TableV>::empty() =~= tables@.map_values(f));
    }
    if cur != v.len() {
        proof {
            assert(v@.skip(cur as int).len() > 0);
        }
        return None;
    }
    proof {
        assert(v@.skip(cur as int).len() == 0);
    }
    let db = Database { tables };
    if check_wf(&db) {
        Some(db)
    } else {
        None
    }
}

/// The document and its digest, as the surrounding application stores them
/// after every successful mutation.
pub fn snapshot(db: &Database) -> (r: (String, String))
    ensures
        r.0@ == spec_enc_db(db@),
        r.1@ == sha256_hex_of(spec_enc_db(db@)),
{
    let doc = encode_database(db);
    let hash = sha256_hex(doc.as_str());
    (doc, hash)
}

/// Reads a stored document back, recomputes the digest of the reloaded
/// store's document, and compares it to the stored digest.  A mismatch only
/// clears the advisory `secure` flag; it never blocks loading.
pub fn load_snapshot(doc: &str, stored_hash: &str) -> (r: (Option<Database>, bool))
    ensures
        match r.0 {
            Some(db) => db@.wf() && spec_dec_db(doc@) == Some(db@) && r.1 == (sha256_hex_of(
                spec_enc_db(db@),
            ) == stored_hash@),
            None => (spec_dec_db(doc@) is None || !spec_dec_db(doc@).unwrap().wf()) && r.1
                == false,
        },
{
    match decode_database(doc) {
        None => (None, false),
        Some(db) => {
            let reencoded = encode_database(&db);
            let recomputed = sha256_hex(reencoded.as_str());
            let stored = stored_hash.to_owned();
            let secure = recomputed == stored;
            (Some(db), secure)
        },
    }
}

} // verus!
