//! The command parser: one raw command string becomes a typed statement or a
//! structural error.
//!
//! The grammar is recognized by keyword splitting, all of it under the
//! case-insensitive collation: a SELECT splits on `FROM`, an INSERT on
//! `VALUES`, an UPDATE on `SET` and then `WHERE` (required), a DELETE on
//! `WHERE` (optional).  The only condition form is `column = literal`; a
//! literal is trimmed and has one surrounding pair of quotes removed.  A
//! command whose head is none of the four keywords is `Unsupported`.

use vstd::prelude::*;

use crate::errors::{ParseIssue, SqlError, SqlErrorV};
use crate::schema::spec_unquote;
use crate::text::{chars_of, find_ci, match_at, spec_find_ci, spec_first_token, spec_split_ci,
    spec_strip_prefix_ci, spec_trim, split_ci, starts_ci, strip_prefix_ci, string_from_chars,
    subvec, trim_vec, views_of, first_token, contains_ci};

verus! {

/// The typed result of parsing one raw command.
#[derive(Debug)]
pub enum Statement {
    /// One or more table names to render in order.
    Select { tables: Vec<String> },
    /// A SELECT whose from-clause holds `JOIN`: recognized but inert.
    SelectJoin,
    /// A table name and positional literals, pending validation.
    Insert { table: String, literals: Vec<String> },
    /// A table name, `SET` assignments, and the required condition.
    Update { table: String, assignments: Vec<(String, String)>, condition: (String, String) },
    /// A table name and an optional condition.
    Delete { table: String, condition: Option<(String, String)> },
    /// The leading keyword is not recognized.
    Unsupported,
}

/// The mathematical value of a statement.
pub ghost enum StatementV {
    Select { tables: Seq<Seq<char>> },
    SelectJoin,
    Insert { table: Seq<char>, literals: Seq<Seq<char>> },
    Update {
        table: Seq<char>,
        assignments: Seq<(Seq<char>, Seq<char>)>,
        condition: (Seq<char>, Seq<char>),
    },
    Delete { table: Seq<char>, condition: Option<(Seq<char>, Seq<char>)> },
    Unsupported,
}

impl View for Statement {
    type V = StatementV;

    open spec fn view(&self) -> StatementV {
        match self {
            Statement::Select { tables } => StatementV::Select {
                tables: tables@.map_values(|s: String| s@),
            },
            Statement::SelectJoin => StatementV::SelectJoin,
            Statement::Insert { table, literals } => StatementV::Insert {
                table: table@,
                literals: literals@.map_values(|s: String| s@),
            },
            Statement::Update { table, assignments, condition } => StatementV::Update {
                table: table@,
                assignments: assignments@.map_values(|p: (String, String)| (p.0@, p.1@)),
                condition: (condition.0@, condition.1@),
            },
            Statement::Delete { table, condition } => StatementV::Delete {
                table: table@,
                condition: match condition {
                    Some(c) => Some((c.0@, c.1@)),
                    None => None,
                },
            },
            Statement::Unsupported => StatementV::Unsupported,
        }
    }
}

/// One leading `(` and one trailing `)` stripped, if present.
pub open spec fn spec_strip_parens(s: Seq<char>) -> Seq<char> {
    let a = if s.len() > 0 && s[0] == '(' {
        s.skip(1)
    } else {
        s
    };
    if a.len() > 0 && a.last() == ')' {
        a.drop_last()
    } else {
        a
    }
}

/// One `column = literal` pair: split on the first `=`.
pub open spec fn spec_parse_assignment(p: Seq<char>) -> Result<(Seq<char>, Seq<char>), SqlErrorV> {
    match spec_find_ci(p, "="@) {
        None => Err(SqlErrorV::Parse(ParseIssue::SetPairShape)),
        Some(i) => Ok((spec_trim(p.take(i)), spec_unquote(spec_trim(p.skip(i + 1))))),
    }
}

/// The SET clause's pairs, in order; the first malformed pair aborts.
pub open spec fn spec_parse_assignments(pairs: Seq<Seq<char>>) -> Result<
    Seq<(Seq<char>, Seq<char>)>,
    SqlErrorV,
>
    decreases pairs.len(),
{
    if pairs.len() == 0 {
        Ok(Seq::empty())
    } else {
        match spec_parse_assignment(pairs[0]) {
            Err(e) => Err(e),
            Ok(a) => match spec_parse_assignments(pairs.skip(1)) {
                Err(e) => Err(e),
                Ok(rest) => Ok(seq![a] + rest),
            },
        }
    }
}

/// A WHERE condition: `column = literal`, exactly one `=`.
pub open spec fn spec_parse_condition(c: Seq<char>) -> Result<(Seq<char>, Seq<char>), SqlErrorV> {
    let segs = spec_split_ci(c, "="@);
    if segs.len() != 2 {
        Err(SqlErrorV::Parse(ParseIssue::WhereShape))
    } else {
        Ok((spec_trim(segs[0]), spec_unquote(spec_trim(segs[1]))))
    }
}

pub open spec fn spec_parse_select(s: Seq<char>) -> Result<StatementV, SqlErrorV> {
    let segs = spec_split_ci(s, "FROM"@);
    if segs.len() != 2 {
        Err(SqlErrorV::Parse(ParseIssue::FromCount))
    } else {
        let from_clause = segs[1];
        if spec_find_ci(from_clause, "JOIN"@) is Some {
            Ok(StatementV::SelectJoin)
        } else if spec_find_ci(from_clause, "AND"@) is Some {
            Ok(StatementV::Select {
                tables: spec_split_ci(from_clause, "AND"@).map_values(|t: Seq<char>| spec_trim(t)),
            })
        } else {
            Ok(StatementV::Select { tables: seq![spec_first_token(from_clause)] })
        }
    }
}

pub open spec fn spec_parse_insert(s: Seq<char>) -> Result<StatementV, SqlErrorV> {
    let segs = spec_split_ci(s, "VALUES"@);
    if segs.len() != 2 {
        Err(SqlErrorV::Parse(ParseIssue::ValuesCount))
    } else {
        let table = spec_trim(spec_strip_prefix_ci(segs[0], "INSERT INTO"@));
        let vals = spec_strip_parens(spec_trim(segs[1]));
        let literals = spec_split_ci(vals, ","@).map_values(
            |x: Seq<char>| spec_unquote(spec_trim(x)),
        );
        Ok(StatementV::Insert { table, literals })
    }
}

pub open spec fn spec_parse_update(s: Seq<char>) -> Result<StatementV, SqlErrorV> {
    let segs = spec_split_ci(s, "SET"@);
    if segs.len() != 2 {
        Err(SqlErrorV::Parse(ParseIssue::SetCount))
    } else {
        let table = spec_trim(spec_strip_prefix_ci(segs[0], "UPDATE"@));
        let wsegs = spec_split_ci(segs[1], "WHERE"@);
        if wsegs.len() < 2 {
            Err(SqlErrorV::Parse(ParseIssue::WhereRequired))
        } else if wsegs.len() > 2 {
            Err(SqlErrorV::Parse(ParseIssue::WhereCount))
        } else {
            match spec_parse_assignments(spec_split_ci(wsegs[0], ","@)) {
                Err(e) => Err(e),
                Ok(assignments) => match spec_parse_condition(wsegs[1]) {
                    Err(e) => Err(e),
                    Ok(condition) => Ok(StatementV::Update { table, assignments, condition }),
                },
            }
        }
    }
}

pub open spec fn spec_parse_delete(s: Seq<char>) -> Result<StatementV, SqlErrorV> {
    let rem = spec_strip_prefix_ci(s, "DELETE FROM"@);
    let wsegs = spec_split_ci(rem, "WHERE"@);
    if wsegs.len() == 1 {
        Ok(StatementV::Delete { table: spec_trim(rem), condition: None })
    } else if wsegs.len() == 2 {
        match spec_parse_condition(wsegs[1]) {
            Err(e) => Err(e),
            Ok(c) => Ok(StatementV::Delete { table: spec_trim(wsegs[0]), condition: Some(c) }),
        }
    } else {
        Err(SqlErrorV::Parse(ParseIssue::WhereCount))
    }
}

/// What parsing one raw command yields: the statement classified by the
/// trimmed command's leading keyword, or a structural error.
pub open spec fn spec_parse(raw: Seq<char>) -> Result<StatementV, SqlErrorV> {
    let s = spec_trim(raw);
    if match_at(s, "SELECT"@, 0) {
        spec_parse_select(s)
    } else if match_at(s, "INSERT INTO"@, 0) {
        spec_parse_insert(s)
    } else if match_at(s, "UPDATE"@, 0) {
        spec_parse_update(s)
    } else if match_at(s, "DELETE FROM"@, 0) {
        spec_parse_delete(s)
    } else {
        Ok(StatementV::Unsupported)
    }
}

fn parse_condition(c: &Vec<char>) -> (r: Result<(String, String), SqlError>)
    ensures
        match r {
            Ok(p) => spec_parse_condition(c@) == Ok::<(Seq<char>, Seq<char>), SqlErrorV>(
                (p.0@, p.1@),
            ),
            Err(e) => spec_parse_condition(c@) == Err::<(Seq<char>, Seq<char>), SqlErrorV>(e@),
        },
{
    let eq_kw = chars_of("=");
    let segs = split_ci(c, &eq_kw);
    if segs.len() != 2 {
        return Err(SqlError::Parse(ParseIssue::WhereShape));
    }
    proof {
        assert(views_of(segs@)[0] == segs@[0]@);
        assert(views_of(segs@)[1] == segs@[1]@);
    }
    let col = string_from_chars(&trim_vec(&segs[0]));
    let lit = string_from_chars(&crate::schema::unquote_chars(&trim_vec(&segs[1])));
    Ok((col, lit))
}

fn parse_assignments(pairs: &Vec<Vec<char>>) -> (r: Result<Vec<(String, String)>, SqlError>)
    ensures
        match r {
            Ok(a) => spec_parse_assignments(views_of(pairs@)) == Ok::<
                Seq<(Seq<char>, Seq<char>)>,
                SqlErrorV,
            >(a@.map_values(|p: (String, String)| (p.0@, p.1@))),
            Err(e) => spec_parse_assignments(views_of(pairs@)) == Err::<
                Seq<(Seq<char>, Seq<char>)>,
                SqlErrorV,
            >(e@),
        },
{
    let eq_kw = chars_of("=");
    let mut out: Vec<(String, String)> = Vec::new();
    let ghost all = views_of(pairs@);
    proof {
        reveal_strlit("=");
        assert(all.skip(0) =~= all);
        let f = |p: (String, String)| (p.0@, p.1@);
        assert(out@.map_values(f) =~= Seq::<(Seq<char>, Seq<char>)>::empty());
        if spec_parse_assignments(all) is Ok {
            assert(out@.map_values(f) + spec_parse_assignments(all)->Ok_0 =~= spec_parse_assignments(
                all,
            )->Ok_0);
        }
    }
    let mut i: usize = 0;
    while i < pairs.len()
        invariant
            0 <= i <= pairs@.len(),
            all == views_of(pairs@),
            eq_kw@ == "="@,
            spec_parse_assignments(all) == match spec_parse_assignments(all.skip(i as int)) {
                Ok(rest) => Ok::<Seq<(Seq<char>, Seq<char>)>, SqlErrorV>(
                    out@.map_values(|p: (String, String)| (p.0@, p.1@)) + rest,
                ),
                Err(e) => Err::<Seq<(Seq<char>, Seq<char>)>, SqlErrorV>(e),
            },
        decreases pairs@.len() - i,
    {
        let ghost out0 = out@;
        let p = &pairs[i];
        proof {
            reveal_strlit("=");
            assert(all[i as int] == pairs@[i as int]@);
            assert(all.skip(i as int)[0] == all[i as int]);
            assert(all.skip(i as int).skip(1) =~= all.skip(i as int + 1));
        }
        match find_ci(p, &eq_kw) {
            None => {
                return Err(SqlError::Parse(ParseIssue::SetPairShape));
            },
            Some(q) => {
                proof {
                    reveal_strlit("=");
                    assert(q + "="@.len() <= p@.len());
                    assert(p@.len() == p.len());
                    assert(q + 1 <= p.len());
                }
                let col = string_from_chars(&trim_vec(&subvec(p, 0, q)));
                let lit = string_from_chars(
                    &crate::schema::unquote_chars(&trim_vec(&subvec(p, q + 1, p.len()))),
                );
                proof {
                    assert(p@.subrange(0, q as int) =~= p@.take(q as int));
                    assert(p@.subrange(q as int + 1, p@.len() as int) =~= p@.skip(q as int + 1));
                }
                out.push((col, lit));
                proof {
                    let f = |p: (String, String)| (p.0@, p.1@);
                    assert(out@.map_values(f) =~= out0.map_values(f).push((col@, lit@)));
                    assert(spec_parse_assignment(all[i as int]) == Ok::<
                        (Seq<char>, Seq<char>),
                        SqlErrorV,
                    >((col@, lit@)));
                    if spec_parse_assignments(all.skip(i as int + 1)) is Ok {
                        let rest = spec_parse_assignments(all.skip(i as int + 1))->Ok_0;
                        assert(out0.map_values(f) + (seq![(col@, lit@)] + rest) =~= out@.map_values(
                            f,
                        ) + rest);
                    }
                }
            },
        }
        i = i + 1;
    }
    proof {
        assert(all.skip(i as int) =~= Seq::<Seq<char>>::empty());
        assert(spec_parse_assignments(all.skip(i as int)) == Ok::<
            Seq<(Seq<char>, Seq<char>)>,
            SqlErrorV,
        >(Seq::empty()));
        assert(out@.map_values(|p: (String, String)| (p.0@, p.1@)) + Seq::<(Seq<char>, Seq<char>)>::empty()
            =~= out@.map_values(|p: (String, String)| (p.0@, p.1@)));
    }
    Ok(out)
}

/// Parses one raw command into a typed statement or a structural error.
pub fn parse(input: &str) -> (r: Result<Statement, SqlError>)
    ensures
        match r {
            Ok(st) => spec_parse(input@) == Ok::<StatementV, SqlErrorV>(st@),
            Err(e) => spec_parse(input@) == Err::<StatementV, SqlErrorV>(e@),
        },
{
    let raw = chars_of(input);
    let s = trim_vec(&raw);
    let select_kw = chars_of("SELECT");
    let insert_kw = chars_of("INSERT INTO");
    let update_kw = chars_of("UPDATE");
    let delete_kw = chars_of("DELETE FROM");
    if starts_ci(&s, &select_kw) {
        parse_select(&s)
    } else if starts_ci(&s, &insert_kw) {
        parse_insert(&s)
    } else if starts_ci(&s, &update_kw) {
        parse_update(&s)
    } else if starts_ci(&s, &delete_kw) {
        parse_delete(&s)
    } else {
        Ok(Statement::Unsupported)
    }
}

fn parse_select(s: &Vec<char>) -> (r: Result<Statement, SqlError>)
    ensures
        match r {
            Ok(st) => spec_parse_select(s@) == Ok::<StatementV, SqlErrorV>(st@),
            Err(e) => spec_parse_select(s@) == Err::<StatementV, SqlErrorV>(e@),
        },
{
    let from_kw = chars_of("FROM");
    let segs = split_ci(s, &from_kw);
    if segs.len() != 2 {
        return Err(SqlError::Parse(ParseIssue::FromCount));
    }
    proof {
        assert(views_of(segs@)[1] == segs@[1]@);
    }
    let from_clause = &segs[1];
    let join_kw = chars_of("JOIN");
    let and_kw = chars_of("AND");
    if contains_ci(from_clause, &join_kw) {
        Ok(Statement::SelectJoin)
    } else if contains_ci(from_clause, &and_kw) {
        let parts = split_ci(from_clause, &and_kw);
        let ghost target = spec_split_ci(from_clause@, "AND"@).map_values(
            |t: Seq<char>| spec_trim(t),
        );
        let mut tables: Vec<String> = Vec::new();
        let mut i: usize = 0;
        while i < parts.len()
            invariant
                0 <= i <= parts@.len(),
                target == views_of(parts@).map_values(|t: Seq<char>| spec_trim(t)),
                tables@.map_values(|x: String| x@) == target.take(i as int),
            decreases parts@.len() - i,
        {
            let ghost t0 = tables@;
            let name = string_from_chars(&trim_vec(&parts[i]));
            proof {
                assert(views_of(parts@)[i as int] == parts@[i as int]@);
            }
            tables.push(name);
            proof {
                let f = |x: String| x@;
                assert(tables@.map_values(f) =~= t0.map_values(f).push(name@));
                assert(target.take(i as int + 1) =~= target.take(i as int).push(
                    target[i as int],
                ));
            }
            i = i + 1;
        }
        proof {
            assert(target.take(i as int) =~= target);
        }
        Ok(Statement::Select { tables })
    } else {
        let token = first_token(from_clause);
        let name = string_from_chars(&token);
        let tables = vec![name];
        proof {
            assert(tables@.map_values(|x: String| x@) =~= seq![spec_first_token(segs@[1]@)]);
        }
        Ok(Statement::Select { tables })
    }
}

fn parse_insert(s: &Vec<char>) -> (r: Result<Statement, SqlError>)
    ensures
        match r {
            Ok(st) => spec_parse_insert(s@) == Ok::<StatementV, SqlErrorV>(st@),
            Err(e) => spec_parse_insert(s@) == Err::<StatementV, SqlErrorV>(e@),
        },
{
    let values_kw = chars_of("VALUES");
    let segs = split_ci(s, &values_kw);
    if segs.len() != 2 {
        return Err(SqlError::Parse(ParseIssue::ValuesCount));
    }
    proof {
        assert(views_of(segs@)[0] == segs@[0]@);
        assert(views_of(segs@)[1] == segs@[1]@);
    }
    let insert_into_kw = chars_of("INSERT INTO");
    let table = string_from_chars(&trim_vec(&strip_prefix_ci(&segs[0], &insert_into_kw)));
    let mut vals = trim_vec(&segs[1]);
    let ghost tv = vals@;
    if vals.len() > 0 && vals[0] == '(' {
        vals = subvec(&vals, 1, vals.len());
        proof {
            assert(vals@ =~= tv.skip(1));
        }
    }
    let ghost av = vals@;
    if vals.len() > 0 && vals[vals.len() - 1] == ')' {
        vals = subvec(&vals, 0, vals.len() - 1);
        proof {
            assert(vals@ =~= av.drop_last());
        }
    }
    proof {
        assert(vals@ == spec_strip_parens(spec_trim(segs@[1]@)));
    }
    let comma_kw = chars_of(",");
    let parts = split_ci(&vals, &comma_kw);
    let ghost target = spec_split_ci(vals@, ","@).map_values(
        |x: Seq<char>| spec_unquote(spec_trim(x)),
    );
    let mut literals: Vec<String> = Vec::new();
    let mut i: usize = 0;
    while i < parts.len()
        invariant
            0 <= i <= parts@.len(),
            target == views_of(parts@).map_values(|x: Seq<char>| spec_unquote(spec_trim(x))),
            literals@.map_values(|x: String| x@) == target.take(i as int),
        decreases parts@.len() - i,
    {
        let ghost l0 = literals@;
        proof {
            assert(views_of(parts@)[i as int] == parts@[i as int]@);
        }
        let lit = string_from_chars(&crate::schema::unquote_chars(&trim_vec(&parts[i])));
        literals.push(lit);
        proof {
            let f = |x: String| x@;
            assert(literals@.map_values(f) =~= l0.map_values(f).push(lit@));
            assert(target.take(i as int + 1) =~= target.take(i as int).push(target[i as int]));
        }
        i = i + 1;
    }
    proof {
        assert(target.take(i as int) =~= target);
    }
    Ok(Statement::Insert { table, literals })
}

fn parse_update(s: &Vec<char>) -> (r: Result<Statement, SqlError>)
    ensures
        match r {
            Ok(st) => spec_parse_update(s@) == Ok::<StatementV, SqlErrorV>(st@),
            Err(e) => spec_parse_update(s@) == Err::<StatementV, SqlErrorV>(e@),
        },
{
    let set_kw = chars_of("SET");
    let segs = split_ci(s, &set_kw);
    if segs.len() != 2 {
        return Err(SqlError::Parse(ParseIssue::SetCount));
    }
    proof {
        assert(views_of(segs@)[0] == segs@[0]@);
        assert(views_of(segs@)[1] == segs@[1]@);
    }
    let update_kw = chars_of("UPDATE");
    let table = string_from_chars(&trim_vec(&strip_prefix_ci(&segs[0], &update_kw)));
    let where_kw = chars_of("WHERE");
    let wsegs = split_ci(&segs[1], &where_kw);
    if wsegs.len() < 2 {
        return Err(SqlError::Parse(ParseIssue::WhereRequired));
    }
    if wsegs.len() > 2 {
        return Err(SqlError::Parse(ParseIssue::WhereCount));
    }
    proof {
        assert(views_of(wsegs@)[0] == wsegs@[0]@);
        assert(views_of(wsegs@)[1] == wsegs@[1]@);
    }
    let comma_kw = chars_of(",");
    let pairs = split_ci(&wsegs[0], &comma_kw);
    let assignments = match parse_assignments(&pairs) {
        Ok(a) => a,
        Err(e) => {
            return Err(e);
        },
    };
    let condition = match parse_condition(&wsegs[1]) {
        Ok(c) => c,
        Err(e) => {
            return Err(e);
        },
    };
    Ok(Statement::Update { table, assignments, condition })
}

fn parse_delete(s: &Vec<char>) -> (r: Result<Statement, SqlError>)
    ensures
        match r {
            Ok(st) => spec_parse_delete(s@) == Ok::<StatementV, SqlErrorV>(st@),
            Err(e) => spec_parse_delete(s@) == Err::<StatementV, SqlErrorV>(e@),
        },
{
    let delete_kw = chars_of("DELETE FROM");
    let rem = strip_prefix_ci(s, &delete_kw);
    let where_kw = chars_of("WHERE");
    let wsegs = split_ci(&rem, &where_kw);
    if wsegs.len() == 1 {
        let table = string_from_chars(&trim_vec(&rem));
        Ok(Statement::Delete { table, condition: None })
    } else if wsegs.len() == 2 {
        proof {
            assert(views_of(wsegs@)[0] == wsegs@[0]@);
            assert(views_of(wsegs@)[1] == wsegs@[1]@);
        }
        let condition = match parse_condition(&wsegs[1]) {
            Ok(c) => c,
            Err(e) => {
                return Err(e);
            },
        };
        let table = string_from_chars(&trim_vec(&wsegs[0]));
        Ok(Statement::Delete { table, condition: Some(condition) })
    } else {
        Err(SqlError::Parse(ParseIssue::WhereCount))
    }
}

} // verus!
