//! The error kinds of the command language.  Every error is handled at the
//! single-statement boundary: the store is never left partially mutated.

use vstd::prelude::*;
use vstd::string::StringExecFns;

use crate::digits::{spec_digits, usize_to_string};
use crate::schema::TypeError;

verus! {

/// Which structural rule of the grammar a malformed command broke.
#[derive(Debug, Clone, Copy, PartialEq, Eq, Structural)]
pub enum ParseIssue {
    /// A SELECT did not split on `FROM` into exactly two segments.
    FromCount,
    /// An INSERT did not split on `VALUES` into exactly two segments.
    ValuesCount,
    /// An UPDATE did not split on `SET` into exactly two segments.
    SetCount,
    /// An UPDATE has no `WHERE` clause.
    WhereRequired,
    /// More than one `WHERE` keyword after the statement head.
    WhereCount,
    /// A SET pair holds no `=`.
    SetPairShape,
    /// A WHERE condition did not split on `=` into exactly two segments.
    WhereShape,
}

/// An error produced by parsing or executing one command.
#[derive(Debug)]
pub enum SqlError {
    Parse(ParseIssue),
    TableNotFound(String),
    TableAlreadyExists(String),
    ColumnNotFound(String),
    ColumnCountMismatch { expected: usize, actual: usize },
    TypeValidation { error: TypeError, literal: String },
    UnsupportedCommand,
    NotImplemented,
}

/// The mathematical value of an error: names as character sequences.
pub ghost enum SqlErrorV {
    Parse(ParseIssue),
    TableNotFound(Seq<char>),
    TableAlreadyExists(Seq<char>),
    ColumnNotFound(Seq<char>),
    ColumnCountMismatch { expected: nat, actual: nat },
    TypeValidation { error: TypeError, literal: Seq<char> },
    UnsupportedCommand,
    NotImplemented,
}

impl View for SqlError {
    type V = SqlErrorV;

    open spec fn view(&self) -> SqlErrorV {
        match self {
            SqlError::Parse(p) => SqlErrorV::Parse(*p),
            SqlError::TableNotFound(n) => SqlErrorV::TableNotFound(n@),
            SqlError::TableAlreadyExists(n) => SqlErrorV::TableAlreadyExists(n@),
            SqlError::ColumnNotFound(n) => SqlErrorV::ColumnNotFound(n@),
            SqlError::ColumnCountMismatch { expected, actual } => SqlErrorV::ColumnCountMismatch {
                expected: *expected as nat,
                actual: *actual as nat,
            },
            SqlError::TypeValidation { error, literal } => SqlErrorV::TypeValidation {
                error: *error,
                literal: literal@,
            },
            SqlError::UnsupportedCommand => SqlErrorV::UnsupportedCommand,
            SqlError::NotImplemented => SqlErrorV::NotImplemented,
        }
    }
}

/// The display line for one parse issue.
pub open spec fn spec_issue_message(p: ParseIssue) -> Seq<char> {
    match p {
        ParseIssue::FromCount => "malformed SELECT: expected exactly one FROM"@,
        ParseIssue::ValuesCount => "malformed INSERT: expected exactly one VALUES"@,
        ParseIssue::SetCount => "malformed UPDATE: expected exactly one SET"@,
        ParseIssue::WhereRequired => "UPDATE requires a WHERE clause"@,
        ParseIssue::WhereCount => "expected at most one WHERE"@,
        ParseIssue::SetPairShape => "malformed SET pair: expected column = literal"@,
        ParseIssue::WhereShape => "malformed WHERE: expected column = literal"@,
    }
}

/// The display line for one error: no structured error crosses the
/// presentation boundary.
pub open spec fn spec_message(e: SqlErrorV) -> Seq<char> {
    match e {
        SqlErrorV::Parse(p) => spec_issue_message(p),
        SqlErrorV::TableNotFound(n) => "table not found: "@ + n,
        SqlErrorV::TableAlreadyExists(n) => "table already exists: "@ + n,
        SqlErrorV::ColumnNotFound(n) => "column not found: "@ + n,
        SqlErrorV::ColumnCountMismatch { expected, actual } => "column count mismatch: expected "@
            + spec_digits(expected) + ", got "@ + spec_digits(actual),
        SqlErrorV::TypeValidation { error, literal } => (match error {
            TypeError::IntegerParseError => "invalid integer value: "@,
            TypeError::BooleanParseError => "invalid boolean value: "@,
        }) + literal,
        SqlErrorV::UnsupportedCommand => "unsupported SQL command"@,
        SqlErrorV::NotImplemented => "JOIN is not implemented"@,
    }
}

impl SqlError {
    /// Renders this error as one human-readable line; an arity error reports
    /// both counts.
    pub fn message(&self) -> (r: String)
        ensures
            r@ == spec_message(self@),
    {
        match self {
            SqlError::Parse(p) => match p {
                ParseIssue::FromCount => String::from_str(
                    "malformed SELECT: expected exactly one FROM",
                ),
                ParseIssue::ValuesCount => String::from_str(
                    "malformed INSERT: expected exactly one VALUES",
                ),
                ParseIssue::SetCount => String::from_str("malformed UPDATE: expected exactly one SET"),
                ParseIssue::WhereRequired => String::from_str("UPDATE requires a WHERE clause"),
                ParseIssue::WhereCount => String::from_str("expected at most one WHERE"),
                ParseIssue::SetPairShape => String::from_str(
                    "malformed SET pair: expected column = literal",
                ),
                ParseIssue::WhereShape => String::from_str(
                    "malformed WHERE: expected column = literal",
                ),
            },
            SqlError::TableNotFound(n) => String::from_str("table not found: ").concat(n.as_str()),
            SqlError::TableAlreadyExists(n) => String::from_str("table already exists: ").concat(
                n.as_str(),
            ),
            SqlError::ColumnNotFound(n) => String::from_str("column not found: ").concat(n.as_str()),
            SqlError::ColumnCountMismatch { expected, actual } => {
                let counts = usize_to_string(*expected).concat(", got ").concat(
                    usize_to_string(*actual).as_str(),
                );
                String::from_str("column count mismatch: expected ").concat(counts.as_str())
            },
            SqlError::TypeValidation { error, literal } => match error {
                TypeError::IntegerParseError => String::from_str("invalid integer value: ").concat(
                    literal.as_str(),
                ),
                TypeError::BooleanParseError => String::from_str("invalid boolean value: ").concat(
                    literal.as_str(),
                ),
            },
            SqlError::UnsupportedCommand => String::from_str("unsupported SQL command"),
            SqlError::NotImplemented => String::from_str("JOIN is not implemented"),
        }
    }
}

} // verus!
