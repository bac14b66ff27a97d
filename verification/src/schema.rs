//! Column types and literal validation.
//!
//! A literal taken from a command is validated against the declared type of
//! its column before it is stored.  Integer literals must denote a value in
//! the 32-bit signed range, boolean literals must spell `true` or `false`
//! ignoring case, and character literals are stored verbatim after one
//! surrounding pair of quotes is stripped.  The declared length of `Char`
//! and `String` columns is advisory metadata and is not enforced.

use vstd::prelude::*;

use crate::digits::{all_digits, is_digit, is_digit_exec, digit_val_exec, val_of,
    lemma_val_of_prefix};
use crate::text::{norm, seq_eq_ci, spec_norm, chars_of, string_from_chars};

verus! {

/// The type of a column.  `Char` and `String` carry a declared length that
/// is never enforced at write time.
#[derive(Debug, Clone, Copy, PartialEq, Eq, Structural)]
pub enum DataType {
    Int,
    Char(u32),
    Bool,
    String(u32),
}

/// Why a literal was rejected by validation.
#[derive(Debug, Clone, Copy, PartialEq, Eq, Structural)]
pub enum TypeError {
    IntegerParseError,
    BooleanParseError,
}

/// An integer literal: an optional sign followed by at least one digit,
/// denoting a value in the 32-bit signed range.
pub open spec fn spec_is_int_literal(s: Seq<char>) -> bool {
    let signed = s.len() > 0 && (s[0] == '-' || s[0] == '+');
    let body = if signed {
        s.skip(1)
    } else {
        s
    };
    &&& body.len() > 0
    &&& all_digits(body)
    &&& val_of(body) <= if s.len() > 0 && s[0] == '-' {
        2147483648int
    } else {
        2147483647int
    }
}

/// A boolean literal: `true` or `false`, compared case-insensitively.
pub open spec fn spec_is_bool_literal(s: Seq<char>) -> bool {
    seq_eq_ci(s, "true"@) || seq_eq_ci(s, "false"@)
}

/// One surrounding pair of matching quote characters, if present, stripped.
pub open spec fn spec_unquote(s: Seq<char>) -> Seq<char> {
    if s.len() >= 2 && s[0] == s[s.len() - 1] && (s[0] == '\'' || s[0] == '"') {
        s.subrange(1, s.len() - 1)
    } else {
        s
    }
}

/// What validation returns for one literal against one column type.
pub open spec fn spec_validate(dt: DataType, s: Seq<char>) -> Result<Seq<char>, TypeError> {
    match dt {
        DataType::Int => if spec_is_int_literal(s) {
            Ok(s)
        } else {
            Err(TypeError::IntegerParseError)
        },
        DataType::Bool => if spec_is_bool_literal(s) {
            Ok(s)
        } else {
            Err(TypeError::BooleanParseError)
        },
        DataType::Char(_) => Ok(spec_unquote(s)),
        DataType::String(_) => Ok(spec_unquote(s)),
    }
}

pub fn is_int_literal(v: &Vec<char>) -> (r: bool)
    ensures
        r == spec_is_int_literal(v@),
{
    let len = v.len();
    let signed = len > 0 && (v[0] == '-' || v[0] == '+');
    let start: usize = if signed {
        1
    } else {
        0
    };
    if len == start {
        return false;
    }
    let limit: u64 = if len > 0 && v[0] == '-' {
        2147483648
    } else {
        2147483647
    };
    let ghost body = if signed {
        v@.skip(1)
    } else {
        v@
    };
    let mut acc: u64 = 0;
    let mut i: usize = start;
    while i < len
        invariant
            start <= i <= len,
            len == v@.len(),
            acc <= limit,
            forall|j: int| start <= j < i ==> is_digit(v@[j]),
            acc == val_of(body.take(i - start)),
        decreases len - i,
    {
        let c = v[i];
        if !is_digit_exec(c) {
            proof {
                assert(body[i - start] == v@[i as int]);
            }
            return false;
        }
        let d = digit_val_exec(c);
        acc = acc * 10 + (d as u64);
        i = i + 1;
        proof {
            assert(body.take(i - start).drop_last() =~= body.take(i - 1 - start));
            assert(body.take(i - start).last() == c);
        }
        if acc > limit {
            proof {
                assert(body.take(body.len() as int) =~= body);
                lemma_val_of_prefix(body, i - start);
                assert(val_of(body) >= acc);
            }
            return false;
        }
    }
    proof {
        assert(body.take(i - start) =~= body);
    }
    true
}

pub fn is_bool_literal(v: &Vec<char>) -> (r: bool)
    ensures
        r == spec_is_bool_literal(v@),
{
    proof {
        reveal_strlit("true");
        reveal_strlit("false");
    }
    if v.len() == 4 {
        let r = norm(v[0]) == norm('t') && norm(v[1]) == norm('r') && norm(v[2]) == norm('u')
            && norm(v[3]) == norm('e');
        assert(r == seq_eq_ci(v@, "true"@));
        assert(!seq_eq_ci(v@, "false"@));
        r
    } else if v.len() == 5 {
        let r = norm(v[0]) == norm('f') && norm(v[1]) == norm('a') && norm(v[2]) == norm('l')
            && norm(v[3]) == norm('s') && norm(v[4]) == norm('e');
        assert(r == seq_eq_ci(v@, "false"@));
        r
    } else {
        false
    }
}

/// The characters of `v` with one surrounding pair of quotes stripped.
pub fn unquote_chars(v: &Vec<char>) -> (r: Vec<char>)
    ensures
        r@ == spec_unquote(v@),
{
    if v.len() >= 2 && v[0] == v[v.len() - 1] && (v[0] == '\'' || v[0] == '"') {
        let mut out: Vec<char> = Vec::new();
        let mut i: usize = 1;
        while i < v.len() - 1
            invariant
                1 <= i <= v@.len() - 1,
                out@ == v@.subrange(1, i as int),
            decreases v@.len() - 1 - i,
        {
            out.push(v[i]);
            i = i + 1;
            proof {
                assert(out@ =~= v@.subrange(1, i as int));
            }
        }
        out
    } else {
        let mut out: Vec<char> = Vec::new();
        let mut i: usize = 0;
        while i < v.len()
            invariant
                0 <= i <= v@.len(),
                out@ == v@.subrange(0, i as int),
            decreases v@.len() - i,
        {
            out.push(v[i]);
            i = i + 1;
            proof {
                assert(out@ =~= v@.subrange(0, i as int));
            }
        }
        proof {
            assert(out@ =~= v@);
        }
        out
    }
}

/// An unsigned length literal: an optional `+` followed by at least one
/// digit, denoting a value in the 32-bit unsigned range.
pub open spec fn spec_parse_u32(s: Seq<char>) -> Option<nat> {
    let body = if s.len() > 0 && s[0] == '+' {
        s.skip(1)
    } else {
        s
    };
    if body.len() > 0 && all_digits(body) && val_of(body) <= u32::MAX {
        Some(val_of(body))
    } else {
        None
    }
}

pub fn parse_u32(v: &Vec<char>) -> (r: Option<u32>)
    ensures
        match r {
            Some(n) => spec_parse_u32(v@) == Some(n as nat),
            None => spec_parse_u32(v@) is None,
        },
{
    let len = v.len();
    let start: usize = if len > 0 && v[0] == '+' {
        1
    } else {
        0
    };
    if len == start {
        return None;
    }
    let ghost body = if start == 1 {
        v@.skip(1)
    } else {
        v@
    };
    let mut acc: u64 = 0;
    let mut i: usize = start;
    while i < len
        invariant
            start <= i <= len,
            len == v@.len(),
            acc <= u32::MAX,
            forall|j: int| start <= j < i ==> is_digit(v@[j]),
            acc == val_of(body.take(i - start)),
        decreases len - i,
    {
        let c = v[i];
        if !is_digit_exec(c) {
            proof {
                assert(body[i - start] == v@[i as int]);
            }
            return None;
        }
        let d = digit_val_exec(c);
        acc = acc * 10 + (d as u64);
        i = i + 1;
        proof {
            assert(body.take(i - start).drop_last() =~= body.take(i - 1 - start));
            assert(body.take(i - start).last() == c);
        }
        if acc > u32::MAX as u64 {
            proof {
                assert(body.take(body.len() as int) =~= body);
                lemma_val_of_prefix(body, i - start);
                assert(val_of(body) >= acc);
            }
            return None;
        }
    }
    proof {
        assert(body.take(i - start) =~= body);
    }
    Some(acc as u32)
}

/// Validates one literal against one column type, returning the canonical
/// text that would be stored, or the reason it was rejected.
pub fn validate(dt: &DataType, literal: &str) -> (r: Result<String, TypeError>)
    ensures
        match r {
            Ok(s) => spec_validate(*dt, literal@) == Ok::<Seq<char>, TypeError>(s@),
            Err(e) => spec_validate(*dt, literal@) == Err::<Seq<char>, TypeError>(e),
        },
{
    let v = chars_of(literal);
    match dt {
        DataType::Int => {
            if is_int_literal(&v) {
                Ok(string_from_chars(&v))
            } else {
                Err(TypeError::IntegerParseError)
            }
        },
        DataType::Bool => {
            if is_bool_literal(&v) {
                Ok(string_from_chars(&v))
            } else {
                Err(TypeError::BooleanParseError)
            }
        },
        DataType::Char(_) => {
            let out = unquote_chars(&v);
            Ok(string_from_chars(&out))
        },
        DataType::String(_) => {
            let out = unquote_chars(&v);
            Ok(string_from_chars(&out))
        },
    }
}

} // verus!
