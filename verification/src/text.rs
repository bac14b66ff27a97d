//! Character-level utilities shared by the parser, the executor and the
//! document codec: whitespace trimming, case-insensitive keyword matching,
//! and conversions between `String` and `Vec<char>`.

use vstd::prelude::*;
use vstd::string::StrSliceExecFns;

verus! {

/// The whitespace characters recognized when trimming command text.
pub open spec fn spec_is_space(c: char) -> bool {
    c == ' ' || c == '\t' || c == '\n' || c == '\r'
}

#[verifier::when_used_as_spec(spec_is_space)]
pub fn is_space(c: char) -> (r: bool)
    ensures
        r == spec_is_space(c),
{
    c == ' ' || c == '\t' || c == '\n' || c == '\r'
}

/// Case-folded code point used for case-insensitive comparison: ASCII
/// lowercase letters map to their uppercase counterpart, everything else
/// to itself.
pub open spec fn spec_norm(c: char) -> int {
    if 'a' <= c && c <= 'z' {
        c as int - 32
    } else {
        c as int
    }
}

pub fn norm(c: char) -> (r: u32)
    ensures
        r == spec_norm(c),
{
    let u = c as u32;
    if 'a' <= c && c <= 'z' {
        u - 32
    } else {
        u
    }
}

/// Two character sequences are equal under the case-insensitive collation.
pub open spec fn seq_eq_ci(a: Seq<char>, b: Seq<char>) -> bool {
    a.len() == b.len() && (forall|i: int| 0 <= i < a.len() ==> spec_norm(a[i]) == spec_norm(b[i]))
}

/// The characters of a string, as a vector.
pub fn chars_of(s: &str) -> (r: Vec<char>)
    ensures
        r@ == s@,
{
    let n = s.unicode_len();
    let mut out: Vec<char> = Vec::new();
    let mut i: usize = 0;
    while i < n
        invariant
            i <= n,
            out@ == s@.take(i as int),
        decreases n - i,
    {
        out.push(s.get_char(i));
        i = i + 1;
        proof {
            assert(out@ =~= s@.take(i as int));
        }
    }
    proof {
        assert(out@ =~= s@);
    }
    out
}

/// Relies on `String`'s `FromIterator` over `char`: collecting yields a
/// string holding exactly the given characters in order.
#[verifier::external_body]
pub fn string_from_chars(v: &Vec<char>) -> (r: String)
    ensures
        r@ == v@,
{
    v.iter().collect()
}

/// Appends all of `v`.
pub fn append_chars(out: &mut Vec<char>, v: &Vec<char>)
    ensures
        final(out)@ == old(out)@ + v@,
{
    let mut i: usize = 0;
    while i < v.len()
        invariant
            0 <= i <= v@.len(),
            out@ == old(out)@ + v@.take(i as int),
        decreases v@.len() - i,
    {
        out.push(v[i]);
        i = i + 1;
        proof {
            assert(out@ =~= old(out)@ + v@.take(i as int));
        }
    }
    proof {
        assert(old(out)@ + v@.take(i as int) =~= old(out)@ + v@);
    }
}

/// A copy of the characters in `[lo, hi)`.
pub fn subvec(v: &Vec<char>, lo: usize, hi: usize) -> (r: Vec<char>)
    requires
        lo <= hi <= v@.len(),
    ensures
        r@ == v@.subrange(lo as int, hi as int),
{
    let mut out: Vec<char> = Vec::new();
    let mut i: usize = lo;
    while i < hi
        invariant
            lo <= i <= hi,
            out@ == v@.subrange(lo as int, i as int),
        decreases hi - i,
    {
        out.push(v[i]);
        i = i + 1;
        proof {
            assert(out@ =~= v@.subrange(lo as int, i as int));
        }
    }
    out
}

pub open spec fn spec_trim_start(s: Seq<char>) -> Seq<char>
    decreases s.len(),
{
    if s.len() > 0 && spec_is_space(s[0]) {
        spec_trim_start(s.skip(1))
    } else {
        s
    }
}

pub open spec fn spec_trim_end(s: Seq<char>) -> Seq<char>
    decreases s.len(),
{
    if s.len() > 0 && spec_is_space(s.last()) {
        spec_trim_end(s.drop_last())
    } else {
        s
    }
}

/// Leading and trailing whitespace removed.
pub open spec fn spec_trim(s: Seq<char>) -> Seq<char> {
    spec_trim_end(spec_trim_start(s))
}

/// A copy of `v` with leading and trailing whitespace removed.
pub fn trim_vec(v: &Vec<char>) -> (r: Vec<char>)
    ensures
        r@ == spec_trim(v@),
{
    proof {
        assert(v@.subrange(0, v@.len() as int) =~= v@);
    }
    let mut lo: usize = 0;
    while lo < v.len() && is_space(v[lo])
        invariant
            0 <= lo <= v@.len(),
            spec_trim_start(v@) == spec_trim_start(v@.subrange(lo as int, v@.len() as int)),
        decreases v@.len() - lo,
    {
        proof {
            assert(v@.subrange(lo as int, v@.len() as int).skip(1) =~= v@.subrange(
                lo as int + 1,
                v@.len() as int,
            ));
        }
        lo = lo + 1;
    }
    proof {
        assert(spec_trim_start(v@) == v@.subrange(lo as int, v@.len() as int));
    }
    let mut hi: usize = v.len();
    while hi > lo && is_space(v[hi - 1])
        invariant
            lo <= hi <= v@.len(),
            spec_trim_end(v@.subrange(lo as int, v@.len() as int)) == spec_trim_end(
                v@.subrange(lo as int, hi as int),
            ),
        decreases hi,
    {
        proof {
            assert(v@.subrange(lo as int, hi as int).drop_last() =~= v@.subrange(
                lo as int,
                hi as int - 1,
            ));
        }
        hi = hi - 1;
    }
    proof {
        assert(spec_trim_end(v@.subrange(lo as int, hi as int)) == v@.subrange(
            lo as int,
            hi as int,
        ));
    }
    subvec(v, lo, hi)
}

/// The keyword `kw` occurs in `s` at position `i`, compared case-insensitively.
pub open spec fn match_at(s: Seq<char>, kw: Seq<char>, i: int) -> bool {
    &&& 0 <= i
    &&& i + kw.len() <= s.len()
    &&& forall|j: int| 0 <= j < kw.len() ==> spec_norm(s[i + j]) == spec_norm(#[trigger] kw[j])
}

/// The first occurrence of `kw` at or after position `i`.
pub open spec fn find_ci_from(s: Seq<char>, kw: Seq<char>, i: int) -> Option<int>
    decreases s.len() - i,
{
    if kw.len() <= 0 || i < 0 || i + kw.len() > s.len() {
        None
    } else if match_at(s, kw, i) {
        Some(i)
    } else {
        find_ci_from(s, kw, i + 1)
    }
}

/// The position of the first case-insensitive occurrence of `kw` in `s`.
pub open spec fn spec_find_ci(s: Seq<char>, kw: Seq<char>) -> Option<int> {
    find_ci_from(s, kw, 0)
}

/// What `find_ci_from` returns: the first occurrence at or after `i`, or
/// nothing when the keyword does not occur from `i` on.
pub proof fn lemma_find_ci_from(s: Seq<char>, kw: Seq<char>, i: int)
    requires
        0 <= i,
        kw.len() > 0,
    ensures
        match find_ci_from(s, kw, i) {
            None => forall|j: int| i <= j ==> !match_at(s, kw, j),
            Some(k) => i <= k && match_at(s, kw, k) && forall|j: int| i <= j < k ==> !match_at(
                s,
                kw,
                j,
            ),
        },
    decreases s.len() - i,
{
    if kw.len() <= 0 || i + kw.len() > s.len() {
    } else if match_at(s, kw, i) {
    } else {
        lemma_find_ci_from(s, kw, i + 1);
    }
}

/// The segments of `s` split on every case-insensitive occurrence of `kw`,
/// scanned left to right.
pub open spec fn spec_split_ci(s: Seq<char>, kw: Seq<char>) -> Seq<Seq<char>>
    decreases s.len(),
    via spec_split_ci_decreases
{
    match spec_find_ci(s, kw) {
        None => seq![s],
        Some(i) => seq![s.take(i)] + spec_split_ci(s.skip(i + kw.len()), kw),
    }
}

#[via_fn]
proof fn spec_split_ci_decreases(s: Seq<char>, kw: Seq<char>) {
    if kw.len() > 0 {
        lemma_find_ci_from(s, kw, 0);
    }
}

pub fn match_at_exec(v: &Vec<char>, kw: &Vec<char>, i: usize) -> (r: bool)
    requires
        i + kw@.len() <= v@.len(),
    ensures
        r == match_at(v@, kw@, i as int),
{
    proof {
        assert(v@.len() == v.len());
    }
    let mut j: usize = 0;
    while j < kw.len()
        invariant
            0 <= j <= kw@.len(),
            i + kw@.len() <= v@.len(),
            v@.len() <= usize::MAX,
            forall|k: int| 0 <= k < j ==> spec_norm(v@[i + k]) == spec_norm(#[trigger] kw@[k]),
        decreases kw@.len() - j,
    {
        if norm(v[i + j]) != norm(kw[j]) {
            return false;
        }
        j = j + 1;
    }
    true
}

/// The position of the first case-insensitive occurrence of `kw` in `v`.
pub fn find_ci(v: &Vec<char>, kw: &Vec<char>) -> (r: Option<usize>)
    ensures
        match r {
            None => spec_find_ci(v@, kw@) is None,
            Some(p) => p + kw@.len() <= v@.len() && spec_find_ci(v@, kw@) == Some(p as int),
        },
{
    if kw.len() == 0 || kw.len() > v.len() {
        return None;
    }
    proof {
        lemma_find_ci_from(v@, kw@, 0);
    }
    let last = v.len() - kw.len();
    let mut i: usize = 0;
    while i <= last
        invariant
            0 <= i <= last + 1,
            last == v@.len() - kw@.len(),
            kw@.len() >= 1,
            forall|j: int| 0 <= j < i ==> !match_at(v@, kw@, j),
        decreases last + 1 - i,
    {
        if match_at_exec(v, kw, i) {
            proof {
                let fo = find_ci_from(v@, kw@, 0);
                assert(fo is Some);
                let k = fo.unwrap();
                assert(k == i);
            }
            return Some(i);
        }
        i = i + 1;
    }
    proof {
        assert forall|j: int| 0 <= j implies !match_at(v@, kw@, j) by {
            if j <= last {
                assert(!match_at(v@, kw@, j));
            }
        }
    }
    None
}

pub open spec fn views_of(s: Seq<Vec<char>>) -> Seq<Seq<char>> {
    s.map_values(|x: Vec<char>| x@)
}

/// Splits `v` on every case-insensitive occurrence of `kw`.
pub fn split_ci(v: &Vec<char>, kw: &Vec<char>) -> (r: Vec<Vec<char>>)
    ensures
        views_of(r@) == spec_split_ci(v@, kw@),
        r@.len() >= 1,
{
    let mut out: Vec<Vec<char>> = Vec::new();
    let mut rest: Vec<char> = subvec(v, 0, v.len());
    proof {
        assert(rest@ =~= v@);
        assert(views_of(out@) =~= Seq::<Seq<char>>::empty());
    }
    #[verifier::loop_isolation(true)]
    loop
        invariant
            spec_split_ci(v@, kw@) == views_of(out@) + spec_split_ci(rest@, kw@),
        ensures
            views_of(out@) == spec_split_ci(v@, kw@),
            out@.len() >= 1,
        decreases rest@.len(),
    {
        match find_ci(&rest, kw) {
            None => {
                let ghost out0 = out@;
                let ghost restv = rest@;
                out.push(rest);
                proof {
                    assert(views_of(out@) =~= views_of(out0).push(restv));
                    assert(spec_split_ci(restv, kw@) =~= seq![restv]);
                    assert(views_of(out@) =~= views_of(out0) + spec_split_ci(restv, kw@));
                }
                return out;
            },
            Some(p) => {
                proof {
                    lemma_find_ci_from(rest@, kw@, 0);
                }
                let ghost out0 = out@;
                let ghost restv = rest@;
                let piece = subvec(&rest, 0, p);
                let next = subvec(&rest, p + kw.len(), rest.len());
                proof {
                    assert(piece@ =~= restv.take(p as int));
                    assert(next@ =~= restv.skip(p as int + kw@.len() as int));
                }
                out.push(piece);
                rest = next;
                proof {
                    assert(views_of(out@) =~= views_of(out0).push(restv.take(p as int)));
                    assert(spec_split_ci(restv, kw@) == seq![restv.take(p as int)]
                        + spec_split_ci(rest@, kw@));
                    assert(views_of(out0) + spec_split_ci(restv, kw@) =~= views_of(out@)
                        + spec_split_ci(rest@, kw@));
                }
            },
        }
    }
}

/// The longest whitespace-free prefix.
pub open spec fn spec_take_until_space(s: Seq<char>) -> Seq<char>
    decreases s.len(),
{
    if s.len() > 0 && !spec_is_space(s[0]) {
        seq![s[0]] + spec_take_until_space(s.skip(1))
    } else {
        Seq::empty()
    }
}

/// The first whitespace-delimited token of `s`, after leading whitespace.
pub open spec fn spec_first_token(s: Seq<char>) -> Seq<char> {
    spec_take_until_space(spec_trim_start(s))
}

proof fn lemma_take_until_space(s: Seq<char>, k: int)
    requires
        0 <= k <= s.len(),
        forall|j: int| 0 <= j < k ==> !spec_is_space(s[j]),
        k == s.len() || spec_is_space(s[k]),
    ensures
        spec_take_until_space(s) == s.take(k),
    decreases s.len(),
{
    if s.len() > 0 && !spec_is_space(s[0]) {
        assert(k >= 1);
        lemma_take_until_space(s.skip(1), k - 1);
        assert(s.take(k) =~= seq![s[0]] + s.skip(1).take(k - 1));
    } else {
        assert(k == 0);
        assert(s.take(0) =~= Seq::<char>::empty());
    }
}

/// The first whitespace-delimited token of `v`.
pub fn first_token(v: &Vec<char>) -> (r: Vec<char>)
    ensures
        r@ == spec_first_token(v@),
{
    proof {
        assert(v@.subrange(0, v@.len() as int) =~= v@);
    }
    let mut lo: usize = 0;
    while lo < v.len() && is_space(v[lo])
        invariant
            0 <= lo <= v@.len(),
            spec_trim_start(v@) == spec_trim_start(v@.subrange(lo as int, v@.len() as int)),
        decreases v@.len() - lo,
    {
        proof {
            assert(v@.subrange(lo as int, v@.len() as int).skip(1) =~= v@.subrange(
                lo as int + 1,
                v@.len() as int,
            ));
        }
        lo = lo + 1;
    }
    let ghost tv = v@.subrange(lo as int, v@.len() as int);
    proof {
        assert(spec_trim_start(v@) == tv);
    }
    let mut k: usize = lo;
    while k < v.len() && !is_space(v[k])
        invariant
            lo <= k <= v@.len(),
            forall|j: int| lo <= j < k ==> !spec_is_space(v@[j]),
        decreases v@.len() - k,
    {
        k = k + 1;
    }
    proof {
        lemma_take_until_space(tv, k - lo);
        assert(tv.take(k - lo) =~= v@.subrange(lo as int, k as int));
    }
    subvec(v, lo, k)
}

/// `v` begins with `kw`, compared case-insensitively.
pub fn starts_ci(v: &Vec<char>, kw: &Vec<char>) -> (r: bool)
    ensures
        r == match_at(v@, kw@, 0),
{
    kw.len() <= v.len() && match_at_exec(v, kw, 0)
}

/// Strips one leading case-insensitive occurrence of `kw`, if present.
pub open spec fn spec_strip_prefix_ci(s: Seq<char>, kw: Seq<char>) -> Seq<char> {
    if match_at(s, kw, 0) {
        s.skip(kw.len() as int)
    } else {
        s
    }
}

pub fn strip_prefix_ci(v: &Vec<char>, kw: &Vec<char>) -> (r: Vec<char>)
    ensures
        r@ == spec_strip_prefix_ci(v@, kw@),
{
    if kw.len() <= v.len() && match_at_exec(v, kw, 0) {
        subvec(v, kw.len(), v.len())
    } else {
        subvec(v, 0, v.len())
    }
}

/// `kw` occurs somewhere in `v`, compared case-insensitively.
pub fn contains_ci(v: &Vec<char>, kw: &Vec<char>) -> (r: bool)
    ensures
        r == (spec_find_ci(v@, kw@) is Some),
{
    match find_ci(v, kw) {
        Some(_) => true,
        None => false,
    }
}

/// The parts joined with `sep` between consecutive parts.
pub open spec fn concat_with(sep: Seq<char>, parts: Seq<Seq<char>>) -> Seq<char>
    decreases parts.len(),
{
    if parts.len() == 0 {
        Seq::empty()
    } else if parts.len() == 1 {
        parts[0]
    } else {
        parts[0] + sep + concat_with(sep, parts.skip(1))
    }
}

/// Appending one part extends the joined text by a separator and the part.
pub proof fn lemma_concat_with_push(sep: Seq<char>, parts: Seq<Seq<char>>, last: Seq<char>)
    ensures
        concat_with(sep, parts.push(last)) == if parts.len() == 0 {
            last
        } else {
            concat_with(sep, parts) + sep + last
        },
    decreases parts.len(),
{
    let whole = parts.push(last);
    if parts.len() == 0 {
        assert(concat_with(sep, whole) == whole[0]);
        assert(whole[0] == last);
    } else if parts.len() == 1 {
        assert(whole.skip(1) =~= seq![last]);
        assert(concat_with(sep, whole) == whole[0] + sep + concat_with(sep, whole.skip(1)));
        assert(concat_with(sep, whole) =~= parts[0] + sep + last);
        assert(concat_with(sep, parts) == parts[0]);
    } else {
        lemma_concat_with_push(sep, parts.skip(1), last);
        assert(whole.skip(1) =~= parts.skip(1).push(last));
        assert(concat_with(sep, whole) == whole[0] + sep + concat_with(sep, parts.skip(1).push(last)));
        assert(concat_with(sep, whole) =~= concat_with(sep, parts) + sep + last);
    }
}

} // verus!
