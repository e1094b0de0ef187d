//! Verified character-level string utilities.
//!
//! Tokens in a context are compared, split at their first colon, and
//! concatenated; everything here is specified over the character
//! sequences (`Seq<char>`) that `str` and `String` view to.

use vstd::prelude::*;
use vstd::string::*;

verus! {

/// The position of the first colon in `s` at or after `i`, if any.
pub open spec fn first_colon_from(s: Seq<char>, i: int) -> Option<int>
    decreases s.len() - i,
    when 0 <= i <= s.len()
{
    if i >= s.len() {
        None
    } else if s[i] == ':' {
        Some(i)
    } else {
        first_colon_from(s, i + 1)
    }
}

/// The position of the first colon in `s`, if any.
pub open spec fn first_colon(s: Seq<char>) -> Option<int> {
    first_colon_from(s, 0)
}

/// What a found colon position means: it is in range, holds a colon,
/// and nothing before it does.
pub proof fn lemma_first_colon_props(s: Seq<char>, j: int, i: int)
    requires
        0 <= j <= s.len(),
        first_colon_from(s, j) == Some(i),
    ensures
        j <= i < s.len(),
        s[i] == ':',
        forall|k: int| j <= k < i ==> s[k] != ':',
    decreases s.len() - j,
{
    if j >= s.len() {
    } else if s[j] == ':' {
    } else {
        lemma_first_colon_props(s, j + 1, i);
    }
}

/// Character-wise equality of two string slices.
pub fn str_eq(a: &str, b: &str) -> (r: bool)
    ensures
        r == (a@ == b@),
{
    let na = a.unicode_len();
    let nb = b.unicode_len();
    if na != nb {
        return false;
    }
    let mut i: usize = 0;
    while i < na
        invariant
            na == a@.len(),
            na == b@.len(),
            0 <= i <= na,
            forall|j: int| 0 <= j < i ==> a@[j] == b@[j],
        decreases na - i,
    {
        if a.get_char(i) != b.get_char(i) {
            return false;
        }
        i = i + 1;
    }
    proof {
        assert(a@ =~= b@);
    }
    true
}

/// Finds the first colon of `s`, matching `first_colon`.
pub fn find_colon(s: &str) -> (r: Option<usize>)
    ensures
        match r {
            Some(i) => first_colon(s@) == Some(i as int),
            None => first_colon(s@) is None,
        },
{
    let n = s.unicode_len();
    let mut i: usize = 0;
    while i < n
        invariant
            n == s@.len(),
            0 <= i <= n,
            first_colon(s@) == first_colon_from(s@, i as int),
        decreases n - i,
    {
        if s.get_char(i) == ':' {
            return Some(i);
        }
        i = i + 1;
    }
    None
}

/// Concatenation of two string slices into an owned string.
pub fn concat_str(a: &str, b: &str) -> (r: String)
    ensures
        r@ == a@ + b@,
{
    let owned: String = a.to_owned();
    owned.concat(b)
}

/// Whether one of the strings in `v` has the same characters as `s`.
pub fn contains_str(v: &Vec<String>, s: &str) -> (r: bool)
    ensures
        r == exists|i: int| 0 <= i < v@.len() && v@[i]@ == s@,
{
    let mut i: usize = 0;
    while i < v.len()
        invariant
            0 <= i <= v@.len(),
            forall|j: int| 0 <= j < i ==> v@[j]@ != s@,
        decreases v@.len() - i,
    {
        if str_eq(v[i].as_str(), s) {
            return true;
        }
        i = i + 1;
    }
    false
}

/// An element-wise copy of a vector of strings.
pub fn clone_vec_string(v: &Vec<String>) -> (r: Vec<String>)
    ensures
        r@ == v@,
{
    let mut out: Vec<String> = Vec::new();
    let mut i: usize = 0;
    while i < v.len()
        invariant
            0 <= i <= v@.len(),
            out@.len() == i,
            forall|j: int| 0 <= j < i ==> out@[j] == v@[j],
        decreases v@.len() - i,
    {
        out.push(v[i].clone());
        i = i + 1;
    }
    proof {
        assert(out@ =~= v@);
    }
    out
}

} // verus!
