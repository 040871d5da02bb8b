//! Comparing characters and strings.

use vstd::prelude::*;

verus! {

/// Exact equality of two character slices.
pub fn chars_eq(a: &[char], b: &[char]) -> (res: bool)
    ensures
        res == (a@ == b@),
{
    let n = a.len();
    if n != b.len() {
        return false;
    }
    let mut i: usize = 0;
    while i < n
        invariant
            n == a@.len(),
            n == b@.len(),
            i <= n,
            forall|j: int| 0 <= j < i ==> a@[j] == b@[j],
        decreases n - i,
    {
        if a[i] != b[i] {
            return false;
        }
        i = i + 1;
    }
    assert(a@ =~= b@);
    true
}

/// The characters of a string, in a vector.
pub fn str_to_chars(s: &str) -> (v: Vec<char>)
    ensures
        v@ == s@,
{
    let n = s.unicode_len();
    let mut v: Vec<char> = Vec::new();
    let mut i: usize = 0;
    while i < n
        invariant
            n == s@.len(),
            i <= n,
            v@ == s@.subrange(0, i as int),
        decreases n - i,
    {
        v.push(s.get_char(i));
        i = i + 1;
    }
    assert(v@ =~= s@);
    v
}

/// A character folded to lower case in the ASCII range only.
pub open spec fn ascii_fold(c: char) -> int {
    if 'A' <= c && c <= 'Z' {
        c as int + 32
    } else {
        c as int
    }
}

/// Equality of two character sequences up to ASCII case.
pub open spec fn eq_ignore_ascii_case(a: Seq<char>, b: Seq<char>) -> bool {
    &&& a.len() == b.len()
    &&& forall|i: int| 0 <= i < a.len() ==> ascii_fold(#[trigger] a[i]) == ascii_fold(b[i])
}

fn ascii_fold_exec(c: char) -> (r: u32)
    ensures
        r == ascii_fold(c),
{
    if 'A' <= c && c <= 'Z' {
        c as u32 + 32
    } else {
        c as u32
    }
}

/// Compare a character slice with a string, ignoring ASCII case.
pub fn eq_ignore_ascii_case_str(chars: &[char], other: &str) -> (res: bool)
    ensures
        res == eq_ignore_ascii_case(chars@, other@),
{
    let n = chars.len();
    if n != other.unicode_len() {
        return false;
    }
    let mut i: usize = 0;
    while i < n
        invariant
            n == chars@.len(),
            n == other@.len(),
            i <= n,
            forall|j: int| 0 <= j < i ==> ascii_fold(#[trigger] chars@[j]) == ascii_fold(other@[j]),
        decreases n - i,
    {
        if ascii_fold_exec(chars[i]) != ascii_fold_exec(other.get_char(i)) {
            return false;
        }
        i = i + 1;
    }
    true
}

/// Exact equality of a character slice with a string.
pub fn chars_eq_str(chars: &[char], other: &str) -> (res: bool)
    ensures
        res == (chars@ == other@),
{
    let n = chars.len();
    if n != other.unicode_len() {
        return false;
    }
    let mut i: usize = 0;
    while i < n
        invariant
            n == chars@.len(),
            n == other@.len(),
            i <= n,
            forall|j: int| 0 <= j < i ==> chars@[j] == other@[j],
        decreases n - i,
    {
        if chars[i] != other.get_char(i) {
            return false;
        }
        i = i + 1;
    }
    assert(chars@ =~= other@);
    true
}

} // verus!
