//! Small verified helpers on character vectors. Request texts, worker
//! URLs and user ids are handled as vectors of Unicode scalar values, so
//! that every length in the crate is a character count.

use vstd::prelude::*;
use vstd::string::StrSliceExecFns;

verus! {

/// Character-wise equality of two character vectors.
pub fn chars_eq(a: &Vec<char>, b: &Vec<char>) -> (r: bool)
    ensures
        r == (a@ == b@),
{
    if a.len() != b.len() {
        return false;
    }
    let mut i: usize = 0;
    while i < a.len()
        invariant
            a@.len() == b@.len(),
            i <= a@.len(),
            forall|j: int| 0 <= j < i ==> a@[j] == b@[j],
        decreases a@.len() - i,
    {
        if a[i] != b[i] {
            return false;
        }
        i += 1;
    }
    proof {
        assert(a@ =~= b@);
    }
    true
}

/// True when the characters of `p` start the characters of `t`.
pub fn is_prefix_vec(p: &Vec<char>, t: &Vec<char>) -> (r: bool)
    ensures
        r == p@.is_prefix_of(t@),
{
    if p.len() > t.len() {
        return false;
    }
    let mut i: usize = 0;
    while i < p.len()
        invariant
            p@.len() <= t@.len(),
            i <= p@.len(),
            forall|j: int| 0 <= j < i ==> p@[j] == t@[j],
        decreases p@.len() - i,
    {
        if p[i] != t[i] {
            proof {
                assert(t@.subrange(0, p@.len() as int)[i as int] == t@[i as int]);
            }
            return false;
        }
        i += 1;
    }
    proof {
        assert(p@ =~= t@.subrange(0, p@.len() as int));
    }
    true
}

/// The first `k` characters of `t`, as a fresh vector.
pub fn prefix_vec(t: &Vec<char>, k: usize) -> (r: Vec<char>)
    requires
        k <= t@.len(),
    ensures
        r@ == t@.subrange(0, k as int),
{
    let mut r: Vec<char> = Vec::new();
    let mut i: usize = 0;
    while i < k
        invariant
            k <= t@.len(),
            i <= k,
            r@.len() == i,
            forall|j: int| 0 <= j < i ==> r@[j] == t@[j],
        decreases k - i,
    {
        r.push(t[i]);
        i += 1;
    }
    proof {
        assert(r@ =~= t@.subrange(0, k as int));
    }
    r
}

/// The characters of a string slice, as a vector of Unicode scalar values.
pub fn chars_vec(s: &str) -> (r: Vec<char>)
    ensures
        r@ == s@,
{
    let n = s.unicode_len();
    let mut r: Vec<char> = Vec::new();
    let mut i: usize = 0;
    while i < n
        invariant
            n == s@.len(),
            i <= n,
            r@.len() == i,
            forall|j: int| 0 <= j < i ==> r@[j] == s@[j],
        decreases n - i,
    {
        r.push(s.get_char(i));
        i += 1;
    }
    proof {
        assert(r@ =~= s@);
    }
    r
}

} // verus!
