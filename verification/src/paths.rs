//! The path rule shared with the directory walker: which directories
//! a recursive traversal may descend into.

use vstd::prelude::*;
use vstd::slice::slice_index_get;

verus! {

/// Whether `suffix` ends the byte string `s`.
pub open spec fn ends_with(s: Seq<u8>, suffix: Seq<u8>) -> bool {
    suffix.len() <= s.len() && s.subrange(s.len() - suffix.len(), s.len() as int) == suffix
}

/// Whether one byte string ends with another.
pub fn ends_with_exec(s: &[u8], suffix: &[u8]) -> (r: bool)
    ensures
        r == ends_with(s@, suffix@),
{
    let n = s.len();
    let m = suffix.len();
    if m > n {
        return false;
    }
    let mut i: usize = 0;
    while i < m
        invariant
            m <= n == s@.len(),
            m == suffix@.len(),
            i <= m,
            forall|j: int| 0 <= j < i ==> s@[n - m + j] == suffix@[j],
        decreases m - i,
    {
        if *slice_index_get(s, n - m + i) != *slice_index_get(suffix, i) {
            proof {
                assert(s@.subrange(n - m, n as int)[i as int] != suffix@[i as int]);
            }
            return false;
        }
        i = i + 1;
    }
    proof {
        assert(s@.subrange(n - m, n as int) =~= suffix@);
    }
    true
}

/// The bytes of `/.git`.
pub open spec fn git_suffix() -> Seq<u8> {
    seq![47u8, 46u8, 103u8, 105u8, 116u8]
}

/// The bytes of `/vendor`.
pub open spec fn vendor_suffix() -> Seq<u8> {
    seq![47u8, 118u8, 101u8, 110u8, 100u8, 111u8, 114u8]
}

/// The bytes of `/var/cache`.
pub open spec fn var_cache_suffix() -> Seq<u8> {
    seq![47u8, 118u8, 97u8, 114u8, 47u8, 99u8, 97u8, 99u8, 104u8, 101u8]
}

fn suffix_git() -> (v: Vec<u8>)
    ensures
        v@ == git_suffix(),
{
    let mut v: Vec<u8> = Vec::new();
    v.push(47);
    v.push(46);
    v.push(103);
    v.push(105);
    v.push(116);
    proof {
        assert(v@ =~= git_suffix());
    }
    v
}

fn suffix_vendor() -> (v: Vec<u8>)
    ensures
        v@ == vendor_suffix(),
{
    let mut v: Vec<u8> = Vec::new();
    v.push(47);
    v.push(118);
    v.push(101);
    v.push(110);
    v.push(100);
    v.push(111);
    v.push(114);
    proof {
        assert(v@ =~= vendor_suffix());
    }
    v
}

fn suffix_var_cache() -> (v: Vec<u8>)
    ensures
        v@ == var_cache_suffix(),
{
    let mut v: Vec<u8> = Vec::new();
    v.push(47);
    v.push(118);
    v.push(97);
    v.push(114);
    v.push(47);
    v.push(99);
    v.push(97);
    v.push(99);
    v.push(104);
    v.push(101);
    proof {
        assert(v@ =~= var_cache_suffix());
    }
    v
}

/// Whether a directory may be descended into: version-control,
/// vendored-dependency and cache directories are excluded.
pub fn allowed_dir(dname: &[u8]) -> (r: bool)
    ensures
        r == (!ends_with(dname@, git_suffix()) && !ends_with(dname@, vendor_suffix())
            && !ends_with(dname@, var_cache_suffix())),
{
    let git = suffix_git();
    let vendor = suffix_vendor();
    let var_cache = suffix_var_cache();
    !ends_with_exec(dname, git.as_slice()) && !ends_with_exec(dname, vendor.as_slice())
        && !ends_with_exec(dname, var_cache.as_slice())
}

} // verus!
