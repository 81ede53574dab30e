//! File-transfer path handling.
//!
//! A `PUT` sends a bare filename and a target directory; the receiving side
//! joins the two into the destination path. A `GET` names a source path
//! whose base name the controller keeps when it writes its local copy. The
//! rules are byte-level and fixed: `/` separates components, an absolute
//! filename replaces the directory, and a base name is the last component.

use vstd::prelude::*;

verus! {

/// The path component separator: `/`.
pub const PATH_SEP: u8 = 47;

/// The join of a directory and a filename: the filename alone if it is
/// absolute or the directory empty, otherwise the directory, one separator
/// — unless the directory already ends in one — and the filename.
pub open spec fn spec_join_path(dir: Seq<u8>, file: Seq<u8>) -> Seq<u8> {
    if file.len() > 0 && file[0] == PATH_SEP {
        file
    } else if dir.len() == 0 {
        file
    } else if dir.last() == PATH_SEP {
        dir + file
    } else {
        dir + seq![PATH_SEP] + file
    }
}

/// Joins a directory and a filename into one path, as `spec_join_path`
/// describes.
pub fn join_path(dir: &[u8], file: &[u8]) -> (r: Vec<u8>)
    ensures
        r@ == spec_join_path(dir@, file@),
{
    if (file.len() > 0 && file[0] == PATH_SEP) || dir.len() == 0 {
        return vstd::slice::slice_to_vec(file);
    }
    let mut r = vstd::slice::slice_to_vec(dir);
    if dir[dir.len() - 1] != PATH_SEP {
        r.push(PATH_SEP);
        proof {
            assert(r@ =~= dir@ + seq![PATH_SEP]);
        }
    }
    crate::protocol::push_all(&mut r, file);
    r
}

/// Index right after the last separator of `s`: the start of its base name.
/// Zero if there is no separator.
pub open spec fn base_start(s: Seq<u8>) -> int {
    if exists|i: int| 0 <= i < s.len() && s[i] == PATH_SEP {
        (choose|i: int|
            0 <= i < s.len() && s[i] == PATH_SEP && (forall|j: int|
                i < j < s.len() ==> s[j] != PATH_SEP)) + 1
    } else {
        0
    }
}

/// The base name of a path: its last component, the bytes after the last
/// separator.
pub open spec fn spec_base_name(s: Seq<u8>) -> Seq<u8> {
    s.subrange(base_start(s), s.len() as int)
}

/// If `k` is the last separator of `s`, the base name starts right after it.
proof fn lemma_base_start_at(s: Seq<u8>, k: int)
    requires
        0 <= k < s.len(),
        s[k] == PATH_SEP,
        forall|j: int| k < j < s.len() ==> s[j] != PATH_SEP,
    ensures
        base_start(s) == k + 1,
{
    assert(exists|i: int| 0 <= i < s.len() && s[i] == PATH_SEP);
    let w = choose|i: int|
        0 <= i < s.len() && s[i] == PATH_SEP && (forall|j: int|
            i < j < s.len() ==> s[j] != PATH_SEP);
    assert(0 <= w < s.len() && s[w] == PATH_SEP);
    if w < k {
        assert(s[k] != PATH_SEP);
    }
    if w > k {
        assert(s[w] != PATH_SEP);
    }
}

/// A path without separators is its own base name.
proof fn lemma_base_start_none(s: Seq<u8>)
    requires
        forall|j: int| 0 <= j < s.len() ==> s[j] != PATH_SEP,
    ensures
        base_start(s) == 0,
{
    if exists|i: int| 0 <= i < s.len() && s[i] == PATH_SEP {
        let w = choose|i: int| 0 <= i < s.len() && s[i] == PATH_SEP;
        assert(s[w] != PATH_SEP);
    }
}

/// The base name of a path: the bytes after its last separator. Nothing
/// when that is empty — a path ending in a separator, or an empty path,
/// names no file.
pub fn base_name(path: &[u8]) -> (r: Option<Vec<u8>>)
    ensures
        match r {
            Some(v) => v@ == spec_base_name(path@) && v@.len() > 0,
            None => spec_base_name(path@).len() == 0,
        },
{
    let mut start: usize = 0;
    let mut i: usize = 0;
    while i < path.len()
        invariant
            0 <= start <= i <= path@.len(),
            start > 0 ==> path@[start - 1] == PATH_SEP,
            forall|j: int| start <= j < i ==> path@[j] != PATH_SEP,
        decreases path@.len() - i,
    {
        if path[i] == PATH_SEP {
            start = i + 1;
        }
        i = i + 1;
    }
    proof {
        if start > 0 {
            lemma_base_start_at(path@, start - 1);
        } else {
            lemma_base_start_none(path@);
        }
        assert(base_start(path@) == start);
    }
    if start == path.len() {
        return None;
    }
    let mut v: Vec<u8> = Vec::new();
    let mut k: usize = start;
    while k < path.len()
        invariant
            0 <= start <= k <= path@.len(),
            v@ == path@.subrange(start as int, k as int),
        decreases path@.len() - k,
    {
        let b = path[k];
        v.push(b);
        proof {
            assert(path@.subrange(start as int, k as int) + seq![path@[k as int]]
                =~= path@.subrange(start as int, k as int + 1));
        }
        k = k + 1;
    }
    Some(v)
}

} // verus!
