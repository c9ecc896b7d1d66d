//! Path handling: deriving a display name (final component, optionally
//! without its extension) from a path, and building child paths.
//!
//! Paths are plain strings whose components are separated by `/`. The final
//! component of a path is the longest suffix that contains no separator; a
//! path that ends in a separator has no final component.

use vstd::prelude::*;

verus! {

/// `k` is the start of the final component of `s`: everything from `k` on is
/// separator-free, and `k` is either the start of `s` or preceded by `/`.
pub open spec fn valid_name_start(s: Seq<char>, k: int) -> bool {
    &&& 0 <= k <= s.len()
    &&& (k == 0 || s[k - 1] == '/')
    &&& forall|j: int| k <= j < s.len() ==> s[j] != '/'
}

pub proof fn lemma_name_start_exists(s: Seq<char>)
    ensures
        exists|k: int| valid_name_start(s, k),
    decreases s.len(),
{
    if s.len() == 0 {
        assert(valid_name_start(s, 0));
    } else if s[s.len() - 1] == '/' {
        assert(valid_name_start(s, s.len() as int));
    } else {
        let t = s.drop_last();
        lemma_name_start_exists(t);
        let k = choose|k: int| valid_name_start(t, k);
        assert(forall|j: int| k <= j < s.len() - 1 ==> s[j] == t[j]);
        assert(valid_name_start(s, k));
    }
}

pub proof fn lemma_name_start_unique(s: Seq<char>, k1: int, k2: int)
    requires
        valid_name_start(s, k1),
        valid_name_start(s, k2),
    ensures
        k1 == k2,
{
    if k1 < k2 {
        assert(s[k2 - 1] == '/');
    } else if k2 < k1 {
        assert(s[k1 - 1] == '/');
    }
}

/// Start of the final component of `s`.
pub open spec fn name_start(s: Seq<char>) -> int {
    choose|k: int| valid_name_start(s, k)
}

/// The final component of `s` (empty when `s` is empty or ends in `/`).
pub open spec fn file_name_of(s: Seq<char>) -> Seq<char> {
    s.subrange(name_start(s), s.len() as int)
}

/// Whether `s` has a non-empty final component.
pub open spec fn has_file_name(s: Seq<char>) -> bool {
    file_name_of(s).len() > 0
}

/// Returns the final component of `path`.
pub fn file_name(path: &str) -> (r: String)
    ensures
        r@ == file_name_of(path@),
{
    let n = path.unicode_len();
    let mut k: usize = n;
    while k > 0 && path.get_char(k - 1) != '/'
        invariant
            k <= n,
            n == path@.len(),
            forall|j: int| k <= j < n ==> path@[j] != '/',
        decreases k,
    {
        k -= 1;
    }
    proof {
        assert(valid_name_start(path@, k as int));
        lemma_name_start_exists(path@);
        lemma_name_start_unique(path@, k as int, name_start(path@));
    }
    let r = path.substring_char(k, n);
    r.to_owned()
}

/// `k` is the end of the stem of the file name `nm`: either the position of
/// the last `.` that is not at the start of the name, or the whole name when
/// no such `.` exists.
pub open spec fn valid_stem_end(nm: Seq<char>, k: int) -> bool {
    ||| (k == nm.len() && nm.len() >= 1 && forall|j: int| 1 <= j < nm.len() ==> nm[j] != '.')
    ||| (1 <= k < nm.len() && nm[k] == '.' && forall|j: int| k < j < nm.len() ==> nm[j] != '.')
}

pub proof fn lemma_stem_end_exists(nm: Seq<char>)
    requires
        nm.len() >= 1,
    ensures
        exists|k: int| valid_stem_end(nm, k),
    decreases nm.len(),
{
    if nm.len() == 1 {
        assert(valid_stem_end(nm, 1));
    } else if nm[nm.len() - 1] == '.' {
        assert(valid_stem_end(nm, nm.len() - 1));
    } else {
        let t = nm.drop_last();
        lemma_stem_end_exists(t);
        let k = choose|k: int| valid_stem_end(t, k);
        assert(forall|j: int| 0 <= j < nm.len() - 1 ==> nm[j] == t[j]);
        if k == t.len() {
            assert(valid_stem_end(nm, nm.len() as int));
        } else {
            assert(valid_stem_end(nm, k));
        }
    }
}

pub proof fn lemma_stem_end_unique(nm: Seq<char>, k1: int, k2: int)
    requires
        valid_stem_end(nm, k1),
        valid_stem_end(nm, k2),
    ensures
        k1 == k2,
{
    if k1 < k2 {
        if k2 == nm.len() {
            assert(nm[k1] == '.');
        } else {
            assert(nm[k2] == '.');
        }
    } else if k2 < k1 {
        if k1 == nm.len() {
            assert(nm[k2] == '.');
        } else {
            assert(nm[k1] == '.');
        }
    }
}

/// End of the stem of the file name `nm`.
pub open spec fn stem_end(nm: Seq<char>) -> int {
    choose|k: int| valid_stem_end(nm, k)
}

/// The stem of the file name `nm`: the name without its extension. A name
/// whose only `.` is its first character is its own stem.
pub open spec fn stem_of(nm: Seq<char>) -> Seq<char> {
    nm.subrange(0, stem_end(nm))
}

/// Returns the stem of the file name `name`.
pub fn file_stem(name: &str) -> (r: String)
    requires
        name@.len() >= 1,
    ensures
        r@ == stem_of(name@),
{
    let n = name.unicode_len();
    let mut k: usize = n;
    while k > 1 && name.get_char(k - 1) != '.'
        invariant
            1 <= k <= n,
            n == name@.len(),
            forall|j: int| k <= j < n ==> name@[j] != '.',
        decreases k,
    {
        k -= 1;
    }
    let e: usize = if k > 1 {
        k - 1
    } else {
        n
    };
    proof {
        if k > 1 {
            assert(valid_stem_end(name@, k - 1));
        } else {
            assert(valid_stem_end(name@, n as int));
        }
        lemma_stem_end_exists(name@);
        lemma_stem_end_unique(name@, e as int, stem_end(name@));
    }
    let r = name.substring_char(0, e);
    r.to_owned()
}

/// Builds the path of a directory entry: the parent path, a separator, and
/// the entry name.
pub fn child_path(parent: &str, name: &str) -> (r: String)
    ensures
        r@ == parent@ + seq!['/'] + name@,
{
    proof {
        reveal_strlit("/");
    }
    let mut s = parent.to_owned();
    s.append("/");
    s.append(name);
    proof {
        assert("/"@ =~= seq!['/']);
        assert(s@ =~= parent@ + seq!['/'] + name@);
    }
    s
}

/// A usable directory-entry name: non-empty and free of separators.
pub open spec fn valid_entry_name(nm: Seq<char>) -> bool {
    nm.len() > 0 && forall|j: int| 0 <= j < nm.len() ==> nm[j] != '/'
}

/// The final component of a child path built from a valid entry name is that
/// name itself.
pub proof fn lemma_child_path_name(parent: Seq<char>, nm: Seq<char>)
    requires
        valid_entry_name(nm),
    ensures
        file_name_of(parent + seq!['/'] + nm) == nm,
        has_file_name(parent + seq!['/'] + nm),
{
    let p = parent + seq!['/'] + nm;
    let k = parent.len() + 1;
    assert(p[k - 1] == '/');
    assert(forall|j: int| k <= j < p.len() ==> p[j] == nm[j - k]);
    assert(valid_name_start(p, k as int));
    lemma_name_start_exists(p);
    lemma_name_start_unique(p, k as int, name_start(p));
    assert(file_name_of(p) =~= nm);
}

} // verus!
