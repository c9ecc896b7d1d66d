//! Directory listings: the raw entries handed in by the host after a
//! directory scan, the visibility filter for hidden entries, and the display
//! order (directories before the rest, each group case-insensitively by
//! name).

use vstd::prelude::*;
use vstd::multiset::Multiset;
use vstd::relations::sorted_by;
use vstd::seq_lib::group_to_multiset_ensures;

verus! {

/// What a scanned directory entry turned out to be. Entries whose type query
/// failed are expected to be dropped by the host before they reach the tree;
/// an entry that is neither a regular file nor a directory is `Other` and
/// becomes an error placeholder in the child list.
#[derive(PartialEq, Eq, Structural, Clone, Copy, Debug)]
pub enum EntryKind {
    Directory,
    RegularFile,
    Other,
}

/// One (name, kind) pair from a directory scan.
#[derive(Debug)]
pub struct RawEntry {
    pub name: String,
    pub kind: EntryKind,
}

/// ASCII-lowercased code point of `c`.
pub open spec fn lower_val(c: char) -> int {
    if 65 <= c as int && c as int <= 90 {
        c as int + 32
    } else {
        c as int
    }
}

/// Case-insensitive lexicographic order on names.
pub open spec fn lower_le(a: Seq<char>, b: Seq<char>) -> bool
    decreases a.len(),
{
    if a.len() == 0 {
        true
    } else if b.len() == 0 {
        false
    } else if lower_val(a[0]) < lower_val(b[0]) {
        true
    } else if lower_val(b[0]) < lower_val(a[0]) {
        false
    } else {
        lower_le(a.drop_first(), b.drop_first())
    }
}

pub proof fn lemma_lower_le_total(a: Seq<char>, b: Seq<char>)
    ensures
        lower_le(a, b) || lower_le(b, a),
    decreases a.len(),
{
    if a.len() > 0 && b.len() > 0 && lower_val(a[0]) == lower_val(b[0]) {
        lemma_lower_le_total(a.drop_first(), b.drop_first());
    }
}

pub proof fn lemma_lower_le_trans(a: Seq<char>, b: Seq<char>, c: Seq<char>)
    requires
        lower_le(a, b),
        lower_le(b, c),
    ensures
        lower_le(a, c),
    decreases a.len(),
{
    if a.len() > 0 && b.len() > 0 && c.len() > 0 && lower_val(a[0]) == lower_val(b[0])
        && lower_val(b[0]) == lower_val(c[0]) {
        lemma_lower_le_trans(a.drop_first(), b.drop_first(), c.drop_first());
    }
}

/// Directories sort before everything else.
pub open spec fn kind_rank(k: EntryKind) -> int {
    match k {
        EntryKind::Directory => 0,
        EntryKind::RegularFile => 1,
        EntryKind::Other => 1,
    }
}

/// The display order of two scanned entries.
pub open spec fn entry_le(a: RawEntry, b: RawEntry) -> bool {
    ||| kind_rank(a.kind) < kind_rank(b.kind)
    ||| (kind_rank(a.kind) == kind_rank(b.kind) && lower_le(a.name@, b.name@))
}

/// A name is hidden when it starts with a dot.
pub open spec fn hidden_name(nm: Seq<char>) -> bool {
    nm.len() > 0 && nm[0] == '.'
}

/// Whether a scanned entry survives the hidden-entry filter.
pub open spec fn visible(e: RawEntry, show_hidden: bool) -> bool {
    show_hidden || !hidden_name(e.name@)
}

/// Returns the ASCII-lowercased code point of `c`.
pub fn lower_char_val(c: char) -> (v: u32)
    ensures
        v as int == lower_val(c),
{
    let u = c as u32;
    if 65 <= u && u <= 90 {
        u + 32
    } else {
        u
    }
}

/// Compares two names case-insensitively.
pub fn name_le(a: &str, b: &str) -> (r: bool)
    ensures
        r == lower_le(a@, b@),
{
    let alen = a.unicode_len();
    let blen = b.unicode_len();
    let mut i: usize = 0;
    proof {
        assert(a@.skip(0) =~= a@);
        assert(b@.skip(0) =~= b@);
    }
    loop
        invariant
            i <= alen,
            i <= blen,
            alen == a@.len(),
            blen == b@.len(),
            lower_le(a@, b@) == lower_le(a@.skip(i as int), b@.skip(i as int)),
        decreases alen - i,
    {
        if i >= alen {
            proof {
                assert(a@.skip(i as int).len() == 0);
            }
            return true;
        }
        if i >= blen {
            proof {
                assert(b@.skip(i as int).len() == 0);
                assert(a@.skip(i as int).len() > 0);
            }
            return false;
        }
        let ca = lower_char_val(a.get_char(i));
        let cb = lower_char_val(b.get_char(i));
        proof {
            assert(a@.skip(i as int)[0] == a@[i as int]);
            assert(b@.skip(i as int)[0] == b@[i as int]);
        }
        if ca < cb {
            return true;
        }
        if cb < ca {
            return false;
        }
        proof {
            assert(a@.skip(i as int).drop_first() =~= a@.skip(i + 1));
            assert(b@.skip(i as int).drop_first() =~= b@.skip(i + 1));
        }
        i += 1;
    }
}

/// Compares two scanned entries in display order.
pub fn entry_le_exec(a: &RawEntry, b: &RawEntry) -> (r: bool)
    ensures
        r == entry_le(*a, *b),
{
    let ra: u8 = match a.kind {
        EntryKind::Directory => 0,
        _ => 1,
    };
    let rb: u8 = match b.kind {
        EntryKind::Directory => 0,
        _ => 1,
    };
    if ra < rb {
        true
    } else if rb < ra {
        false
    } else {
        name_le(a.name.as_str(), b.name.as_str())
    }
}

/// Keeps the entries that survive the hidden-entry filter, in order.
pub fn filter_visible(entries: Vec<RawEntry>, show_hidden: bool) -> (r: Vec<RawEntry>)
    ensures
        r@ == entries@.filter(|e: RawEntry| visible(e, show_hidden)),
{
    broadcast use Seq::filter_distributes_over_add;

    let ghost orig = entries@;
    let ghost pred = |e: RawEntry| visible(e, show_hidden);
    let mut rest = entries;
    let mut r: Vec<RawEntry> = Vec::new();
    while rest.len() > 0
        invariant
            orig =~= orig.subrange(0, orig.len() - rest.len()) + rest@,
            r@ == orig.subrange(0, orig.len() - rest.len()).filter(pred),
            pred == (|e: RawEntry| visible(e, show_hidden)),
        decreases rest.len(),
    {
        let ghost k = orig.len() - rest.len();
        let e = rest.remove(0);
        let keep = if show_hidden {
            true
        } else {
            let nm = e.name.as_str();
            if nm.unicode_len() == 0 {
                true
            } else {
                nm.get_char(0) != '.'
            }
        };
        proof {
            assert(orig[k] == e);
            assert(keep == pred(e));
            assert(orig.subrange(0, k + 1) =~= orig.subrange(0, k) + seq![e]);
            assert(seq![e].drop_last() =~= Seq::<RawEntry>::empty());
            if pred(e) {
                assert(seq![e].filter(pred) =~= seq![e]) by {
                    reveal_with_fuel(Seq::filter, 2);
                }
            } else {
                assert(seq![e].filter(pred) =~= Seq::<RawEntry>::empty()) by {
                    reveal_with_fuel(Seq::filter, 2);
                }
            }
            assert(orig =~= orig.subrange(0, k + 1) + rest@);
        }
        if keep {
            r.push(e);
        }
    }
    proof {
        assert(orig.subrange(0, orig.len() as int) =~= orig);
    }
    r
}

/// Sorts scanned entries into display order: directories first, then the
/// rest, each group case-insensitively by name. The result holds exactly the
/// given entries.
pub fn sort_entries(entries: Vec<RawEntry>) -> (r: Vec<RawEntry>)
    ensures
        sorted_by(r@, |a: RawEntry, b: RawEntry| entry_le(a, b)),
        r@.to_multiset() == entries@.to_multiset(),
{
    broadcast use group_to_multiset_ensures;

    let ghost le = |a: RawEntry, b: RawEntry| entry_le(a, b);
    let ghost orig = entries@;
    let mut rest = entries;
    let mut out: Vec<RawEntry> = Vec::new();
    while rest.len() > 0
        invariant
            sorted_by(out@, le),
            out@.to_multiset().add(rest@.to_multiset()) =~= orig.to_multiset(),
            forall|i: int, j: int|
                0 <= i < out@.len() && 0 <= j < rest@.len() ==> le(out@[i], rest@[j]),
            le == (|a: RawEntry, b: RawEntry| entry_le(a, b)),
        decreases rest.len(),
    {
        // find the index of a minimal remaining entry
        let mut m: usize = 0;
        let mut j: usize = 1;
        proof {
            lemma_entry_le_total(rest@[0], rest@[0]);
        }
        while j < rest.len()
            invariant
                m < rest@.len(),
                1 <= j <= rest@.len(),
                forall|i: int| 0 <= i < j ==> le(rest@[m as int], rest@[i]),
                le == (|a: RawEntry, b: RawEntry| entry_le(a, b)),
            decreases rest@.len() - j,
        {
            if entry_le_exec(&rest[j], &rest[m]) {
                proof {
                    assert forall|i: int| 0 <= i < j + 1 implies le(rest@[j as int], rest@[i]) by {
                        if i < j {
                            lemma_entry_le_trans(rest@[j as int], rest@[m as int], rest@[i]);
                        } else {
                            lemma_entry_le_total(rest@[j as int], rest@[j as int]);
                        }
                    }
                }
                m = j;
            } else {
                proof {
                    lemma_entry_le_total(rest@[m as int], rest@[j as int]);
                }
            }
            j += 1;
        }
        let ghost prev_rest = rest@;
        let ghost prev_out = out@;
        let e = rest.remove(m);
        out.push(e);
        proof {
            // ordering: everything already placed is at most e, and e is at
            // most everything still waiting
            assert(forall|i: int| 0 <= i < prev_out.len() ==> le(prev_out[i], e));
            assert forall|i: int, jj: int|
                0 <= i < out@.len() && 0 <= jj < rest@.len() implies le(out@[i], rest@[jj]) by {
                assert(rest@[jj] == if jj < m { prev_rest[jj] } else { prev_rest[jj + 1] });
                if i < prev_out.len() {
                    assert(le(prev_out[i], rest@[jj]));
                    assert(out@[i] == prev_out[i]);
                } else {
                    assert(out@[i] == e);
                    assert(le(e, rest@[jj]));
                }
            }
            assert(sorted_by(out@, le)) by {
                assert forall|i: int, jj: int| 0 <= i < jj < out@.len() implies le(
                    out@[i],
                    out@[jj],
                ) by {
                    if jj < out@.len() - 1 {
                        assert(le(prev_out[i], prev_out[jj]));
                    } else {
                        assert(out@[jj] == e);
                        assert(le(prev_out[i], e));
                    }
                }
            }
            // the multiset is preserved: e moved from rest to out
            prev_rest.to_multiset_ensures();
            prev_out.to_multiset_ensures();
            assert(prev_rest.to_multiset().contains(e)) by {
                assert(prev_rest[m as int] == e);
                assert(prev_rest.contains(e));
            }
            assert(rest@.to_multiset() =~= prev_rest.to_multiset().remove(e));
            assert(out@.to_multiset() =~= prev_out.to_multiset().insert(e));
            assert(out@.to_multiset().add(rest@.to_multiset()) =~= orig.to_multiset());
        }
    }
    proof {
        assert(rest@.to_multiset() =~= Multiset::<RawEntry>::empty());
        assert(out@.to_multiset() =~= orig.to_multiset());
    }
    out
}

/// Sequences holding the same elements (as a multiset) keep the same
/// number of elements satisfying any predicate.
pub proof fn lemma_multiset_eq_filter_len<A>(a: Seq<A>, b: Seq<A>, p: spec_fn(A) -> bool)
    requires
        a.to_multiset() == b.to_multiset(),
    ensures
        a.filter(p).len() == b.filter(p).len(),
    decreases a.len(),
{
    broadcast use group_to_multiset_ensures;
    broadcast use Seq::filter_distributes_over_add;

    reveal(Seq::filter);
    a.to_multiset_ensures();
    b.to_multiset_ensures();
    if a.len() == 0 {
        assert(b.len() == 0);
        assert(a.filter(p).len() == 0);
        assert(b.filter(p).len() == 0);
    } else {
        let x = a.last();
        let a2 = a.drop_last();
        assert(a =~= a2.push(x));
        a2.to_multiset_ensures();
        assert(a.to_multiset() =~= a2.to_multiset().insert(x));
        assert(b.to_multiset().count(x) > 0);
        assert(b.contains(x));
        let j = choose|j: int| 0 <= j < b.len() && b[j] == x;
        let b2 = b.remove(j);
        b2.to_multiset_ensures();
        assert(b2.to_multiset() =~= b.to_multiset().remove(x));
        assert(a2.to_multiset() =~= b2.to_multiset());
        lemma_multiset_eq_filter_len(a2, b2, p);
        let unit = seq![x];
        assert(unit.drop_last() =~= Seq::<A>::empty());
        if p(x) {
            assert(unit.filter(p) =~= unit) by {
                reveal_with_fuel(Seq::filter, 2);
            }
        } else {
            assert(unit.filter(p) =~= Seq::<A>::empty()) by {
                reveal_with_fuel(Seq::filter, 2);
            }
        }
        assert(a.filter(p) =~= a2.filter(p) + unit.filter(p)) by {
            assert(a =~= a2 + unit);
        }
        assert(b =~= b.subrange(0, j) + unit + b.subrange(j + 1, b.len() as int));
        assert(b2 =~= b.subrange(0, j) + b.subrange(j + 1, b.len() as int));
        assert(b.filter(p).len() == b.subrange(0, j).filter(p).len() + unit.filter(p).len()
            + b.subrange(j + 1, b.len() as int).filter(p).len());
        assert(b2.filter(p).len() == b.subrange(0, j).filter(p).len() + b.subrange(
            j + 1,
            b.len() as int,
        ).filter(p).len());
    }
}

/// Two aligned sequences whose elements satisfy their predicates at the
/// same positions keep the same filter count.
pub proof fn lemma_filter_len_pointwise<A, B>(
    a: Seq<A>,
    b: Seq<B>,
    p: spec_fn(A) -> bool,
    q: spec_fn(B) -> bool,
)
    requires
        a.len() == b.len(),
        forall|i: int| 0 <= i < a.len() ==> (p(#[trigger] a[i]) <==> q(#[trigger] b[i])),
    ensures
        a.filter(p).len() == b.filter(q).len(),
    decreases a.len(),
{
    reveal(Seq::filter);
    if a.len() > 0 {
        assert(forall|i: int| 0 <= i < a.len() - 1 ==> #[trigger] a.drop_last()[i] == a[i]);
        assert(forall|i: int| 0 <= i < b.len() - 1 ==> #[trigger] b.drop_last()[i] == b[i]);
        lemma_filter_len_pointwise(a.drop_last(), b.drop_last(), p, q);
        assert(a.filter(p) == if p(a.last()) {
            a.drop_last().filter(p).push(a.last())
        } else {
            a.drop_last().filter(p)
        });
        assert(b.filter(q) == if q(b.last()) {
            b.drop_last().filter(q).push(b.last())
        } else {
            b.drop_last().filter(q)
        });
        assert(p(a.last()) <==> q(b.last()));
    }
}

pub proof fn lemma_entry_le_total(a: RawEntry, b: RawEntry)
    ensures
        entry_le(a, b) || entry_le(b, a),
{
    lemma_lower_le_total(a.name@, b.name@);
}

pub proof fn lemma_entry_le_trans(a: RawEntry, b: RawEntry, c: RawEntry)
    requires
        entry_le(a, b),
        entry_le(b, c),
    ensures
        entry_le(a, c),
{
    if kind_rank(a.kind) == kind_rank(b.kind) && kind_rank(b.kind) == kind_rank(c.kind) {
        lemma_lower_le_trans(a.name@, b.name@, c.name@);
    }
}

} // verus!
