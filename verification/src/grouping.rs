//! Grouping fingerprinted files into duplicate groups.
//!
//! Given the fingerprinted files discovered under a root, `find_duplicates`
//! maps each fingerprint shared by at least two files to the files bearing
//! it; fingerprints held by a single file are dropped. Grouping is a pure
//! function of the entries handed in: which files end up grouped together
//! does not depend on the order in which they were fingerprinted, a fact
//! `lemma_grouping_deterministic` states precisely.

use vstd::prelude::*;
use vstd::seq_lib::group_filter_ensures;
use vstd::seq_lib::group_to_multiset_ensures;
use vstd::multiset::group_multiset_axioms;
use crate::fingerprint::{FileEntry, FileStats};

verus! {

/// The files sharing one fingerprint, in the order they were handed in.
pub struct DuplicateGroup {
    pub stats: FileStats,
    pub files: Vec<FileEntry>,
}

/// The entries of `entries` whose fingerprint is `s`, in input order.
pub open spec fn entries_with(entries: Seq<FileEntry>, s: FileStats) -> Seq<FileEntry> {
    entries.filter(|e: FileEntry| e.stats == s)
}

/// What a duplicate grouping of `entries` is: every group holds exactly the
/// entries bearing its fingerprint; every group has at least two members; no
/// two groups share a fingerprint; and every fingerprint borne by at least
/// two entries has a group. This pins the result down to the order of the
/// groups.
pub open spec fn is_duplicate_grouping(entries: Seq<FileEntry>, groups: Seq<DuplicateGroup>) -> bool {
    &&& (forall|i: int| 0 <= i < groups.len() ==> (#[trigger] groups[i]).files@
        == entries_with(entries, groups[i].stats))
    &&& (forall|i: int| 0 <= i < groups.len() ==> (#[trigger] groups[i]).files@.len() >= 2)
    &&& (forall|i: int, j: int| 0 <= i < groups.len() && 0 <= j < groups.len() && i != j
        ==> (#[trigger] groups[i]).stats != (#[trigger] groups[j]).stats)
    &&& (forall|s: FileStats| #[trigger] entries_with(entries, s).len() >= 2
        ==> exists|i: int| 0 <= i < groups.len() && (#[trigger] groups[i]).stats == s)
}

/// Filtering a sequence commutes with pushing one element on the end.
proof fn lemma_filter_push<A>(s: Seq<A>, pred: spec_fn(A) -> bool, e: A)
    ensures
        s.push(e).filter(pred) == if pred(e) {
            s.filter(pred).push(e)
        } else {
            s.filter(pred)
        },
{
    reveal(Seq::filter);
    assert(s.push(e).drop_last() =~= s);
    assert(s.push(e).last() == e);
}

/// The index of the group bearing fingerprint `s`, if any group does.
fn find_group(acc: &Vec<DuplicateGroup>, s: FileStats) -> (r: Option<usize>)
    ensures
        match r {
            Some(j) => 0 <= j < acc@.len() && acc@[j as int].stats == s,
            None => forall|i: int| 0 <= i < acc@.len() ==> (#[trigger] acc@[i]).stats != s,
        },
{
    let mut j: usize = 0;
    while j < acc.len()
        invariant
            j <= acc@.len(),
            forall|i: int| 0 <= i < j ==> (#[trigger] acc@[i]).stats != s,
        decreases acc@.len() - j,
    {
        if acc[j].stats == s {
            return Some(j);
        }
        j = j + 1;
    }
    None
}

/// Group the fingerprinted files: the result maps each fingerprint borne by
/// at least two of `entries` to exactly the entries bearing it, in input
/// order; fingerprints borne by a single entry appear nowhere.
#[verifier::loop_isolation(false)]
pub fn find_duplicates(entries: Vec<FileEntry>) -> (groups: Vec<DuplicateGroup>)
    ensures
        is_duplicate_grouping(entries@, groups@),
{
    let mut acc: Vec<DuplicateGroup> = Vec::new();
    let mut idx: usize = 0;
    while idx < entries.len()
        invariant
            idx <= entries@.len(),
            forall|i: int| 0 <= i < acc@.len() ==> (#[trigger] acc@[i]).files@
                == entries_with(entries@.take(idx as int), acc@[i].stats),
            forall|i: int| 0 <= i < acc@.len() ==> (#[trigger] acc@[i]).files@.len() >= 1,
            forall|i: int, j: int| 0 <= i < acc@.len() && 0 <= j < acc@.len() && i != j
                ==> (#[trigger] acc@[i]).stats != (#[trigger] acc@[j]).stats,
            forall|s: FileStats| #[trigger] entries_with(entries@.take(idx as int), s).len() > 0
                ==> exists|i: int| 0 <= i < acc@.len() && (#[trigger] acc@[i]).stats == s,
        decreases entries@.len() - idx,
    {
        let ghost prefix = entries@.take(idx as int);
        let ghost acc_old = acc@;
        let e = entries[idx].clone();
        let s = e.stats;
        assert(e == entries@[idx as int]);
        proof {
            assert(entries@.take(idx + 1) =~= prefix.push(entries@[idx as int]));
            assert forall|t: FileStats| true implies #[trigger] entries_with(entries@.take(idx + 1), t)
                == (if t == s {
                    entries_with(prefix, t).push(entries@[idx as int])
                } else {
                    entries_with(prefix, t)
                }) by {
                lemma_filter_push(prefix, |x: FileEntry| x.stats == t, entries@[idx as int]);
            }
        }
        match find_group(&acc, s) {
            Some(j) => {
                let mut g = acc.remove(j);
                g.files.push(e);
                acc.push(g);
                proof {
                    assert forall|i: int| 0 <= i < acc@.len() implies (#[trigger] acc@[i]).files@
                        == entries_with(entries@.take(idx + 1), acc@[i].stats) by {
                        if i < acc@.len() - 1 {
                            let gi = acc@[i];
                            assert(exists|k: int| 0 <= k < acc_old.len()
                                && acc_old[k] == gi && k != j) by {
                                if i < j {
                                    assert(acc_old[i] == gi);
                                } else {
                                    assert(acc_old[i + 1] == gi);
                                }
                            }
                            let k = choose|k: int| 0 <= k < acc_old.len() && acc_old[k] == gi && k != j;
                            assert(gi.stats != s);
                        } else {
                            assert(acc@[i].files@ == acc_old[j as int].files@.push(entries@[idx as int]));
                        }
                    }
                    assert forall|i: int, j2: int| 0 <= i < acc@.len() && 0 <= j2 < acc@.len() && i != j2
                        implies (#[trigger] acc@[i]).stats != (#[trigger] acc@[j2]).stats by {
                        let old_of = |m: int| if m < j as int { m } else if m == acc@.len() - 1 { j as int } else { m + 1 };
                        assert(acc@[i].stats == acc_old[old_of(i)].stats);
                        assert(acc@[j2].stats == acc_old[old_of(j2)].stats);
                        assert(old_of(i) != old_of(j2));
                    }
                    assert forall|t: FileStats| #[trigger] entries_with(entries@.take(idx + 1), t).len() > 0
                        implies exists|i: int| 0 <= i < acc@.len() && (#[trigger] acc@[i]).stats == t by {
                        if t == s {
                            assert(acc@[acc@.len() - 1].stats == t);
                        } else {
                            let k = choose|k: int| 0 <= k < acc_old.len() && acc_old[k].stats == t;
                            if k < j {
                                assert(acc@[k].stats == t);
                            } else if k == j {
                                assert(false);
                            } else {
                                assert(acc@[k - 1].stats == t);
                            }
                        }
                    }
                }
            }
            None => {
                let mut files: Vec<FileEntry> = Vec::new();
                files.push(e);
                acc.push(DuplicateGroup { stats: s, files });
                proof {
                    assert(acc@[acc@.len() - 1].files@ =~= Seq::<FileEntry>::empty().push(entries@[idx as int]));
                    assert(entries_with(prefix, s).len() == 0) by {
                        if entries_with(prefix, s).len() > 0 {
                            let i = choose|i: int| 0 <= i < acc_old.len() && (#[trigger] acc_old[i]).stats == s;
                            assert(false);
                        }
                    }
                    assert(entries_with(entries@.take(idx + 1), s)
                        =~= Seq::<FileEntry>::empty().push(entries@[idx as int]));
                    assert forall|t: FileStats| #[trigger] entries_with(entries@.take(idx + 1), t).len() > 0
                        implies exists|i: int| 0 <= i < acc@.len() && (#[trigger] acc@[i]).stats == t by {
                        if t == s {
                            assert(acc@[acc@.len() - 1].stats == t);
                        } else {
                            let k = choose|k: int| 0 <= k < acc_old.len() && acc_old[k].stats == t;
                            assert(acc@[k].stats == t);
                        }
                    }
                }
            }
        }
        idx = idx + 1;
    }
    proof {
        assert(entries@.take(entries@.len() as int) =~= entries@);
    }
    let ghost acc0 = acc@;
    proof {
        assert(acc0.take(acc0.len() as int) =~= acc0);
        assert(forall|i: int| 0 <= i < acc0.len() ==> (#[trigger] acc0[i]).files@
            == entries_with(entries@, acc0[i].stats));
        assert(forall|i: int, j: int| 0 <= i < acc0.len() && 0 <= j < acc0.len() && i != j
            ==> (#[trigger] acc0[i]).stats != (#[trigger] acc0[j]).stats);
        assert(forall|s: FileStats| #[trigger] entries_with(entries@, s).len() > 0
            ==> exists|i: int| 0 <= i < acc0.len() && (#[trigger] acc0[i]).stats == s);
    }
    let mut groups: Vec<DuplicateGroup> = Vec::new();
    while acc.len() > 0
        invariant
            acc@.len() <= acc0.len(),
            acc@ == acc0.take(acc@.len() as int),
            forall|i: int| 0 <= i < groups@.len() ==> (#[trigger] groups@[i]).files@
                == entries_with(entries@, groups@[i].stats),
            forall|i: int| 0 <= i < groups@.len() ==> (#[trigger] groups@[i]).files@.len() >= 2,
            forall|i: int, j: int| 0 <= i < groups@.len() && 0 <= j < groups@.len() && i != j
                ==> (#[trigger] groups@[i]).stats != (#[trigger] groups@[j]).stats,
            forall|i: int, j: int| 0 <= i < groups@.len() && 0 <= j < acc@.len()
                ==> (#[trigger] groups@[i]).stats != (#[trigger] acc@[j]).stats,
            forall|s: FileStats| #[trigger] entries_with(entries@, s).len() >= 2
                ==> (exists|i: int| 0 <= i < acc@.len() && (#[trigger] acc@[i]).stats == s)
                    || (exists|i: int| 0 <= i < groups@.len() && (#[trigger] groups@[i]).stats == s),
        decreases acc@.len(),
    {
        let ghost acc_old = acc@;
        let ghost groups_old = groups@;
        let g = acc.pop().unwrap();
        assert(g == acc0[acc@.len() as int]);
        assert(acc@ =~= acc0.take(acc@.len() as int));
        assert(g.files@ == entries_with(entries@, g.stats));
        if g.files.len() >= 2 {
            groups.push(g);
        } else {
            proof {
                assert(entries_with(entries@, g.stats).len() < 2);
            }
        }
        proof {
            assert forall|s: FileStats| #[trigger] entries_with(entries@, s).len() >= 2
                implies (exists|i: int| 0 <= i < acc@.len() && (#[trigger] acc@[i]).stats == s)
                    || (exists|i: int| 0 <= i < groups@.len() && (#[trigger] groups@[i]).stats == s) by {
                if exists|i: int| 0 <= i < acc_old.len() && (#[trigger] acc_old[i]).stats == s {
                    let i = choose|i: int| 0 <= i < acc_old.len() && (#[trigger] acc_old[i]).stats == s;
                    if i < acc@.len() {
                        assert(acc@[i].stats == s);
                    } else {
                        assert(g.stats == s);
                        assert(g.files@.len() >= 2);
                        assert(groups@[groups@.len() - 1].stats == s);
                    }
                } else {
                    let i = choose|i: int| 0 <= i < groups_old.len() && (#[trigger] groups_old[i]).stats == s;
                    assert(groups@[i].stats == s);
                }
            }
        }
    }
    groups
}

/// How often a file occurs among the entries bearing fingerprint `s`: as
/// often as it occurs among all the entries when its fingerprint is `s`, and
/// never otherwise.
proof fn lemma_entries_with_count(entries: Seq<FileEntry>, s: FileStats, e: FileEntry)
    ensures
        entries_with(entries, s).to_multiset().count(e) == if e.stats == s {
            entries.to_multiset().count(e)
        } else {
            0
        },
    decreases entries.len(),
{
    broadcast use group_to_multiset_ensures;
    broadcast use group_multiset_axioms;

    reveal(Seq::filter);
    if entries.len() == 0 {
        assert(entries =~= Seq::<FileEntry>::empty());
        assert(entries_with(entries, s) =~= Seq::<FileEntry>::empty());
        assert(!entries_with(entries, s).contains(e));
        assert(!entries.contains(e));
    } else {
        let t = entries.drop_last();
        let a = entries.last();
        lemma_entries_with_count(t, s, e);
        assert(t.push(a) =~= entries);
        assert(entries_with(entries, s) == if a.stats == s {
            entries_with(t, s).push(a)
        } else {
            entries_with(t, s)
        });
        assert(entries.to_multiset() == t.to_multiset().insert(a));
        if a.stats == s {
            assert(entries_with(entries, s).to_multiset()
                == entries_with(t, s).to_multiset().insert(a));
        }
    }
}

/// Whether some group in `groups` bears fingerprint `s`.
pub open spec fn has_group(groups: Seq<DuplicateGroup>, s: FileStats) -> bool {
    exists|i: int| 0 <= i < groups.len() && (#[trigger] groups[i]).stats == s
}

/// Reordering the entries does not change which entries bear a fingerprint:
/// the filtered sequences hold the same files, and as many of them.
proof fn lemma_entries_with_multiset_eq(e1: Seq<FileEntry>, e2: Seq<FileEntry>, s: FileStats)
    requires
        e1.to_multiset() == e2.to_multiset(),
    ensures
        entries_with(e1, s).to_multiset() == entries_with(e2, s).to_multiset(),
        entries_with(e1, s).len() == entries_with(e2, s).len(),
{
    broadcast use group_to_multiset_ensures;

    assert forall|e: FileEntry| true implies entries_with(e1, s).to_multiset().count(e)
        == entries_with(e2, s).to_multiset().count(e) by {
        lemma_entries_with_count(e1, s, e);
        lemma_entries_with_count(e2, s, e);
    }
    assert(entries_with(e1, s).to_multiset() =~= entries_with(e2, s).to_multiset());
    assert(entries_with(e1, s).len() == entries_with(e1, s).to_multiset().len());
    assert(entries_with(e2, s).len() == entries_with(e2, s).to_multiset().len());
}

/// One direction of the fingerprint-set equality in
/// `lemma_grouping_deterministic`.
proof fn lemma_has_group_embed(e1: Seq<FileEntry>, g1: Seq<DuplicateGroup>, e2: Seq<FileEntry>, g2: Seq<DuplicateGroup>)
    requires
        e1.to_multiset() == e2.to_multiset(),
        is_duplicate_grouping(e1, g1),
        is_duplicate_grouping(e2, g2),
    ensures
        forall|s: FileStats| #[trigger] has_group(g1, s) ==> has_group(g2, s),
{
    assert forall|s: FileStats| #[trigger] has_group(g1, s) implies has_group(g2, s) by {
        let i = choose|i: int| 0 <= i < g1.len() && (#[trigger] g1[i]).stats == s;
        assert(g1[i].files@ == entries_with(e1, s));
        lemma_entries_with_multiset_eq(e1, e2, s);
        assert(entries_with(e2, s).len() >= 2);
        let j = choose|j: int| 0 <= j < g2.len() && (#[trigger] g2[j]).stats == s;
        assert(0 <= j < g2.len() && g2[j].stats == s);
    }
}

/// Which fingerprints are reported, and which files each reported
/// fingerprint carries, are determined by the collection of fingerprinted
/// files alone. Two duplicate groupings whose inputs hold the same entries —
/// in any order, as under concurrent fingerprinting — report exactly the
/// same fingerprints, and their groups bearing one fingerprint hold the same
/// files; only the ordering of groups and of members may differ.
pub proof fn lemma_grouping_deterministic(e1: Seq<FileEntry>, g1: Seq<DuplicateGroup>, e2: Seq<FileEntry>, g2: Seq<DuplicateGroup>)
    requires
        e1.to_multiset() == e2.to_multiset(),
        is_duplicate_grouping(e1, g1),
        is_duplicate_grouping(e2, g2),
    ensures
        forall|s: FileStats| #[trigger] has_group(g1, s) <==> #[trigger] has_group(g2, s),
        forall|i: int, j: int| 0 <= i < g1.len() && 0 <= j < g2.len()
            && (#[trigger] g1[i]).stats == (#[trigger] g2[j]).stats
            ==> g1[i].files@.to_multiset() == g2[j].files@.to_multiset(),
{
    lemma_has_group_embed(e1, g1, e2, g2);
    lemma_has_group_embed(e2, g2, e1, g1);
    assert forall|i: int, j: int| 0 <= i < g1.len() && 0 <= j < g2.len()
        && (#[trigger] g1[i]).stats == (#[trigger] g2[j]).stats
        implies g1[i].files@.to_multiset() == g2[j].files@.to_multiset() by {
        let s = g1[i].stats;
        assert(g1[i].files@ == entries_with(e1, s));
        assert(g2[j].files@ == entries_with(e2, s));
        lemma_entries_with_multiset_eq(e1, e2, s);
    }
}

/// A file whose fingerprint no other file shares appears in no group.
pub proof fn lemma_singletons_excluded(entries: Seq<FileEntry>, groups: Seq<DuplicateGroup>, s: FileStats)
    requires
        is_duplicate_grouping(entries, groups),
        entries_with(entries, s).len() <= 1,
    ensures
        forall|i: int, k: int| 0 <= i < groups.len() && 0 <= k < (#[trigger] groups[i]).files@.len()
            ==> (#[trigger] groups[i].files@[k]).stats != s,
{
    broadcast use group_filter_ensures;

    assert forall|i: int, k: int| 0 <= i < groups.len() && 0 <= k < (#[trigger] groups[i]).files@.len()
        implies (#[trigger] groups[i].files@[k]).stats != s by {
        let t = groups[i].stats;
        assert(groups[i].files@ == entries_with(entries, t));
        assert((|e: FileEntry| e.stats == t)(groups[i].files@[k]));
        if groups[i].files@[k].stats == s {
            assert(t == s);
            assert(entries_with(entries, s).len() >= 2);
        }
    }
}

} // verus!
