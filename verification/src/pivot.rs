//! The filename pivot: a reverse index from artifact filename to the ordered
//! list of versions whose bucket lists that filename, in bucket order.  As
//! the buckets come sorted newest first, the first version of every entry is
//! the newest one holding the file.

use vstd::prelude::*;
use crate::model::{BinaryVersion, BucketView, bucket_views, str_views};

verus! {

/// The (version, filename) pairs of one bucket, in file order.
pub open spec fn bucket_pairs(b: BucketView) -> Seq<(Seq<char>, Seq<char>)> {
    b.files.map_values(|f: Seq<char>| (b.version, f))
}

/// The (version, filename) pairs of a bucket list, bucket order first, file
/// order within a bucket.
pub open spec fn all_pairs(bs: Seq<BucketView>) -> Seq<(Seq<char>, Seq<char>)>
    decreases bs.len(),
{
    if bs.len() == 0 {
        Seq::empty()
    } else {
        all_pairs(bs.drop_last()) + bucket_pairs(bs.last())
    }
}

/// The versions paired with filename `f`, in pair order.
pub open spec fn versions_for(ps: Seq<(Seq<char>, Seq<char>)>, f: Seq<char>) -> Seq<Seq<char>>
    decreases ps.len(),
{
    if ps.len() == 0 {
        Seq::empty()
    } else {
        versions_for(ps.drop_last(), f) + if ps.last().1 == f {
            seq![ps.last().0]
        } else {
            Seq::empty()
        }
    }
}

/// The pivot table of a bucket list as a map: each filename that occurs in
/// some bucket maps to the versions that list it, in bucket order.
pub open spec fn pivot_map(bs: Seq<BucketView>) -> Map<Seq<char>, Seq<Seq<char>>> {
    Map::new(
        |f: Seq<char>| versions_for(all_pairs(bs), f).len() > 0,
        |f: Seq<char>| versions_for(all_pairs(bs), f),
    )
}

/// The reverse index from filename to the versions holding that file.  The
/// entry list carries each filename once; every version list is non-empty.
pub struct Pivot {
    pub entries: Vec<(String, Vec<String>)>,
}

impl Pivot {
    /// Each filename occurs at most once among the entries.
    pub open spec fn keys_unique(self) -> bool {
        forall|a: int, b: int|
            0 <= a < b < self.entries@.len() ==> (#[trigger] self.entries@[a].0@)
                != (#[trigger] self.entries@[b].0@)
    }

    /// The index of the entry for filename `f`.
    pub open spec fn key_index(self, f: Seq<char>) -> int {
        choose|j: int| 0 <= j < self.entries@.len() && (#[trigger] self.entries@[j].0@) == f
    }

    /// Whether some entry carries filename `f`.
    pub open spec fn has_key(self, f: Seq<char>) -> bool {
        exists|j: int| 0 <= j < self.entries@.len() && (#[trigger] self.entries@[j].0@) == f
    }

    /// The table as a map from filename to its version list.
    pub open spec fn as_map(self) -> Map<Seq<char>, Seq<Seq<char>>> {
        Map::new(
            |f: Seq<char>| self.has_key(f),
            |f: Seq<char>| str_views(self.entries@[self.key_index(f)].1@),
        )
    }

    /// Looks a filename up, handing back its version list.
    pub fn get(&self, f: &String) -> (r: Option<&Vec<String>>)
        requires
            self.keys_unique(),
        ensures
            match r {
                Some(vs) => self.as_map().contains_key(f@) && str_views(vs@) == self.as_map()[f@],
                None => !self.as_map().contains_key(f@),
            },
    {
        let mut j: usize = 0;
        while j < self.entries.len()
            invariant
                j <= self.entries@.len(),
                forall|k: int| 0 <= k < j ==> (#[trigger] self.entries@[k].0@) != f@,
            decreases self.entries@.len() - j,
        {
            if self.entries[j].0.eq(f) {
                proof {
                    assert(self.entries@[j as int].0@ == f@);
                    assert(self.has_key(f@));
                    assert(self.key_index(f@) == j as int) by {
                        let jj = self.key_index(f@);
                        if jj != j as int {
                            assert(self.entries@[jj].0@ == f@);
                        }
                    }
                }
                return Some(&self.entries[j].1);
            }
            j = j + 1;
        }
        proof {
            assert(!self.has_key(f@));
        }
        None
    }
}

/// The index of the entry carrying filename `f`, if there is one.
fn find_entry(entries: &Vec<(String, Vec<String>)>, f: &String) -> (r: Option<usize>)
    ensures
        match r {
            Some(j) => j < entries@.len() && entries@[j as int].0@ == f@,
            None => forall|m: int| 0 <= m < entries@.len() ==> (#[trigger] entries@[m].0@) != f@,
        },
{
    let mut j: usize = 0;
    while j < entries.len()
        invariant
            j <= entries@.len(),
            forall|m: int| 0 <= m < j ==> (#[trigger] entries@[m].0@) != f@,
        decreases entries@.len() - j,
    {
        if entries[j].0.eq(f) {
            return Some(j);
        }
        j = j + 1;
    }
    None
}

/// Builds the pivot table of a bucket list: walking the buckets in order and
/// each bucket's files in order, the bucket's version is appended to the
/// entry of each filename, the entry being created on first sight.
pub fn pivot(binaries_per_version: &Vec<BinaryVersion>) -> (r: Pivot)
    ensures
        r.keys_unique(),
        r.as_map() == pivot_map(bucket_views(binaries_per_version@)),
{
    let ghost bs = bucket_views(binaries_per_version@);
    let mut r = Pivot { entries: Vec::new() };
    let ghost mut ps = Seq::<(Seq<char>, Seq<char>)>::empty();
    let mut i: usize = 0;
    while i < binaries_per_version.len()
        invariant
            i <= binaries_per_version@.len(),
            bs == bucket_views(binaries_per_version@),
            ps == all_pairs(bs.take(i as int)),
            r.keys_unique(),
            forall|f: Seq<char>| r.has_key(f) == ((#[trigger] versions_for(ps, f)).len() > 0),
            forall|f: Seq<char>|
                (#[trigger] versions_for(ps, f)).len() > 0 ==> str_views(
                    r.entries@[r.key_index(f)].1@,
                ) == versions_for(ps, f),
        decreases binaries_per_version@.len() - i,
    {
        let entry = &binaries_per_version[i];
        let ghost b = bs[i as int];
        proof {
            assert(b == binaries_per_version@[i as int]@);
        }
        let mut k: usize = 0;
        while k < entry.files.len()
            invariant
                k <= entry.files@.len(),
                bs == bucket_views(binaries_per_version@),
                i < binaries_per_version@.len(),
                b == bs[i as int],
                entry.version@ == b.version,
                str_views(entry.files@) == b.files,
                ps == all_pairs(bs.take(i as int)) + bucket_pairs(b).take(k as int),
                r.keys_unique(),
                forall|f: Seq<char>| r.has_key(f) == ((#[trigger] versions_for(ps, f)).len() > 0),
                forall|f: Seq<char>|
                    (#[trigger] versions_for(ps, f)).len() > 0 ==> str_views(
                        r.entries@[r.key_index(f)].1@,
                    ) == versions_for(ps, f),
            decreases entry.files@.len() - k,
        {
            let filename = &entry.files[k];
            let ghost pair = (b.version, filename@);
            let ghost ps1 = ps + seq![pair];
            proof {
                assert(b.files[k as int] == filename@);
                assert(bucket_pairs(b)[k as int] == pair);
                assert(ps1.drop_last() =~= ps);
                assert(ps1.last() == pair);
                assert forall|f: Seq<char>| #[trigger]
                    versions_for(ps1, f) == versions_for(ps, f) + (if f == filename@ {
                        seq![b.version]
                    } else {
                        Seq::<Seq<char>>::empty()
                    }) by {}
            }
            let found = find_entry(&r.entries, filename);
            let ghost entries0 = r.entries@;
            let ghost r0 = r;
            let ghost new_idx: int;
            match found {
                Some(j) => {
                    proof {
                        assert(r0.has_key(filename@));
                        new_idx = j as int;
                    }
                    r.entries[j].1.push(entry.version.clone());
                    proof {
                        assert(r.entries@[j as int].0 == entries0[j as int].0);
                        assert(r.entries@[j as int].1@ =~= entries0[j as int].1@.push(
                            entry.version,
                        ));
                        assert(forall|m: int|
                            0 <= m < entries0.len() && m != j ==> r.entries@[m]
                                == entries0[m]);
                    }
                },
                None => {
                    proof {
                        assert(!r0.has_key(filename@));
                        new_idx = entries0.len() as int;
                    }
                    let mut vs: Vec<String> = Vec::new();
                    vs.push(entry.version.clone());
                    r.entries.push((filename.clone(), vs));
                    proof {
                        assert(r.entries@[entries0.len() as int].0@ == filename@);
                        assert(str_views(r.entries@[entries0.len() as int].1@) =~= seq![b.version]);
                        assert(forall|m: int|
                            0 <= m < entries0.len() ==> r.entries@[m] == entries0[m]);
                    }
                },
            }
            proof {
                let nr = r;
                assert(nr.entries@.len() == entries0.len() + (if found is Some {
                    0int
                } else {
                    1int
                }));
                assert(nr.entries@[new_idx].0@ == filename@);
                assert(str_views(nr.entries@[new_idx].1@) == versions_for(ps, filename@).push(
                    b.version,
                )) by {
                    if found is Some {
                        assert(str_views(entries0[new_idx].1@) == versions_for(ps, filename@));
                        assert(str_views(nr.entries@[new_idx].1@) =~= str_views(
                            entries0[new_idx].1@,
                        ).push(b.version));
                    } else {
                        assert(versions_for(ps, filename@).len() == 0);
                        assert(str_views(nr.entries@[new_idx].1@) =~= versions_for(
                            ps,
                            filename@,
                        ).push(b.version));
                    }
                }
                assert forall|a: int, b2: int| 0 <= a < b2 < nr.entries@.len() implies (
                #[trigger] nr.entries@[a].0@) != (#[trigger] nr.entries@[b2].0@) by {
                    if b2 < entries0.len() {
                        assert(entries0[a].0@ != entries0[b2].0@);
                    } else if b2 == entries0.len() {
                        assert(nr.entries@[b2].0@ == filename@);
                        assert(!r0.has_key(filename@));
                        if nr.entries@[a].0@ == filename@ {
                            assert(entries0[a].0@ == filename@);
                            assert(r0.has_key(filename@));
                        }
                    }
                }
                assert forall|f: Seq<char>| nr.has_key(f) == ((#[trigger] versions_for(
                    ps1,
                    f,
                )).len() > 0) by {
                    if f == filename@ {
                        assert(versions_for(ps1, f).len() > 0);
                        assert(nr.entries@[new_idx].0@ == f);
                        assert(nr.has_key(f));
                    } else {
                        assert(versions_for(ps1, f) == versions_for(ps, f));
                        if nr.has_key(f) {
                            let m = choose|m: int|
                                0 <= m < nr.entries@.len() && (#[trigger] nr.entries@[m].0@) == f;
                            assert(m < entries0.len());
                            assert(entries0[m].0@ == f);
                            assert(r0.has_key(f));
                        }
                        if r0.has_key(f) {
                            let m = choose|m: int|
                                0 <= m < entries0.len() && (#[trigger] entries0[m].0@) == f;
                            assert(nr.entries@[m].0@ == f);
                            assert(nr.has_key(f));
                        }
                    }
                }
                assert forall|f: Seq<char>| (#[trigger] versions_for(ps1, f)).len() > 0 implies
                    str_views(nr.entries@[nr.key_index(f)].1@) == versions_for(ps1, f) by {
                    assert(nr.has_key(f));
                    let m = nr.key_index(f);
                    assert(0 <= m < nr.entries@.len() && nr.entries@[m].0@ == f);
                    if f == filename@ {
                        assert(m == new_idx) by {
                            if m != new_idx {
                                assert(nr.entries@[new_idx].0@ == f);
                            }
                        }
                        assert(versions_for(ps1, f) =~= versions_for(ps, f).push(b.version));
                    } else {
                        assert(versions_for(ps1, f) == versions_for(ps, f));
                        assert(m != new_idx);
                        assert(m < entries0.len() && nr.entries@[m] == entries0[m]);
                        assert(r0.has_key(f));
                        let m0 = r0.key_index(f);
                        assert(0 <= m0 < entries0.len() && entries0[m0].0@ == f);
                        assert(m == m0) by {
                            if m != m0 {
                                assert(entries0[m].0@ == entries0[m0].0@);
                            }
                        }
                        assert(str_views(entries0[m0].1@) == versions_for(ps, f));
                    }
                }
                ps = ps1;
                assert(bucket_pairs(b).take(k + 1) =~= bucket_pairs(b).take(k as int) + seq![pair]);
            }
            k = k + 1;
        }
        proof {
            assert(bucket_pairs(b).take(entry.files@.len() as int) =~= bucket_pairs(b));
            assert(bs.take(i + 1).drop_last() =~= bs.take(i as int));
            assert(bs.take(i + 1).last() == b);
            assert(ps == all_pairs(bs.take(i + 1)));
        }
        i = i + 1;
    }
    proof {
        assert(bs.take(bs.len() as int) =~= bs);
        assert(r.as_map() =~= pivot_map(bs));
    }
    r
}

/// `versions_for` distributes over pair-list concatenation.
proof fn lemma_versions_for_add(ps1: Seq<(Seq<char>, Seq<char>)>, ps2: Seq<(Seq<char>, Seq<char>)>, f: Seq<char>)
    ensures
        versions_for(ps1 + ps2, f) == versions_for(ps1, f) + versions_for(ps2, f),
    decreases ps2.len(),
{
    if ps2.len() == 0 {
        assert(ps1 + ps2 =~= ps1);
        assert(versions_for(ps1, f) + versions_for(ps2, f) =~= versions_for(ps1, f));
    } else {
        lemma_versions_for_add(ps1, ps2.drop_last(), f);
        assert((ps1 + ps2).drop_last() =~= ps1 + ps2.drop_last());
        assert((ps1 + ps2).last() == ps2.last());
        assert(versions_for(ps1 + ps2, f) =~= versions_for(ps1, f) + versions_for(ps2, f));
    }
}

/// A pair list in which no pair carries filename `f` yields no version.
proof fn lemma_versions_for_none(ps: Seq<(Seq<char>, Seq<char>)>, f: Seq<char>)
    requires
        forall|m: int| 0 <= m < ps.len() ==> (#[trigger] ps[m].1) != f,
    ensures
        versions_for(ps, f).len() == 0,
    decreases ps.len(),
{
    if ps.len() > 0 {
        assert(ps.last().1 != f);
        assert forall|m: int| 0 <= m < ps.drop_last().len() implies (#[trigger] ps.drop_last()[m].1)
            != f by {
            assert(ps.drop_last()[m] == ps[m]);
        }
        lemma_versions_for_none(ps.drop_last(), f);
    }
}

/// A pair list with a pair carrying filename `f` yields some version.
proof fn lemma_versions_for_some(ps: Seq<(Seq<char>, Seq<char>)>, f: Seq<char>, m: int)
    requires
        0 <= m < ps.len(),
        ps[m].1 == f,
    ensures
        versions_for(ps, f).len() > 0,
    decreases ps.len(),
{
    if m == ps.len() - 1 {
        assert(ps.last().1 == f);
    } else {
        assert(ps.drop_last()[m] == ps[m]);
        lemma_versions_for_some(ps.drop_last(), f, m);
    }
}

/// If every pair of the list carries version `v`, so does every yielded one.
proof fn lemma_versions_for_const(ps: Seq<(Seq<char>, Seq<char>)>, f: Seq<char>, v: Seq<char>)
    requires
        forall|m: int| 0 <= m < ps.len() ==> (#[trigger] ps[m].0) == v,
    ensures
        forall|q: int|
            0 <= q < versions_for(ps, f).len() ==> (#[trigger] versions_for(ps, f)[q]) == v,
    decreases ps.len(),
{
    if ps.len() > 0 {
        assert(ps.last().0 == v);
        assert forall|m: int| 0 <= m < ps.drop_last().len() implies (#[trigger] ps.drop_last()[m].0)
            == v by {
            assert(ps.drop_last()[m] == ps[m]);
        }
        lemma_versions_for_const(ps.drop_last(), f, v);
        let pre = versions_for(ps.drop_last(), f);
        assert forall|q: int| 0 <= q < versions_for(ps, f).len() implies (#[trigger] versions_for(
            ps,
            f,
        )[q]) == v by {
            if q < pre.len() {
                assert(versions_for(ps, f)[q] == pre[q]);
            } else {
                assert(versions_for(ps, f)[q] == ps.last().0);
            }
        }
    }
}

/// A bucket list in which no bucket holds `f` contributes no version for it.
proof fn lemma_all_pairs_none(bs: Seq<BucketView>, f: Seq<char>)
    requires
        forall|j: int| 0 <= j < bs.len() ==> !((#[trigger] bs[j].files).contains(f)),
    ensures
        versions_for(all_pairs(bs), f).len() == 0,
    decreases bs.len(),
{
    if bs.len() > 0 {
        assert forall|j: int| 0 <= j < bs.drop_last().len() implies !((#[trigger] bs.drop_last()[j].files).contains(f)) by {
            assert(bs.drop_last()[j] == bs[j]);
        }
        lemma_all_pairs_none(bs.drop_last(), f);
        assert(!bs.last().files.contains(f));
        assert forall|m: int| 0 <= m < bucket_pairs(bs.last()).len() implies (#[trigger] bucket_pairs(bs.last())[m].1) != f by {
            assert(bucket_pairs(bs.last())[m].1 == bs.last().files[m]);
            if bucket_pairs(bs.last())[m].1 == f {
                assert(bs.last().files.contains(f));
            }
        }
        lemma_versions_for_none(bucket_pairs(bs.last()), f);
        lemma_versions_for_add(all_pairs(bs.drop_last()), bucket_pairs(bs.last()), f);
    }
}

/// The pivot entry of a filename starts with the version of the first bucket
/// holding it: walking newest-first, `pivot[f][0]` is the newest version
/// whose files contain `f`.
pub proof fn lemma_pivot_newest(bs: Seq<BucketView>, f: Seq<char>, i: int)
    requires
        0 <= i < bs.len(),
        bs[i].files.contains(f),
        forall|j: int| 0 <= j < i ==> !((#[trigger] bs[j].files).contains(f)),
    ensures
        pivot_map(bs).contains_key(f),
        pivot_map(bs)[f][0] == bs[i].version,
    decreases bs.len(),
{
    lemma_versions_for_add(all_pairs(bs.drop_last()), bucket_pairs(bs.last()), f);
    if i == bs.len() - 1 {
        lemma_all_pairs_none(bs.drop_last(), f);
        let b = bs.last();
        let m = choose|m: int| 0 <= m < b.files.len() && b.files[m] == f;
        assert(bucket_pairs(b)[m].1 == f);
        lemma_versions_for_some(bucket_pairs(b), f, m);
        assert forall|q: int| 0 <= q < bucket_pairs(b).len() implies (#[trigger] bucket_pairs(b)[q].0) == b.version by {}
        lemma_versions_for_const(bucket_pairs(b), f, b.version);
        assert(versions_for(all_pairs(bs), f)[0] == versions_for(bucket_pairs(b), f)[0]);
    } else {
        assert(bs.drop_last()[i] == bs[i]);
        assert forall|j: int| 0 <= j < i implies !((#[trigger] bs.drop_last()[j].files).contains(f)) by {
            assert(bs.drop_last()[j] == bs[j]);
        }
        lemma_pivot_newest(bs.drop_last(), f, i);
        assert(versions_for(all_pairs(bs.drop_last()), f)[0] == bs[i].version);
        assert(versions_for(all_pairs(bs), f)[0] == versions_for(all_pairs(bs.drop_last()), f)[0]);
    }
}

} // verus!
