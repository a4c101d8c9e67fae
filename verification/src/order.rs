//! Version merging and sorting: the standard buckets are sorted by descending
//! natural order of their version strings, then the files of each gold bucket
//! are appended to the first standard bucket carrying exactly the same
//! version.  A gold bucket with no matching standard version is dropped.

use core::cmp::Ordering;
use vstd::prelude::*;
use crate::extract::{extracted, to_binaries_per_version};
use crate::model::{BinaryVersion, BucketView, File, bucket_views, clone_strings, str_views};
use crate::natural::{nat_cmp, natural_compare, sorted_desc};

verus! {

/// The versions of a bucket list, in list order.
pub open spec fn versions_of(bs: Seq<BucketView>) -> Seq<Seq<char>> {
    bs.map_values(|b: BucketView| b.version)
}

/// Insertion of one bucket into a list that descends in natural order: it
/// goes in front of the first entry it orders strictly above.
pub open spec fn insert_desc(b: BucketView, s: Seq<BucketView>) -> Seq<BucketView>
    decreases s.len(),
{
    if s.len() == 0 {
        seq![b]
    } else if nat_cmp(b.version, s[0].version) is Greater {
        seq![b] + s
    } else {
        seq![s[0]] + insert_desc(b, s.skip(1))
    }
}

/// The bucket list sorted by descending natural order of version, by
/// repeated insertion.
pub open spec fn sort_desc(s: Seq<BucketView>) -> Seq<BucketView>
    decreases s.len(),
{
    if s.len() == 0 {
        Seq::empty()
    } else {
        insert_desc(s.last(), sort_desc(s.drop_last()))
    }
}

/// Where the insertion lands: if every entry before `p` does not order below
/// `b` and the entry at `p` (if any) orders strictly below it, the insertion
/// splits the list at `p`.
proof fn lemma_insert_desc_at(b: BucketView, s: Seq<BucketView>, p: int)
    requires
        0 <= p <= s.len(),
        forall|k: int| 0 <= k < p ==> !((#[trigger] nat_cmp(b.version, s[k].version)) is Greater),
        p < s.len() ==> nat_cmp(b.version, s[p].version) is Greater,
    ensures
        insert_desc(b, s) == s.take(p) + seq![b] + s.skip(p),
    decreases p,
{
    if p == 0 {
        assert(insert_desc(b, s) =~= s.take(0) + seq![b] + s.skip(0));
    } else {
        assert(!(nat_cmp(b.version, s[0].version) is Greater));
        lemma_insert_desc_at(b, s.skip(1), p - 1);
        assert(s.take(p) + seq![b] + s.skip(p) =~= seq![s[0]] + (s.skip(1).take(p - 1) + seq![b]
            + s.skip(1).skip(p - 1)));
    }
}

/// Copies one bucket.
fn clone_bucket(b: &BinaryVersion) -> (r: BinaryVersion)
    ensures
        r@ == b@,
{
    BinaryVersion { version: b.version.clone(), files: clone_strings(&b.files) }
}

/// The index in front of which `b` is inserted: the first whose entry `b`
/// orders strictly above, or the length if there is none.
fn find_insert_pos(b: &BinaryVersion, out: &Vec<BinaryVersion>) -> (p: usize)
    ensures
        p <= out.len(),
        forall|k: int|
            0 <= k < p ==> !((#[trigger] nat_cmp(b@.version, out@[k]@.version)) is Greater),
        forall|k: int| 0 <= k < p ==> !((#[trigger] nat_cmp(out@[k]@.version, b@.version)) is Less),
        p < out.len() ==> nat_cmp(b@.version, out@[p as int]@.version) is Greater,
{
    let mut p: usize = 0;
    while p < out.len()
        invariant
            p <= out.len(),
            forall|k: int|
                0 <= k < p ==> !((#[trigger] nat_cmp(b@.version, out@[k]@.version)) is Greater),
            forall|k: int|
                0 <= k < p ==> !((#[trigger] nat_cmp(out@[k]@.version, b@.version)) is Less),
        decreases out.len() - p,
    {
        let c = natural_compare(b.version.as_str(), out[p].version.as_str());
        if matches!(c, Ordering::Greater) {
            return p;
        }
        p = p + 1;
    }
    p
}

/// Sorts the bucket list by descending natural order of version.
pub fn sort_buckets(v: &Vec<BinaryVersion>) -> (r: Vec<BinaryVersion>)
    ensures
        bucket_views(r@) == sort_desc(bucket_views(v@)),
        sorted_desc(versions_of(bucket_views(r@))),
{
    let mut out: Vec<BinaryVersion> = Vec::new();
    let mut i: usize = 0;
    while i < v.len()
        invariant
            i <= v.len(),
            bucket_views(out@) == sort_desc(bucket_views(v@).take(i as int)),
            sorted_desc(versions_of(bucket_views(out@))),
        decreases v.len() - i,
    {
        let b = clone_bucket(&v[i]);
        let p = find_insert_pos(&b, &out);
        let ghost s = bucket_views(out@);
        let ghost vs = versions_of(s);
        out.insert(p, b);
        proof {
            lemma_insert_desc_at(b@, s, p as int);
            assert(bucket_views(out@) =~= s.take(p as int) + seq![b@] + s.skip(p as int));
            assert(bucket_views(v@).take(i + 1).drop_last() =~= bucket_views(v@).take(i as int));
            assert(bucket_views(v@).take(i + 1).last() == b@);
            let ghost ns = bucket_views(out@);
            let ghost nvs = versions_of(ns);
            assert forall|k: int| 0 <= k && k + 1 < nvs.len() implies !((#[trigger] nat_cmp(
                nvs[k],
                nvs[k + 1],
            )) is Less) by {
                if k + 1 < p {
                    assert(ns[k] == s[k] && ns[k + 1] == s[k + 1]);
                    assert(!(nat_cmp(vs[k], vs[k + 1]) is Less));
                } else if k + 1 == p {
                    assert(ns[k] == s[k] && ns[k + 1] == b@);
                    assert(!(nat_cmp(s[k].version, b@.version) is Less));
                } else if k == p {
                    assert(ns[k] == b@ && ns[k + 1] == s[k]);
                    assert(nat_cmp(b@.version, s[k].version) is Greater);
                } else {
                    assert(ns[k] == s[k - 1] && ns[k + 1] == s[k]);
                    let m = k - 1;
                    assert(!(nat_cmp(vs[m], vs[m + 1]) is Less));
                    assert(vs[m] == ns[k].version && vs[m + 1] == ns[k + 1].version);
                }
            }
        }
        i = i + 1;
    }
    proof {
        assert(bucket_views(v@).take(v@.len() as int) =~= bucket_views(v@));
    }
    out
}

/// The files of every gold bucket whose version is exactly `ver`,
/// concatenated in gold listing order.
pub open spec fn gold_extra(gold: Seq<BucketView>, ver: Seq<char>) -> Seq<Seq<char>>
    decreases gold.len(),
{
    if gold.len() == 0 {
        Seq::empty()
    } else {
        gold_extra(gold.drop_last(), ver) + if gold.last().version == ver {
            gold.last().files
        } else {
            Seq::empty()
        }
    }
}

/// Whether one of the first `upto` buckets of `bs` carries version `ver`.
pub open spec fn version_in_prefix(bs: Seq<BucketView>, upto: int, ver: Seq<char>) -> bool {
    exists|j: int| 0 <= j < upto && (#[trigger] bs[j].version) == ver
}

/// Whether an earlier bucket of `bs` carries the same version as bucket `i`.
pub open spec fn version_seen_before(bs: Seq<BucketView>, i: int) -> bool {
    version_in_prefix(bs, i, bs[i].version)
}

/// The gold merge: the first standard bucket of each version receives the
/// files of every gold bucket of exactly that version; a standard bucket
/// whose version already occurred earlier receives nothing, and a gold bucket
/// with no matching standard version is dropped.
pub open spec fn merged(buckets: Seq<BucketView>, gold: Seq<BucketView>) -> Seq<BucketView> {
    Seq::new(
        buckets.len(),
        |i: int|
            BucketView {
                version: buckets[i].version,
                files: buckets[i].files + if version_seen_before(buckets, i) {
                    Seq::empty()
                } else {
                    gold_extra(gold, buckets[i].version)
                },
            },
    )
}

/// Appends to the first standard bucket of each version the files of every
/// gold bucket of exactly that version.
pub fn merge_gold(standard: &Vec<BinaryVersion>, gold: &Vec<BinaryVersion>) -> (r: Vec<
    BinaryVersion,
>)
    ensures
        bucket_views(r@) == merged(bucket_views(standard@), bucket_views(gold@)),
{
    let ghost sv = bucket_views(standard@);
    let ghost gv = bucket_views(gold@);
    let mut r: Vec<BinaryVersion> = Vec::new();
    let mut i: usize = 0;
    while i < standard.len()
        invariant
            i <= standard.len(),
            r@.len() == i,
            forall|k: int| 0 <= k < i ==> (#[trigger] r@[k]@) == merged(sv, gv)[k],
        decreases standard.len() - i,
    {
        let ghost ver = sv[i as int].version;
        let mut seen = false;
        let mut j: usize = 0;
        while j < i
            invariant
                j <= i < standard.len(),
                seen == version_in_prefix(sv, j as int, ver),
            decreases i - j,
        {
            let same = standard[j].version.eq(&standard[i].version);
            proof {
                assert(sv[j as int] == standard@[j as int]@ && sv[i as int] == standard@[i as int]@);
                if same {
                    assert(sv[j as int].version == ver);
                    assert(version_in_prefix(sv, j + 1, ver));
                } else if !seen {
                    if version_in_prefix(sv, j + 1, ver) {
                        let jj = choose|jj: int| 0 <= jj < j + 1 && (#[trigger] sv[jj].version) == ver;
                        if jj < j {
                            assert(version_in_prefix(sv, j as int, ver));
                        }
                        assert(false);
                    }
                } else {
                    let jj = choose|jj: int| 0 <= jj < j && (#[trigger] sv[jj].version) == ver;
                    assert(version_in_prefix(sv, j + 1, ver));
                }
            }
            if same {
                seen = true;
            }
            j = j + 1;
        }
        proof {
            assert(seen == version_seen_before(sv, i as int));
        }
        let mut fs = clone_strings(&standard[i].files);
        if !seen {
            let mut g: usize = 0;
            while g < gold.len()
                invariant
                    g <= gold.len(),
                    str_views(fs@) == sv[i as int].files + gold_extra(gv.take(g as int), sv[i as int].version),
                decreases gold.len() - g,
            {
                proof {
                    assert(gv.take(g + 1).drop_last() =~= gv.take(g as int));
                    assert(gv.take(g + 1).last() == gv[g as int]);
                }
                if gold[g].version.eq(&standard[i].version) {
                    let mut extra = clone_strings(&gold[g].files);
                    let ghost fs0 = fs@;
                    fs.append(&mut extra);
                    proof {
                        assert(str_views(fs@) =~= str_views(fs0) + str_views(gold@[g as int].files@));
                    }
                } else {
                    proof {
                        assert(str_views(fs@) =~= sv[i as int].files + gold_extra(
                            gv.take(g + 1),
                            sv[i as int].version,
                        ));
                    }
                }
                g = g + 1;
            }
            proof {
                assert(gv.take(gv.len() as int) =~= gv);
            }
        }
        let b = BinaryVersion { version: standard[i].version.clone(), files: fs };
        r.push(b);
        proof {
            assert(r@[i as int]@ == merged(sv, gv)[i as int]);
        }
        i = i + 1;
    }
    proof {
        assert(bucket_views(r@) =~= merged(sv, gv));
    }
    r
}

/// Extracts the version buckets of the standard and the gold snapshot, sorts
/// the standard buckets newest first by natural order of version, and appends
/// the files of each gold bucket to the first standard bucket of exactly the
/// same version.
pub fn parse_files(files: File, gold_files: File) -> (r: Vec<BinaryVersion>)
    ensures
        bucket_views(r@) == merged(
            sort_desc(extracted(files.children@)),
            extracted(gold_files.children@),
        ),
        sorted_desc(versions_of(bucket_views(r@))),
{
    let ghost sv = extracted(files.children@);
    let ghost gv = extracted(gold_files.children@);
    let standard = to_binaries_per_version(files);
    let gold = to_binaries_per_version(gold_files);
    let sorted = sort_buckets(&standard);
    let r = merge_gold(&sorted, &gold);
    proof {
        assert(versions_of(bucket_views(r@)) =~= versions_of(sort_desc(sv)));
    }
    r
}

} // verus!
