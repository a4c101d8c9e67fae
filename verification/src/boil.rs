//! The download boiler: flattens buckets and catalog into the per-version
//! download history table.  For each version, each platform contributes a
//! copy of the first catalog download matching each file of the bucket; the
//! first match of a (version, platform) pair carries the platform's badge as
//! its icon, every later one none.  A version with no match yields no row.

use vstd::prelude::*;
use crate::model::{
    BinaryVersion, BucketView, DlView, DownloadInfo, PlatformInfo, PlatformView, VdView,
    VersionDownloads, bucket_views, clone_opt, clone_with_icon, dl_views, platform_views, vd_views,
};

verus! {

/// The index of the first download of `ds` whose filename is exactly `f`.
pub open spec fn find_dl(ds: Seq<DlView>, f: Seq<char>) -> Option<int>
    decreases ds.len(),
{
    if ds.len() == 0 {
        None
    } else if ds[0].filename == Some(f) {
        Some(0)
    } else {
        match find_dl(ds.skip(1), f) {
            Some(j) => Some(j + 1),
            None => None,
        }
    }
}

/// `find_dl` names the first matching index: everything before it misses.
proof fn lemma_find_dl_char(ds: Seq<DlView>, f: Seq<char>, j: int)
    requires
        0 <= j <= ds.len(),
        forall|m: int| 0 <= m < j ==> (#[trigger] ds[m].filename) != Some(f),
        j < ds.len() ==> ds[j].filename == Some(f),
    ensures
        find_dl(ds, f) == if j < ds.len() {
            Some(j)
        } else {
            None::<int>
        },
    decreases j,
{
    if j == 0 {
        if ds.len() > 0 {
            assert(ds[0].filename == Some(f));
        }
    } else {
        assert(ds[0].filename != Some(f));
        lemma_find_dl_char(ds.skip(1), f, j - 1);
        assert forall|m: int| 0 <= m < j - 1 implies (#[trigger] ds.skip(1)[m].filename) != Some(
            f,
        ) by {
            assert(ds.skip(1)[m] == ds[m + 1]);
        }
    }
}

/// The entries one platform contributes for the files of one version: each
/// file matching a download yields a copy of the first match; the first copy
/// of the run carries the badge, every later one no icon.
pub open spec fn row_for(p: PlatformView, files: Seq<Seq<char>>, first: bool) -> Seq<DlView>
    decreases files.len(),
{
    if files.len() == 0 {
        Seq::empty()
    } else {
        match find_dl(p.downloads, files[0]) {
            Some(j) => seq![
                DlView {
                    icon: if first {
                        p.platform_badge
                    } else {
                        None
                    },
                    ..p.downloads[j]
                },
            ] + row_for(p, files.skip(1), false),
            None => row_for(p, files.skip(1), first),
        }
    }
}

/// The history entries of one version across all platforms, catalog order.
pub open spec fn rows_for(ps: Seq<PlatformView>, files: Seq<Seq<char>>) -> Seq<DlView>
    decreases ps.len(),
{
    if ps.len() == 0 {
        Seq::empty()
    } else {
        rows_for(ps.drop_last(), files) + row_for(ps.last(), files, true)
    }
}

/// The boiled history table: one row per version bucket that yields at least
/// one entry, newest bucket first.
pub open spec fn boil_spec(bs: Seq<BucketView>, ps: Seq<PlatformView>) -> Seq<VdView>
    decreases bs.len(),
{
    if bs.len() == 0 {
        Seq::empty()
    } else {
        boil_spec(bs.drop_last(), ps) + if rows_for(ps, bs.last().files).len() > 0 {
            seq![VdView { version: bs.last().version, downloads: rows_for(ps, bs.last().files) }]
        } else {
            Seq::empty()
        }
    }
}

/// The index of the first download of `ds` carrying filename `f`, if any.
fn find_download(ds: &Vec<DownloadInfo>, f: &String) -> (r: Option<usize>)
    ensures
        (match r {
            Some(j) => j < ds@.len() && find_dl(dl_views(ds@), f@) == Some(j as int),
            None => find_dl(dl_views(ds@), f@) is None,
        }),
{
    let mut j: usize = 0;
    while j < ds.len()
        invariant
            j <= ds@.len(),
            forall|m: int| 0 <= m < j ==> (#[trigger] dl_views(ds@)[m].filename) != Some(f@),
        decreases ds@.len() - j,
    {
        let hit = match &ds[j].filename {
            Some(s) => s.eq(f),
            None => false,
        };
        if hit {
            proof {
                assert(dl_views(ds@)[j as int].filename == Some(f@));
                lemma_find_dl_char(dl_views(ds@), f@, j as int);
            }
            return Some(j);
        }
        proof {
            assert(dl_views(ds@)[j as int].filename != Some(f@));
        }
        j = j + 1;
    }
    proof {
        lemma_find_dl_char(dl_views(ds@), f@, ds@.len() as int);
    }
    None
}

/// Builds the history table: for each version bucket, in order, each
/// platform's entries for the bucket's files; versions contributing no entry
/// are left out, so no emitted row has an empty download list.
pub fn boil(version_binaries: &Vec<BinaryVersion>, platforms: &Vec<PlatformInfo>) -> (r: Vec<
    VersionDownloads,
>)
    ensures
        vd_views(r@) == boil_spec(bucket_views(version_binaries@), platform_views(platforms@)),
        forall|x: int| 0 <= x < r@.len() ==> (#[trigger] r@[x]@).downloads.len() > 0,
{
    let ghost bs = bucket_views(version_binaries@);
    let ghost pv = platform_views(platforms@);
    let mut r: Vec<VersionDownloads> = Vec::new();
    let mut i: usize = 0;
    while i < version_binaries.len()
        invariant
            i <= version_binaries@.len(),
            bs == bucket_views(version_binaries@),
            pv == platform_views(platforms@),
            vd_views(r@) == boil_spec(bs.take(i as int), pv),
            forall|x: int| 0 <= x < r@.len() ==> (#[trigger] r@[x]@).downloads.len() > 0,
        decreases version_binaries@.len() - i,
    {
        let version = &version_binaries[i];
        let ghost fv = bs[i as int].files;
        proof {
            assert(version_binaries@[i as int]@ == bs[i as int]);
        }
        let mut acc: Vec<DownloadInfo> = Vec::new();
        let mut pi: usize = 0;
        while pi < platforms.len()
            invariant
                pi <= platforms@.len(),
                pv == platform_views(platforms@),
                i < version_binaries@.len(),
                crate::model::str_views(version.files@) == fv,
                dl_views(acc@) == rows_for(pv.take(pi as int), fv),
            decreases platforms@.len() - pi,
        {
            let platform = &platforms[pi];
            let ghost p = pv[pi as int];
            proof {
                assert(platforms@[pi as int]@ == pv[pi as int]);
            }
            let mut first = true;
            proof {
                assert(fv.skip(0) =~= fv);
            }
            let mut k: usize = 0;
            while k < version.files.len()
                invariant
                    k <= version.files@.len(),
                    pi < platforms@.len(),
                    i < version_binaries@.len(),
                    pv == platform_views(platforms@),
                    crate::model::str_views(version.files@) == fv,
                    p == pv[pi as int],
                    platform.downloads@.map_values(|d: DownloadInfo| d@) == p.downloads,
                    crate::model::opt_view(platform.platform_badge) == p.platform_badge,
                    dl_views(acc@) + row_for(p, fv.skip(k as int), first) == rows_for(
                        pv.take(pi as int),
                        fv,
                    ) + row_for(p, fv, true),
                decreases version.files@.len() - k,
            {
                let filename = &version.files[k];
                proof {
                    assert(fv[k as int] == filename@);
                    assert(fv.skip(k as int)[0] == fv[k as int]);
                    assert(fv.skip(k as int).skip(1) =~= fv.skip(k + 1));
                }
                match find_download(&platform.downloads, filename) {
                    Some(j) => {
                        let icon = if first {
                            clone_opt(&platform.platform_badge)
                        } else {
                            None
                        };
                        let ghost icon_v = crate::model::opt_view(icon);
                        let d = clone_with_icon(&platform.downloads[j], icon);
                        proof {
                            assert(platform.downloads@[j as int]@ == p.downloads[j as int]);
                            assert(d@ == (DlView { icon: icon_v, ..p.downloads[j as int] }));
                        }
                        acc.push(d);
                        proof {
                            assert(dl_views(acc@) =~= dl_views(acc@.drop_last()) + seq![d@]);
                            assert(row_for(p, fv.skip(k as int), first) == seq![d@] + row_for(
                                p,
                                fv.skip(k + 1),
                                false,
                            ));
                            assert(dl_views(acc@) + row_for(p, fv.skip(k + 1), false) =~= dl_views(
                                acc@.drop_last(),
                            ) + row_for(p, fv.skip(k as int), first));
                        }
                        first = false;
                    },
                    None => {
                        proof {
                            assert(row_for(p, fv.skip(k as int), first) == row_for(
                                p,
                                fv.skip(k + 1),
                                first,
                            ));
                        }
                    },
                }
                k = k + 1;
            }
            proof {
                assert(fv.skip(fv.len() as int) =~= Seq::<Seq<char>>::empty());
                assert(row_for(p, fv.skip(fv.len() as int), first) =~= Seq::<DlView>::empty());
                assert(dl_views(acc@) + Seq::<DlView>::empty() =~= dl_views(acc@));
                assert(pv.take(pi + 1).drop_last() =~= pv.take(pi as int));
                assert(pv.take(pi + 1).last() == p);
                assert(dl_views(acc@) =~= rows_for(pv.take(pi + 1), fv));
            }
            pi = pi + 1;
        }
        proof {
            assert(pv.take(pv.len() as int) =~= pv);
            assert(bs.take(i + 1).drop_last() =~= bs.take(i as int));
            assert(bs.take(i + 1).last() == bs[i as int]);
        }
        if acc.len() > 0 {
            let vd = VersionDownloads { version: version.version.clone(), downloads: acc };
            proof {
                assert(vd@ == (VdView {
                    version: bs[i as int].version,
                    downloads: rows_for(pv, fv),
                }));
            }
            r.push(vd);
            proof {
                assert(vd_views(r@) =~= boil_spec(bs.take(i + 1), pv));
            }
        } else {
            proof {
                assert(rows_for(pv, fv).len() == 0);
                assert(vd_views(r@) =~= boil_spec(bs.take(i + 1), pv));
            }
        }
        i = i + 1;
    }
    proof {
        assert(bs.take(bs.len() as int) =~= bs);
    }
    r
}

/// At most one entry of a platform's contribution to one version carries an
/// icon: the first one holds the platform's badge, every later one none.
pub proof fn lemma_icon_tiebreak(p: PlatformView, files: Seq<Seq<char>>)
    ensures
        forall|k: int|
            1 <= k < row_for(p, files, true).len() ==> (#[trigger] row_for(p, files, true)[k].icon)
                is None,
        row_for(p, files, true).len() > 0 ==> row_for(p, files, true)[0].icon == p.platform_badge,
    decreases files.len(),
{
    if files.len() > 0 {
        match find_dl(p.downloads, files[0]) {
            Some(j) => {
                lemma_row_no_icons(p, files.skip(1));
            },
            None => {
                lemma_icon_tiebreak(p, files.skip(1));
            },
        }
    }
}

/// The entry carrying the badge is the first filename match of the pair: if
/// file `k` is the first of the bucket's files to match one of the
/// platform's downloads, the platform's first contributed entry is the copy
/// of that first matching download, with the badge as its icon.
pub proof fn lemma_first_match_entry(p: PlatformView, files: Seq<Seq<char>>, k: int)
    requires
        0 <= k < files.len(),
        find_dl(p.downloads, files[k]) is Some,
        forall|m: int| 0 <= m < k ==> (#[trigger] find_dl(p.downloads, files[m])) is None,
    ensures
        row_for(p, files, true).len() > 0,
        (match find_dl(p.downloads, files[k]) {
            Some(j) => row_for(p, files, true)[0] == (DlView {
                icon: p.platform_badge,
                ..p.downloads[j]
            }),
            None => false,
        }),
    decreases k,
{
    if k == 0 {
    } else {
        assert(find_dl(p.downloads, files[0]) is None);
        assert forall|m: int| 0 <= m < k - 1 implies (#[trigger] find_dl(
            p.downloads,
            files.skip(1)[m],
        )) is None by {
            assert(files.skip(1)[m] == files[m + 1]);
        }
        assert(files.skip(1)[k - 1] == files[k]);
        lemma_first_match_entry(p, files.skip(1), k - 1);
    }
}

/// After the first match of a (version, platform) pair, every contributed
/// entry carries no icon at all.
proof fn lemma_row_no_icons(p: PlatformView, files: Seq<Seq<char>>)
    ensures
        forall|k: int|
            0 <= k < row_for(p, files, false).len() ==> (#[trigger] row_for(p, files, false)[k].icon)
                is None,
    decreases files.len(),
{
    if files.len() > 0 {
        lemma_row_no_icons(p, files.skip(1));
    }
}

/// No emitted history row has an empty download list.
pub proof fn lemma_history_rows_nonempty(bs: Seq<BucketView>, ps: Seq<PlatformView>)
    ensures
        forall|x: int|
            0 <= x < boil_spec(bs, ps).len() ==> (#[trigger] boil_spec(bs, ps)[x]).downloads.len()
                > 0,
    decreases bs.len(),
{
    if bs.len() > 0 {
        lemma_history_rows_nonempty(bs.drop_last(), ps);
        let pre = boil_spec(bs.drop_last(), ps);
        assert forall|x: int| 0 <= x < boil_spec(bs, ps).len() implies (#[trigger] boil_spec(
            bs,
            ps,
        )[x]).downloads.len() > 0 by {
            if x < pre.len() {
                assert(boil_spec(bs, ps)[x] == pre[x]);
            } else {
                assert(boil_spec(bs, ps)[x].downloads == rows_for(ps, bs.last().files));
            }
        }
    }
}

} // verus!
