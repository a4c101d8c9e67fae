//! URL resolution: each catalog entry whose filename occurs in the pivot
//! table receives a computed download URL pointing at the newest version
//! holding that file; every other entry is left untouched.

use vstd::prelude::*;
use vstd::string::StringExecFns;
use crate::chars::{contains_seg, replace_char, replace_chars};
use crate::model::{DlView, PlatformInfo, PlatformView, platform_views};
use crate::pivot::Pivot;

verus! {

/// The resolved URL of a standard (free) artifact: the dots of the version
/// become underscores in the path segment.
pub open spec fn download_url_spec(
    url_base: Seq<char>,
    version: Seq<char>,
    filename: Seq<char>,
) -> Seq<char> {
    url_base + "/files/"@ + replace_chars(version, '.', '_') + "/"@ + filename
}

/// The resolved URL of a gold (paid) artifact.
pub open spec fn gold_download_url_spec(
    url_base: Seq<char>,
    version: Seq<char>,
    filename: Seq<char>,
) -> Seq<char> {
    url_base + "/api/goldfiles/"@ + replace_chars(version, '.', '_') + "/"@ + filename
}

/// Builds the download URL of a standard artifact.
pub fn download_path(url_base: &str, version: &str, filename: &str) -> (r: String)
    ensures
        r@ == download_url_spec(url_base@, version@, filename@),
{
    let mut r = url_base.to_owned();
    r.append("/files/");
    let under = replace_char(version, '.', '_');
    r.append(under.as_str());
    r.append("/");
    r.append(filename);
    r
}

/// Builds the download URL of a gold artifact.
pub fn gold_download_path(url_base: &str, version: &str, filename: &str) -> (r: String)
    ensures
        r@ == gold_download_url_spec(url_base@, version@, filename@),
{
    let mut r = url_base.to_owned();
    r.append("/api/goldfiles/");
    let under = replace_char(version, '.', '_');
    r.append(under.as_str());
    r.append("/");
    r.append(filename);
    r
}

/// One catalog entry after resolution: an entry with a filename that the
/// pivot table knows receives the URL of the newest version holding the
/// file, a gold entry through the gold path; any other entry is unchanged.
pub open spec fn resolve_dl(
    d: DlView,
    pm: Map<Seq<char>, Seq<Seq<char>>>,
    url_base: Seq<char>,
) -> DlView {
    match d.filename {
        Some(f) => if pm.contains_key(f) && pm[f].len() > 0 {
            DlView {
                download_url: Some(
                    if d.gold {
                        gold_download_url_spec(url_base, pm[f][0], f)
                    } else {
                        download_url_spec(url_base, pm[f][0], f)
                    },
                ),
                ..d
            }
        } else {
            d
        },
        None => d,
    }
}

/// One platform after resolution: its downloads resolved, the rest unchanged.
pub open spec fn resolve_platform(
    p: PlatformView,
    pm: Map<Seq<char>, Seq<Seq<char>>>,
    url_base: Seq<char>,
) -> PlatformView {
    PlatformView { downloads: p.downloads.map_values(|d: DlView| resolve_dl(d, pm, url_base)), ..p }
}

/// The catalog after resolution, in catalog order.
pub open spec fn resolve_platforms(
    ps: Seq<PlatformView>,
    pm: Map<Seq<char>, Seq<Seq<char>>>,
    url_base: Seq<char>,
) -> Seq<PlatformView> {
    ps.map_values(|p: PlatformView| resolve_platform(p, pm, url_base))
}

/// Attaches a download URL, in place, to every catalog entry whose filename
/// the pivot table knows; entries without a filename, or with a filename no
/// bucket holds, keep their download URL untouched.
pub fn resolve_urls(platforms: &mut Vec<PlatformInfo>, file_versions: &Pivot, url_base: &str)
    requires
        file_versions.keys_unique(),
    ensures
        platform_views(final(platforms)@) == resolve_platforms(
            platform_views(old(platforms)@),
            file_versions.as_map(),
            url_base@,
        ),
{
    let ghost ps0 = platform_views(old(platforms)@);
    let ghost pm = file_versions.as_map();
    let mut pi: usize = 0;
    while pi < platforms.len()
        invariant
            pi <= platforms@.len(),
            platforms@.len() == ps0.len(),
            forall|a: int|
                0 <= a < pi ==> (#[trigger] platforms@[a]@) == resolve_platform(
                    ps0[a],
                    pm,
                    url_base@,
                ),
            forall|a: int| pi <= a < ps0.len() ==> (#[trigger] platforms@[a]@) == ps0[a],
        decreases platforms@.len() - pi,
    {
        let ghost p0 = ps0[pi as int];
        proof {
            assert(platforms@[pi as int]@ == ps0[pi as int]);
        }
        let mut di: usize = 0;
        while di < platforms[pi].downloads.len()
            invariant
                pi < platforms@.len(),
                platforms@.len() == ps0.len(),
                di <= platforms@[pi as int].downloads@.len(),
                forall|a: int|
                    0 <= a < pi ==> (#[trigger] platforms@[a]@) == resolve_platform(
                        ps0[a],
                        pm,
                        url_base@,
                    ),
                forall|a: int| pi < a < ps0.len() ==> (#[trigger] platforms@[a]@) == ps0[a],
                p0 == ps0[pi as int],
                platforms@[pi as int].title@ == p0.title,
                crate::model::opt_view(platforms@[pi as int].platform_badge) == p0.platform_badge,
                platforms@[pi as int].platform_key@ == p0.platform_key,
                platforms@[pi as int].downloads@.len() == p0.downloads.len(),
                forall|c: int|
                    0 <= c < di ==> (#[trigger] platforms@[pi as int].downloads@[c]@) == resolve_dl(
                        p0.downloads[c],
                        pm,
                        url_base@,
                    ),
                forall|c: int|
                    di <= c < p0.downloads.len() ==> (#[trigger] platforms@[pi as int].downloads@[c]@)
                        == p0.downloads[c],
            decreases platforms@[pi as int].downloads@.len() - di,
        {
            let ghost d0 = p0.downloads[di as int];
            proof {
                assert(platforms@[pi as int].downloads@[di as int]@ == d0);
            }
            let fopt = crate::model::clone_opt(&platforms[pi].downloads[di].filename);
            match fopt {
                Some(f) => {
                    proof {
                        assert(d0.filename == Some(f@));
                    }
                    match file_versions.get(&f) {
                        Some(vers) => {
                            if vers.len() > 0 {
                                let first = &vers[0];
                                proof {
                                    assert(pm.contains_key(f@) && pm[f@].len() > 0);
                                    assert(crate::model::str_views(vers@)[0] == first@);
                                    assert(pm[f@][0] == first@);
                                }
                                let u = if platforms[pi].downloads[di].gold {
                                    gold_download_path(url_base, first.as_str(), f.as_str())
                                } else {
                                    download_path(url_base, first.as_str(), f.as_str())
                                };
                                platforms[pi].downloads[di].download_url = Some(u);
                                proof {
                                    assert(platforms@[pi as int].downloads@[di as int]@
                                        == resolve_dl(d0, pm, url_base@));
                                }
                            } else {
                                proof {
                                    assert(pm[f@].len() == 0);
                                    assert(resolve_dl(d0, pm, url_base@) == d0);
                                }
                            }
                        },
                        None => {
                            proof {
                                assert(!pm.contains_key(f@));
                                assert(resolve_dl(d0, pm, url_base@) == d0);
                            }
                        },
                    }
                },
                None => {
                    proof {
                        assert(d0.filename is None);
                        assert(resolve_dl(d0, pm, url_base@) == d0);
                    }
                },
            }
            proof {
                assert(platforms@[pi as int].downloads@[di as int]@ == resolve_dl(
                    d0,
                    pm,
                    url_base@,
                ));
            }
            di = di + 1;
        }
        proof {
            assert(platforms@[pi as int]@ == resolve_platform(p0, pm, url_base@)) by {
                assert(platforms@[pi as int]@.downloads =~= resolve_platform(
                    p0,
                    pm,
                    url_base@,
                ).downloads);
            }
        }
        pi = pi + 1;
    }
    proof {
        assert(platform_views(platforms@) =~= resolve_platforms(ps0, pm, url_base@));
    }
}

/// For a catalog entry whose filename the pivot table holds, resolution sets
/// a URL; a gold entry's URL holds the `/api/goldfiles/` segment, a standard
/// entry's the `/files/` segment, and in both the newest version appears
/// with its dots replaced by underscores.
pub proof fn lemma_resolved_url_shape(
    d: DlView,
    pm: Map<Seq<char>, Seq<Seq<char>>>,
    url_base: Seq<char>,
    f: Seq<char>,
)
    requires
        d.filename == Some(f),
        pm.contains_key(f),
        pm[f].len() > 0,
    ensures
        resolve_dl(d, pm, url_base).download_url is Some,
        (match resolve_dl(d, pm, url_base).download_url {
            Some(u) => {
                &&& d.gold ==> contains_seg(u, "/api/goldfiles/"@)
                &&& !d.gold ==> contains_seg(u, "/files/"@)
                &&& contains_seg(u, replace_chars(pm[f][0], '.', '_'))
            },
            None => false,
        }),
{
    let v = replace_chars(pm[f][0], '.', '_');
    if d.gold {
        let u = gold_download_url_spec(url_base, pm[f][0], f);
        let seg = "/api/goldfiles/"@;
        assert(u.subrange(url_base.len() as int, (url_base.len() + seg.len()) as int) =~= seg);
        assert(contains_seg(u, seg));
        assert(u.subrange(
            (url_base.len() + seg.len()) as int,
            (url_base.len() + seg.len() + v.len()) as int,
        ) =~= v);
        assert(contains_seg(u, v));
    } else {
        let u = download_url_spec(url_base, pm[f][0], f);
        let seg = "/files/"@;
        assert(u.subrange(url_base.len() as int, (url_base.len() + seg.len()) as int) =~= seg);
        assert(contains_seg(u, seg));
        assert(u.subrange(
            (url_base.len() + seg.len()) as int,
            (url_base.len() + seg.len() + v.len()) as int,
        ) =~= v);
        assert(contains_seg(u, v));
    }
}

} // verus!
