//! The data model of the download catalog: directory snapshots, version
//! buckets, the platform catalog, and the published result.  Each executable
//! type has a mathematical view over `Seq` and `Option<Seq<char>>` that the
//! contracts of the pipeline stages speak of.

use vstd::prelude::*;

verus! {

/// One level of a directory-tree snapshot.
#[derive(Debug)]
pub struct File {
    pub name: String,
    pub is_dir: bool,
    pub children: Vec<File>,
}

/// One version directory: the version string (underscores already turned into
/// dots) and the artifact filenames listed under it.
#[derive(Debug)]
pub struct BinaryVersion {
    pub version: String,
    pub files: Vec<String>,
}

/// Per-platform download descriptor from the curated catalog.
#[derive(Debug)]
pub struct DownloadInfo {
    pub name: String,
    pub icon: Option<String>,
    pub url: Option<String>,
    pub download_url: Option<String>,
    pub service_img: Option<String>,
    pub service_alt: Option<String>,
    pub short_name: Option<String>,
    pub whats_this: Option<String>,
    pub whats_this_url: Option<String>,
    pub filename: Option<String>,
    pub gold: bool,
}

/// One platform of the curated catalog with its ordered downloads.
#[derive(Debug)]
pub struct PlatformInfo {
    pub title: String,
    pub platform_badge: Option<String>,
    pub platform_key: String,
    pub downloads: Vec<DownloadInfo>,
}

/// One row of the per-version download history table.
#[derive(Debug)]
pub struct VersionDownloads {
    pub version: String,
    pub downloads: Vec<DownloadInfo>,
}

/// The published, immutable data product consumed by template rendering.
#[derive(Debug)]
pub struct GlobalMeta {
    pub app_version: String,
    pub platforms: Vec<PlatformInfo>,
    pub version_downloads: Vec<VersionDownloads>,
    pub prod: bool,
}

/// Mathematical view of a `BinaryVersion`.
pub struct BucketView {
    pub version: Seq<char>,
    pub files: Seq<Seq<char>>,
}

/// Mathematical view of a `DownloadInfo`.
pub struct DlView {
    pub name: Seq<char>,
    pub icon: Option<Seq<char>>,
    pub url: Option<Seq<char>>,
    pub download_url: Option<Seq<char>>,
    pub service_img: Option<Seq<char>>,
    pub service_alt: Option<Seq<char>>,
    pub short_name: Option<Seq<char>>,
    pub whats_this: Option<Seq<char>>,
    pub whats_this_url: Option<Seq<char>>,
    pub filename: Option<Seq<char>>,
    pub gold: bool,
}

/// Mathematical view of a `PlatformInfo`.
pub struct PlatformView {
    pub title: Seq<char>,
    pub platform_badge: Option<Seq<char>>,
    pub platform_key: Seq<char>,
    pub downloads: Seq<DlView>,
}

/// Mathematical view of a `VersionDownloads`.
pub struct VdView {
    pub version: Seq<char>,
    pub downloads: Seq<DlView>,
}

/// Mathematical view of a `GlobalMeta`.
pub struct MetaView {
    pub app_version: Seq<char>,
    pub platforms: Seq<PlatformView>,
    pub version_downloads: Seq<VdView>,
    pub prod: bool,
}

/// The view of an optional string.
pub open spec fn opt_view(o: Option<String>) -> Option<Seq<char>> {
    match o {
        Some(s) => Some(s@),
        None => None,
    }
}

/// The views of a sequence of strings.
pub open spec fn str_views(v: Seq<String>) -> Seq<Seq<char>> {
    v.map_values(|s: String| s@)
}

impl View for BinaryVersion {
    type V = BucketView;

    open spec fn view(&self) -> BucketView {
        BucketView { version: self.version@, files: str_views(self.files@) }
    }
}

impl View for DownloadInfo {
    type V = DlView;

    open spec fn view(&self) -> DlView {
        DlView {
            name: self.name@,
            icon: opt_view(self.icon),
            url: opt_view(self.url),
            download_url: opt_view(self.download_url),
            service_img: opt_view(self.service_img),
            service_alt: opt_view(self.service_alt),
            short_name: opt_view(self.short_name),
            whats_this: opt_view(self.whats_this),
            whats_this_url: opt_view(self.whats_this_url),
            filename: opt_view(self.filename),
            gold: self.gold,
        }
    }
}

impl View for PlatformInfo {
    type V = PlatformView;

    open spec fn view(&self) -> PlatformView {
        PlatformView {
            title: self.title@,
            platform_badge: opt_view(self.platform_badge),
            platform_key: self.platform_key@,
            downloads: dl_views(self.downloads@),
        }
    }
}

impl View for VersionDownloads {
    type V = VdView;

    open spec fn view(&self) -> VdView {
        VdView { version: self.version@, downloads: dl_views(self.downloads@) }
    }
}

impl View for GlobalMeta {
    type V = MetaView;

    open spec fn view(&self) -> MetaView {
        MetaView {
            app_version: self.app_version@,
            platforms: platform_views(self.platforms@),
            version_downloads: vd_views(self.version_downloads@),
            prod: self.prod,
        }
    }
}

/// The views of a sequence of buckets.
pub open spec fn bucket_views(v: Seq<BinaryVersion>) -> Seq<BucketView> {
    v.map_values(|b: BinaryVersion| b@)
}

/// The views of a sequence of downloads.
pub open spec fn dl_views(v: Seq<DownloadInfo>) -> Seq<DlView> {
    v.map_values(|d: DownloadInfo| d@)
}

/// The views of a sequence of platforms.
pub open spec fn platform_views(v: Seq<PlatformInfo>) -> Seq<PlatformView> {
    v.map_values(|p: PlatformInfo| p@)
}

/// The views of a sequence of history rows.
pub open spec fn vd_views(v: Seq<VersionDownloads>) -> Seq<VdView> {
    v.map_values(|vd: VersionDownloads| vd@)
}

/// Copies an optional string.
pub fn clone_opt(o: &Option<String>) -> (r: Option<String>)
    ensures
        r == *o,
{
    match o {
        Some(s) => Some(s.clone()),
        None => None,
    }
}

/// Copies a list of strings.
pub fn clone_strings(v: &Vec<String>) -> (r: Vec<String>)
    ensures
        r@ == v@,
{
    let mut r: Vec<String> = Vec::new();
    let mut i: usize = 0;
    while i < v.len()
        invariant
            i <= v.len(),
            r@ == v@.take(i as int),
        decreases v.len() - i,
    {
        r.push(v[i].clone());
        proof {
            assert(v@.take(i + 1) =~= v@.take(i as int).push(v@[i as int]));
        }
        i = i + 1;
    }
    proof {
        assert(v@.take(v@.len() as int) =~= v@);
    }
    r
}

/// Copies a download entry, giving the copy the supplied icon in place of the
/// original's.
pub fn clone_with_icon(d: &DownloadInfo, icon: Option<String>) -> (r: DownloadInfo)
    ensures
        r@ == (DlView { icon: opt_view(icon), ..d@ }),
{
    DownloadInfo {
        name: d.name.clone(),
        icon,
        url: clone_opt(&d.url),
        download_url: clone_opt(&d.download_url),
        service_img: clone_opt(&d.service_img),
        service_alt: clone_opt(&d.service_alt),
        short_name: clone_opt(&d.short_name),
        whats_this: clone_opt(&d.whats_this),
        whats_this_url: clone_opt(&d.whats_this_url),
        filename: clone_opt(&d.filename),
        gold: d.gold,
    }
}

} // verus!
