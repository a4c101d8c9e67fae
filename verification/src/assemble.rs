//! Assembly of the published data product: snapshots are extracted, merged
//! and sorted, the pivot is built, the catalog is URL-resolved, the history
//! table is boiled, and everything is packed into one `GlobalMeta`.

use vstd::prelude::*;
use vstd::string::StringExecFns;
use crate::boil::{boil, boil_spec};
use crate::extract::extracted;
use crate::model::{File, GlobalMeta, PlatformInfo, platform_views};
use crate::order::{merged, parse_files, sort_desc};
use crate::pivot::{pivot, pivot_map};
use crate::resolve::{resolve_platforms, resolve_urls};

verus! {

impl GlobalMeta {
    /// Builds the published data product from the two snapshots, the curated
    /// catalog and the caller's configuration: the merged and sorted version
    /// buckets decide the application version (the sentinel where none was
    /// extracted), the catalog is URL-resolved against the pivot of those
    /// buckets, and the history table is boiled from buckets and resolved
    /// catalog.
    pub fn assemble(
        production: bool,
        url_base: &str,
        downloads: File,
        downloads_gold: File,
        platforms: Vec<PlatformInfo>,
    ) -> (r: GlobalMeta)
        ensures
            ({
                let buckets = merged(
                    sort_desc(extracted(downloads.children@)),
                    extracted(downloads_gold.children@),
                );
                let resolved = resolve_platforms(
                    platform_views(platforms@),
                    pivot_map(buckets),
                    url_base@,
                );
                &&& r@.prod == production
                &&& r@.platforms == resolved
                &&& r@.version_downloads == boil_spec(buckets, resolved)
                &&& r@.app_version == (if buckets.len() > 0 {
                    buckets[0].version
                } else {
                    "indeterminate"@
                })
            }),
    {
        let version_binaries = parse_files(downloads, downloads_gold);
        let file_versions = pivot(&version_binaries);
        let mut platforms = platforms;
        resolve_urls(&mut platforms, &file_versions, url_base);
        let version_downloads = boil(&version_binaries, &platforms);
        let app_version = if version_binaries.len() > 0 {
            version_binaries[0].version.clone()
        } else {
            String::from_str("indeterminate")
        };
        GlobalMeta { app_version, platforms, version_downloads, prod: production }
    }
}

} // verus!
