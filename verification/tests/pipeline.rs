use downloads_meta::boil::boil;
use downloads_meta::chars::{contains_char, replace_char};
use downloads_meta::extract::to_binaries_per_version;
use downloads_meta::model::{BinaryVersion, DownloadInfo, File, GlobalMeta, PlatformInfo};
use downloads_meta::order::{merge_gold, parse_files, sort_buckets};
use downloads_meta::pivot::pivot;
use downloads_meta::resolve::{download_path, gold_download_path, resolve_urls};

fn dir(name: &str, files: &[&str]) -> File {
    File {
        name: name.to_string(),
        is_dir: true,
        children: files
            .iter()
            .map(|f| File { name: f.to_string(), is_dir: false, children: Vec::new() })
            .collect(),
    }
}

fn root(children: Vec<File>) -> File {
    File { name: "downloads".to_string(), is_dir: true, children }
}

fn dl(name: &str, filename: Option<&str>, gold: bool) -> DownloadInfo {
    DownloadInfo {
        name: name.to_string(),
        icon: None,
        url: None,
        download_url: None,
        service_img: None,
        service_alt: None,
        short_name: None,
        whats_this: None,
        whats_this_url: None,
        filename: filename.map(|f| f.to_string()),
        gold,
    }
}

fn platform(title: &str, badge: Option<&str>, downloads: Vec<DownloadInfo>) -> PlatformInfo {
    PlatformInfo {
        title: title.to_string(),
        platform_badge: badge.map(|b| b.to_string()),
        platform_key: title.to_lowercase(),
        downloads,
    }
}

#[test]
fn replace_underscores_with_dots() {
    assert_eq!(replace_char("1_10_0", '_', '.'), "1.10.0");
    assert_eq!(replace_char("1.10.0", '.', '_'), "1_10_0");
    assert_eq!(replace_char("", '.', '_'), "");
    assert_eq!(replace_char("nodots", '.', '_'), "nodots");
}

#[test]
fn contains_char_finds_underscores() {
    assert!(contains_char("1_9_0", '_'));
    assert!(!contains_char("README", '_'));
    assert!(!contains_char("", '_'));
}

#[test]
fn extraction_skips_strays() {
    let tree = root(vec![
        dir("1_9_0", &["a.apk"]),
        dir("stray", &["x"]),          // no underscore: skipped
        dir("2_0_0", &[]),             // empty: skipped
        File { name: "note_s.txt".to_string(), is_dir: false, children: Vec::new() },
    ]);
    let buckets = to_binaries_per_version(tree);
    assert_eq!(buckets.len(), 1);
    assert_eq!(buckets[0].version, "1.9.0");
    assert_eq!(buckets[0].files, vec!["a.apk".to_string()]);
}

#[test]
fn natural_sort_is_numeric_not_lexicographic() {
    let buckets = vec![
        BinaryVersion { version: "1.9.0".to_string(), files: vec![] },
        BinaryVersion { version: "1.2.0".to_string(), files: vec![] },
        BinaryVersion { version: "1.10.0".to_string(), files: vec![] },
    ];
    let sorted = sort_buckets(&buckets);
    let versions: Vec<&str> = sorted.iter().map(|b| b.version.as_str()).collect();
    assert_eq!(versions, ["1.10.0", "1.9.0", "1.2.0"]);
}

#[test]
fn merge_appends_gold_files() {
    let standard = vec![
        BinaryVersion { version: "1.10.0".to_string(), files: vec!["a.apk".to_string()] },
        BinaryVersion {
            version: "1.9.0".to_string(),
            files: vec!["a.apk".to_string(), "b.exe".to_string()],
        },
    ];
    let gold = vec![BinaryVersion {
        version: "1.9.0".to_string(),
        files: vec!["a_gold.apk".to_string()],
    }];
    let merged = merge_gold(&standard, &gold);
    assert_eq!(merged[0].files, vec!["a.apk".to_string()]);
    assert_eq!(
        merged[1].files,
        vec!["a.apk".to_string(), "b.exe".to_string(), "a_gold.apk".to_string()]
    );
}

#[test]
fn standard_tree_with_gold_scenario() {
    // Standard buckets 1_9_0 -> [a.apk, b.exe] and 1_10_0 -> [a.apk];
    // gold bucket 1_9_0 -> [a_gold.apk].
    let standard = root(vec![dir("1_9_0", &["a.apk", "b.exe"]), dir("1_10_0", &["a.apk"])]);
    let gold = root(vec![dir("1_9_0", &["a_gold.apk"])]);
    let buckets = parse_files(standard, gold);

    assert_eq!(buckets.len(), 2);
    assert_eq!(buckets[0].version, "1.10.0");
    assert_eq!(buckets[0].files, vec!["a.apk".to_string()]);
    assert_eq!(buckets[1].version, "1.9.0");
    assert_eq!(
        buckets[1].files,
        vec!["a.apk".to_string(), "b.exe".to_string(), "a_gold.apk".to_string()]
    );

    let table = pivot(&buckets);
    let versions = table.get(&"a.apk".to_string()).expect("a.apk must be known");
    assert_eq!(versions, &vec!["1.10.0".to_string(), "1.9.0".to_string()]);

    let mut platforms = vec![platform("Android", Some("android-badge"), vec![dl(
        "Android build",
        Some("a.apk"),
        false,
    )])];
    resolve_urls(&mut platforms, &table, "https://example.org");
    // Newest version wins: 1_10_0, not 1_9_0.
    assert_eq!(
        platforms[0].downloads[0].download_url.as_deref(),
        Some("https://example.org/files/1_10_0/a.apk")
    );
}

#[test]
fn assemble_full_scenario() {
    let standard = root(vec![dir("1_9_0", &["a.apk", "b.exe"]), dir("1_10_0", &["a.apk"])]);
    let gold = root(vec![dir("1_9_0", &["a_gold.apk"])]);
    let platforms = vec![
        platform("Android", Some("android-badge"), vec![dl("Android", Some("a.apk"), false)]),
        platform("Windows", Some("win-badge"), vec![dl("Windows", Some("b.exe"), false)]),
    ];
    let meta = GlobalMeta::assemble(true, "https://example.org", standard, gold, platforms);
    assert_eq!(meta.app_version, "1.10.0");
    assert!(meta.prod);
    // History: 1.10.0 row has only the Android a.apk entry; 1.9.0 has all.
    assert_eq!(meta.version_downloads.len(), 2);
    assert_eq!(meta.version_downloads[0].version, "1.10.0");
    assert_eq!(meta.version_downloads[0].downloads.len(), 1);
    assert_eq!(meta.version_downloads[0].downloads[0].name, "Android");
    assert_eq!(meta.version_downloads[1].version, "1.9.0");
    let names: Vec<&str> =
        meta.version_downloads[1].downloads.iter().map(|d| d.name.as_str()).collect();
    assert_eq!(names, ["Android", "Windows"]);
}

#[test]
fn no_version_directories_scenario() {
    // No version directories in either snapshot: the sentinel version is
    // published and the history is empty.
    let standard = root(vec![]);
    let gold = root(vec![]);
    let meta = GlobalMeta::assemble(false, "https://example.org", standard, gold, vec![
        platform("Android", None, vec![dl("Android", Some("a.apk"), false)]),
    ]);
    assert_eq!(meta.app_version, "indeterminate");
    assert!(meta.version_downloads.is_empty());
    assert!(!meta.prod);
    assert_eq!(meta.platforms[0].downloads[0].download_url, None);
}

#[test]
fn orphan_gold_bucket_is_dropped() {
    // A gold bucket with no matching standard version never surfaces.
    let standard = root(vec![dir("1_0_0", &["a.apk"])]);
    let gold = root(vec![dir("2_0_0", &["secret.apk"])]);
    let platforms = vec![platform("Android", None, vec![
        dl("Android", Some("a.apk"), false),
        dl("Gold", Some("secret.apk"), true),
    ])];
    let meta = GlobalMeta::assemble(false, "https://example.org", standard, gold, platforms);
    assert_eq!(meta.app_version, "1.0.0");
    // The orphan file resolves nowhere and appears in no history row.
    assert_eq!(meta.platforms[0].downloads[1].download_url, None);
    for row in &meta.version_downloads {
        for d in &row.downloads {
            assert_ne!(d.filename.as_deref(), Some("secret.apk"));
        }
    }
}

#[test]
fn url_paths_exact() {
    assert_eq!(
        download_path("https://example.org", "1.10.0", "a.apk"),
        "https://example.org/files/1_10_0/a.apk"
    );
    assert_eq!(
        gold_download_path("https://example.org", "1.10.0", "a_gold.apk"),
        "https://example.org/api/goldfiles/1_10_0/a_gold.apk"
    );
}

#[test]
fn gold_entry_resolves_through_gold_path() {
    let standard = root(vec![dir("1_0_0", &["a.apk"])]);
    let gold = root(vec![dir("1_0_0", &["a_gold.apk"])]);
    let buckets = parse_files(standard, gold);
    let table = pivot(&buckets);
    let mut platforms = vec![platform("Android", None, vec![dl(
        "Gold build",
        Some("a_gold.apk"),
        true,
    )])];
    resolve_urls(&mut platforms, &table, "https://example.org");
    assert_eq!(
        platforms[0].downloads[0].download_url.as_deref(),
        Some("https://example.org/api/goldfiles/1_0_0/a_gold.apk")
    );
}

#[test]
fn pivot_lookup_missing_filename() {
    let buckets = vec![BinaryVersion {
        version: "1.0.0".to_string(),
        files: vec!["a.apk".to_string()],
    }];
    let table = pivot(&buckets);
    assert!(table.get(&"missing.apk".to_string()).is_none());
}

#[test]
fn boil_assigns_badge_to_first_match_only() {
    let buckets = vec![BinaryVersion {
        version: "1.0.0".to_string(),
        files: vec!["a.apk".to_string(), "b.exe".to_string()],
    }];
    let platforms = vec![platform("Android", Some("badge"), vec![
        dl("A", Some("a.apk"), false),
        dl("B", Some("b.exe"), false),
    ])];
    let rows = boil(&buckets, &platforms);
    assert_eq!(rows.len(), 1);
    assert_eq!(rows[0].downloads.len(), 2);
    assert_eq!(rows[0].downloads[0].icon.as_deref(), Some("badge"));
    assert_eq!(rows[0].downloads[1].icon, None);
}

#[test]
fn boil_first_duplicate_in_catalog_wins() {
    let buckets = vec![BinaryVersion {
        version: "1.0.0".to_string(),
        files: vec!["a.apk".to_string()],
    }];
    let platforms = vec![platform("Android", None, vec![
        dl("first", Some("a.apk"), false),
        dl("second", Some("a.apk"), false),
    ])];
    let rows = boil(&buckets, &platforms);
    assert_eq!(rows.len(), 1);
    assert_eq!(rows[0].downloads.len(), 1);
    assert_eq!(rows[0].downloads[0].name, "first");
}

#[test]
fn boil_emits_no_empty_rows() {
    let buckets = vec![
        BinaryVersion { version: "2.0.0".to_string(), files: vec!["none.zip".to_string()] },
        BinaryVersion { version: "1.0.0".to_string(), files: vec!["a.apk".to_string()] },
    ];
    let platforms = vec![platform("Android", None, vec![dl("A", Some("a.apk"), false)])];
    let rows = boil(&buckets, &platforms);
    assert_eq!(rows.len(), 1);
    assert_eq!(rows[0].version, "1.0.0");
    for row in &rows {
        assert!(!row.downloads.is_empty());
    }
}

#[test]
fn history_lists_every_version_of_a_file() {
    // The same filename recurs across versions: one history row per version,
    // while the catalog link points only at the newest.
    let standard = root(vec![dir("1_0_0", &["a.apk"]), dir("2_0_0", &["a.apk"])]);
    let gold = root(vec![]);
    let platforms = vec![platform("Android", None, vec![dl("A", Some("a.apk"), false)])];
    let meta = GlobalMeta::assemble(false, "https://x", standard, gold, platforms);
    assert_eq!(meta.version_downloads.len(), 2);
    assert_eq!(meta.version_downloads[0].version, "2.0.0");
    assert_eq!(meta.version_downloads[1].version, "1.0.0");
    assert_eq!(
        meta.platforms[0].downloads[0].download_url.as_deref(),
        Some("https://x/files/2_0_0/a.apk")
    );
}
