//! Version extraction: turns one level of a directory-tree snapshot into the
//! list of version buckets, keeping exactly the non-empty children whose name
//! holds an underscore and converting underscores to dots.

use vstd::prelude::*;
use crate::chars::{contains_char, replace_char, replace_chars};
use crate::model::{BinaryVersion, BucketView, File, bucket_views, str_views};

verus! {

/// A direct child is a version directory when it has at least one child of
/// its own and its name holds an underscore.
pub open spec fn is_version_dir(c: File) -> bool {
    c.children@.len() > 0 && c.name@.contains('_')
}

/// The names of a listing of files, in listing order.
pub open spec fn file_names(cs: Seq<File>) -> Seq<Seq<char>> {
    cs.map_values(|sc: File| sc.name@)
}

/// The bucket a version directory stands for: its name with underscores
/// turned into dots, and the names of its children in listing order.
pub open spec fn bucket_of(c: File) -> BucketView {
    BucketView { version: replace_chars(c.name@, '_', '.'), files: file_names(c.children@) }
}

/// The buckets extracted from a listing of direct children, in listing order.
pub open spec fn extracted(cs: Seq<File>) -> Seq<BucketView>
    decreases cs.len(),
{
    if cs.len() == 0 {
        Seq::empty()
    } else {
        extracted(cs.drop_last()) + if is_version_dir(cs.last()) {
            seq![bucket_of(cs.last())]
        } else {
            Seq::empty()
        }
    }
}

/// Collects the names of one directory's children, in listing order.
fn child_names(children: &Vec<File>) -> (r: Vec<String>)
    ensures
        str_views(r@) == file_names(children@),
{
    let mut r: Vec<String> = Vec::new();
    let mut i: usize = 0;
    while i < children.len()
        invariant
            i <= children.len(),
            r@.len() == i,
            forall|k: int| 0 <= k < i ==> r@[k]@ == children@[k].name@,
        decreases children.len() - i,
    {
        r.push(children[i].name.clone());
        i = i + 1;
    }
    proof {
        assert(str_views(r@) =~= file_names(children@));
    }
    r
}

/// Extracts the version buckets of a snapshot: for each direct child of the
/// root that is a non-empty directory whose name holds an underscore, one
/// bucket with the underscores of the name turned into dots and the names of
/// its children as files.  Other children are skipped; listing order is kept.
pub fn to_binaries_per_version(files: File) -> (r: Vec<BinaryVersion>)
    ensures
        bucket_views(r@) == extracted(files.children@),
{
    let mut r: Vec<BinaryVersion> = Vec::new();
    let mut i: usize = 0;
    while i < files.children.len()
        invariant
            i <= files.children.len(),
            bucket_views(r@) == extracted(files.children@.take(i as int)),
        decreases files.children.len() - i,
    {
        proof {
            assert(files.children@.take(i + 1).drop_last() =~= files.children@.take(i as int));
            assert(files.children@.take(i + 1).last() == files.children@[i as int]);
        }
        let child = &files.children[i];
        if child.children.len() > 0 && contains_char(child.name.as_str(), '_') {
            let b = BinaryVersion {
                version: replace_char(child.name.as_str(), '_', '.'),
                files: child_names(&child.children),
            };
            r.push(b);
            proof {
                assert(bucket_views(r@) =~= extracted(files.children@.take(i + 1)));
            }
        } else {
            proof {
                assert(bucket_views(r@) =~= extracted(files.children@.take(i + 1)));
            }
        }
        i = i + 1;
    }
    proof {
        assert(files.children@.take(files.children@.len() as int) =~= files.children@);
    }
    r
}

} // verus!
