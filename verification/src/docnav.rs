//! The documentation sidebar: a fully expanded HTML rendering of the
//! category tree, one paragraph link per category and one plain link per
//! document, depth first in tree order.

use vstd::prelude::*;
use vstd::string::StringExecFns;

verus! {

/// Title metadata of a document or category.
pub struct DocMeta {
    pub title: String,
}

/// One document of the tree: where it is published and its metadata.
pub struct Document {
    pub path: String,
    pub meta: DocMeta,
}

/// One category of the tree, holding sub-categories and documents.
pub struct Category {
    pub path: String,
    pub meta: DocMeta,
    pub sub_categories: Vec<Category>,
    pub documents: Vec<Document>,
}

/// The link rendered for one document.
pub open spec fn doc_link_html(d: Document) -> Seq<char> {
    "<a href=/"@ + d.path@ + ">"@ + d.meta.title@ + "</a>"@
}

/// The links rendered for a list of documents, in list order.
pub open spec fn doc_links_html(ds: Seq<Document>) -> Seq<char>
    decreases ds.len(),
{
    if ds.len() == 0 {
        Seq::empty()
    } else {
        doc_links_html(ds.drop_last()) + doc_link_html(ds.last())
    }
}

/// The sidebar HTML of one category: its own link, then a division holding
/// the sub-categories' renderings followed by the documents' links.
pub open spec fn docnav_html(root: Category) -> Seq<char>
    decreases root, 0int,
{
    "<p><a href=/"@ + root.path@ + " class=\"category-link\">"@ + root.meta.title@ + "</a></p>"@
        + "<div class=\"category\">"@ + subcats_html(
        root.sub_categories@,
        root.sub_categories@.len() as int,
    ) + doc_links_html(root.documents@) + "</div>"@
}

/// The renderings of the first `n` sub-categories, in order.
pub open spec fn subcats_html(cs: Seq<Category>, n: int) -> Seq<char>
    decreases cs, n,
{
    if n <= 0 || n > cs.len() {
        Seq::empty()
    } else {
        subcats_html(cs, n - 1) + docnav_html(cs[n - 1])
    }
}

/// Renders the sidebar for the category tree under `root`: the category's
/// own link, then its sub-categories fully expanded, then its documents.
pub fn generate_docnav_html(root: &Category, focused_doc_path: &str) -> (r: String)
    ensures
        r@ == docnav_html(*root),
    decreases *root,
{
    let mut s = String::new();
    s.append("<p><a href=/");
    s.append(root.path.as_str());
    s.append(" class=\"category-link\">");
    s.append(root.meta.title.as_str());
    s.append("</a></p>");
    s.append("<div class=\"category\">");
    let ghost head = s@;
    let mut i: usize = 0;
    while i < root.sub_categories.len()
        invariant
            i <= root.sub_categories@.len(),
            s@ == head + subcats_html(root.sub_categories@, i as int),
        decreases root.sub_categories@.len() - i,
    {
        proof {
            assert(decreases_to!(*root => root.sub_categories@[i as int]));
        }
        let sub = generate_docnav_html(&root.sub_categories[i], focused_doc_path);
        s.append(sub.as_str());
        proof {
            assert(s@ =~= head + subcats_html(root.sub_categories@, i + 1));
        }
        i = i + 1;
    }
    let ghost mid = s@;
    let mut j: usize = 0;
    while j < root.documents.len()
        invariant
            j <= root.documents@.len(),
            s@ == mid + doc_links_html(root.documents@.take(j as int)),
        decreases root.documents@.len() - j,
    {
        let d = &root.documents[j];
        s.append("<a href=/");
        s.append(d.path.as_str());
        s.append(">");
        s.append(d.meta.title.as_str());
        s.append("</a>");
        proof {
            assert(root.documents@.take(j + 1).drop_last() =~= root.documents@.take(j as int));
            assert(root.documents@.take(j + 1).last() == root.documents@[j as int]);
            assert(s@ =~= mid + doc_links_html(root.documents@.take(j + 1)));
        }
        j = j + 1;
    }
    s.append("</div>");
    proof {
        assert(s@ == head + subcats_html(root.sub_categories@, i as int) + doc_links_html(
            root.documents@.take(j as int),
        ) + "</div>"@);
        assert(root.documents@.take(root.documents@.len() as int) =~= root.documents@);
        assert(s@ =~= docnav_html(*root));
    }
    s
}

} // verus!
