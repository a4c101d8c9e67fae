use downloads_meta::docnav::{Category, DocMeta, Document, generate_docnav_html};

fn doc(path: &str, title: &str) -> Document {
    Document { path: path.to_string(), meta: DocMeta { title: title.to_string() } }
}

#[test]
fn docnav_renders_tree_in_order() {
    let root = Category {
        path: "docs".to_string(),
        meta: DocMeta { title: "Docs".to_string() },
        sub_categories: vec![Category {
            path: "docs/guide".to_string(),
            meta: DocMeta { title: "Guide".to_string() },
            sub_categories: vec![],
            documents: vec![doc("docs/guide/intro", "Intro")],
        }],
        documents: vec![doc("docs/faq", "FAQ")],
    };
    let html = generate_docnav_html(&root, "docs/faq");
    let expected = "<p><a href=/docs class=\"category-link\">Docs</a></p>\
<div class=\"category\">\
<p><a href=/docs/guide class=\"category-link\">Guide</a></p>\
<div class=\"category\">\
<a href=/docs/guide/intro>Intro</a>\
</div>\
<a href=/docs/faq>FAQ</a>\
</div>";
    assert_eq!(html, expected);
}

#[test]
fn docnav_leaf_category() {
    let root = Category {
        path: "docs".to_string(),
        meta: DocMeta { title: "Docs".to_string() },
        sub_categories: vec![],
        documents: vec![],
    };
    let html = generate_docnav_html(&root, "");
    assert_eq!(
        html,
        "<p><a href=/docs class=\"category-link\">Docs</a></p><div class=\"category\"></div>"
    );
}
