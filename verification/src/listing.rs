//! The HTML directory listing: a fixed page head, a parent-directory link
//! when the listed directory is not the served root, and one list item per
//! entry, directories as links with a trailing slash, files as plain links.

use crate::entries::{models, DirectoryEntry, EntryKind, EntryModel};
use vstd::prelude::*;

verus! {

/// The opening of the listing document, up to and including the page title.
pub open spec fn page_head_html() -> Seq<char> {
    "<!DOCTYPE html>\n<html>\n<head>\n    <meta charset=\"utf-8\">\n    <title>Directory listing</title>\n    <style>\n        body { font-family: system-ui, sans-serif; max-width: 800px; margin: 0 auto; padding: 2rem; }\n        ul { list-style-type: none; padding: 0; }\n        li { margin: 0.5rem 0; }\n        a { text-decoration: none; color: #2563eb; }\n        a:hover { text-decoration: underline; }\n    </style>\n</head>\n<body>\n    <h1>Directory listing</h1>"@
}

/// The link back to the parent directory.
pub open spec fn parent_link_html() -> Seq<char> {
    "<p><a href=\"../\">[dir] ..</a></p>"@
}

/// The list item for one entry: directories link with a trailing slash,
/// files link plainly, each behind a marker for its kind.
pub open spec fn listing_item_html(e: EntryModel) -> Seq<char> {
    if e.dir {
        "<li>[dir] <a href=\""@ + e.name + "/\">"@ + e.name + "/</a></li>"@
    } else {
        "<li>[file] <a href=\""@ + e.name + "\">"@ + e.name + "</a></li>"@
    }
}

/// The list items of the entries, in the order given.
pub open spec fn listing_items_html(s: Seq<EntryModel>) -> Seq<char>
    decreases s.len(),
{
    if s.len() == 0 {
        Seq::<char>::empty()
    } else {
        listing_items_html(s.drop_last()) + listing_item_html(s.last())
    }
}

/// Everything of the page before the list items.
pub open spec fn page_prefix_html(is_root: bool) -> Seq<char> {
    page_head_html() + (if is_root {
        Seq::<char>::empty()
    } else {
        parent_link_html()
    }) + "<ul>"@
}

/// The whole listing page for the entries, in the order given.
pub open spec fn listing_page_html(s: Seq<EntryModel>, is_root: bool) -> Seq<char> {
    page_prefix_html(is_root) + listing_items_html(s) + "</ul></body></html>"@
}

/// Renders the listing page for the entries, in the order given.
pub fn render_listing(entries: &Vec<DirectoryEntry>, is_root: bool) -> (r: String)
    ensures
        r@ == listing_page_html(models(entries@), is_root),
{
    let ghost ms = models(entries@);
    let mut html: String =
        "<!DOCTYPE html>\n<html>\n<head>\n    <meta charset=\"utf-8\">\n    <title>Directory listing</title>\n    <style>\n        body { font-family: system-ui, sans-serif; max-width: 800px; margin: 0 auto; padding: 2rem; }\n        ul { list-style-type: none; padding: 0; }\n        li { margin: 0.5rem 0; }\n        a { text-decoration: none; color: #2563eb; }\n        a:hover { text-decoration: underline; }\n    </style>\n</head>\n<body>\n    <h1>Directory listing</h1>".to_owned();
    if !is_root {
        html.append("<p><a href=\"../\">[dir] ..</a></p>");
    }
    html.append("<ul>");
    proof {
        assert(html@ == page_prefix_html(is_root));
        assert(ms.take(0) =~= Seq::<EntryModel>::empty());
    }
    let mut i: usize = 0;
    while i < entries.len()
        invariant
            i <= entries@.len(),
            ms == models(entries@),
            html@ == page_prefix_html(is_root) + listing_items_html(ms.take(i as int)),
        decreases entries@.len() - i,
    {
        let e: &DirectoryEntry = &entries[i];
        if matches!(e.kind, EntryKind::Directory) {
            html.append("<li>[dir] <a href=\"");
            html.append(e.name.as_str());
            html.append("/\">");
            html.append(e.name.as_str());
            html.append("/</a></li>");
        } else {
            html.append("<li>[file] <a href=\"");
            html.append(e.name.as_str());
            html.append("\">");
            html.append(e.name.as_str());
            html.append("</a></li>");
        }
        proof {
            assert(ms.take(i + 1).drop_last() =~= ms.take(i as int));
            assert(ms.take(i + 1).last() == e@);
            assert(html@ =~= page_prefix_html(is_root) + listing_items_html(ms.take(i + 1)));
        }
        i = i + 1;
    }
    html.append("</ul></body></html>");
    proof {
        assert(ms.take(i as int) =~= ms);
    }
    html
}

} // verus!
