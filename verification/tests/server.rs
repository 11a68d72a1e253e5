use file_server::entries::{DirectoryEntry, EntryKind};
use file_server::paths::{join_under_root, normalize_request, resolve, FsNode, Resolution};
use file_server::response::{
    file_response, forbidden_response, handle_request, listing_response, missing_response,
    read_failure_response, HttpResponse, Observation, Payload,
};

const PAGE_HEAD: &str = "<!DOCTYPE html>\n<html>\n<head>\n    <meta charset=\"utf-8\">\n    <title>Directory listing</title>\n    <style>\n        body { font-family: system-ui, sans-serif; max-width: 800px; margin: 0 auto; padding: 2rem; }\n        ul { list-style-type: none; padding: 0; }\n        li { margin: 0.5rem 0; }\n        a { text-decoration: none; color: #2563eb; }\n        a:hover { text-decoration: underline; }\n    </style>\n</head>\n<body>\n    <h1>Directory listing</h1>";

const PARENT_LINK: &str = "<p><a href=\"../\">[dir] ..</a></p>";

fn dir(name: &str) -> DirectoryEntry {
    DirectoryEntry {
        name: name.to_owned(),
        kind: EntryKind::Directory,
    }
}

fn file(name: &str) -> DirectoryEntry {
    DirectoryEntry {
        name: name.to_owned(),
        kind: EntryKind::File,
    }
}

fn body_text(r: &HttpResponse) -> &str {
    match &r.payload {
        Payload::Text(t) => t.as_str(),
        Payload::Bytes(_) => panic!("expected a text payload"),
    }
}

fn body_bytes(r: &HttpResponse) -> &[u8] {
    match &r.payload {
        Payload::Bytes(b) => b.as_slice(),
        Payload::Text(_) => panic!("expected a byte payload"),
    }
}

#[test]
fn normalize_plain_segments() {
    let segs = normalize_request("docs/a.md").unwrap();
    assert_eq!(segs, vec!["docs".to_owned(), "a.md".to_owned()]);
}

#[test]
fn normalize_empty_path_is_root() {
    let segs = normalize_request("").unwrap();
    assert!(segs.is_empty());
}

#[test]
fn normalize_drops_dot_and_empty_segments() {
    let segs = normalize_request("./a//b/.").unwrap();
    assert_eq!(segs, vec!["a".to_owned(), "b".to_owned()]);
}

#[test]
fn normalize_resolves_inner_traversal() {
    let segs = normalize_request("a/b/../c").unwrap();
    assert_eq!(segs, vec!["a".to_owned(), "c".to_owned()]);
}

#[test]
fn normalize_rejects_escape() {
    assert!(normalize_request("..").is_none());
    assert!(normalize_request("../../etc/passwd").is_none());
    assert!(normalize_request("a/../..").is_none());
    assert!(normalize_request("docs/../../etc/passwd").is_none());
}

#[test]
fn join_builds_filesystem_path() {
    let segs = normalize_request("docs/a.md").unwrap();
    assert_eq!(join_under_root("/srv/files", &segs), "/srv/files/docs/a.md");
    let none: Vec<String> = Vec::new();
    assert_eq!(join_under_root("/srv/files", &none), "/srv/files");
}

#[test]
fn resolve_classifies_by_filesystem_node() {
    assert!(resolve("notes.txt", FsNode::File) == Resolution::File);
    assert!(resolve("docs", FsNode::Directory) == Resolution::Directory);
    assert!(resolve("gone", FsNode::Missing) == Resolution::Missing);
}

#[test]
fn resolve_forbids_escape_whatever_the_filesystem_holds() {
    assert!(resolve("../../etc/passwd", FsNode::File) == Resolution::Forbidden);
    assert!(resolve("../../etc/passwd", FsNode::Missing) == Resolution::Forbidden);
    assert!(resolve("..", FsNode::Directory) == Resolution::Forbidden);
}

#[test]
fn escaping_request_is_answered_403() {
    let r = handle_request("../../etc/passwd", Observation::Missing);
    assert_eq!(r.status, 403);
    assert_eq!(r.content_type, "text/plain; charset=utf-8");
    assert_eq!(body_text(&r), "Access denied");
    assert!(r.content_disposition.is_none());
}

#[test]
fn missing_entry_inside_root_is_answered_404() {
    let r = handle_request("no-such-file.txt", Observation::Missing);
    assert_eq!(r.status, 404);
    assert_eq!(r.content_type, "text/plain; charset=utf-8");
    assert_eq!(body_text(&r), "File not found");
}

#[test]
fn read_failure_is_answered_500() {
    let r = handle_request(
        "report.pdf",
        Observation::File { content: None },
    );
    assert_eq!(r.status, 500);
    assert_eq!(body_text(&r), "Failed to read file");
}

#[test]
fn listing_sorts_directories_before_files_each_alphabetical() {
    let entries = vec![file("f2"), dir("d2"), file("f1"), dir("d1")];
    let r = listing_response(entries, true);
    assert_eq!(r.status, 200);
    assert_eq!(r.content_type, "text/html; charset=utf-8");
    let expected = format!(
        "{}<ul>{}{}{}{}</ul></body></html>",
        PAGE_HEAD,
        "<li>[dir] <a href=\"d1/\">d1/</a></li>",
        "<li>[dir] <a href=\"d2/\">d2/</a></li>",
        "<li>[file] <a href=\"f1\">f1</a></li>",
        "<li>[file] <a href=\"f2\">f2</a></li>",
    );
    assert_eq!(body_text(&r), expected);
}

#[test]
fn empty_listing_away_from_root_has_parent_link() {
    let r = listing_response(Vec::new(), false);
    assert_eq!(r.status, 200);
    let expected = format!("{}{}<ul></ul></body></html>", PAGE_HEAD, PARENT_LINK);
    assert_eq!(body_text(&r), expected);
}

#[test]
fn root_request_on_empty_directory_lists_nothing_without_parent_link() {
    let r = handle_request("", Observation::Directory { entries: Vec::new() });
    assert_eq!(r.status, 200);
    assert_eq!(r.content_type, "text/html; charset=utf-8");
    let expected = format!("{}<ul></ul></body></html>", PAGE_HEAD);
    assert_eq!(body_text(&r), expected);
    assert!(r.content_disposition.is_none());
}

#[test]
fn file_round_trip_keeps_bytes_and_names_the_download() {
    let bytes: Vec<u8> = vec![0x25, 0x50, 0x44, 0x46, 0x00, 0xff, 0x07, 0x42];
    let r = handle_request(
        "report.pdf",
        Observation::File { content: Some(bytes.clone()) },
    );
    assert_eq!(r.status, 200);
    assert_eq!(r.content_type, "application/pdf");
    assert_eq!(
        r.content_disposition.as_deref(),
        Some("attachment; filename=\"report.pdf\"")
    );
    assert_eq!(body_bytes(&r), bytes.as_slice());
}

#[test]
fn unknown_extension_falls_back_to_octet_stream() {
    let r = file_response("data.zzqq", Some(vec![1, 2, 3]));
    assert_eq!(r.status, 200);
    assert_eq!(r.content_type, "application/octet-stream");
    assert_eq!(body_bytes(&r), &[1, 2, 3]);
}

#[test]
fn served_directory_scenario() {
    // Root holds `notes.txt` and a subdirectory `docs/` holding `a.md`.
    let root_entries = vec![file("notes.txt"), dir("docs")];
    let r = handle_request("", Observation::Directory { entries: root_entries });
    assert_eq!(r.status, 200);
    let expected = format!(
        "{}<ul>{}{}</ul></body></html>",
        PAGE_HEAD,
        "<li>[dir] <a href=\"docs/\">docs/</a></li>",
        "<li>[file] <a href=\"notes.txt\">notes.txt</a></li>",
    );
    assert_eq!(body_text(&r), expected);

    let content = b"# heading\nbody\n".to_vec();
    let r = handle_request(
        "docs/a.md",
        Observation::File { content: Some(content.clone()) },
    );
    assert_eq!(r.status, 200);
    assert_eq!(r.content_type, "text/markdown");
    assert_eq!(
        r.content_disposition.as_deref(),
        Some("attachment; filename=\"a.md\"")
    );
    assert_eq!(body_bytes(&r), content.as_slice());

    let r = handle_request("docs/../../etc/passwd", Observation::Missing);
    assert_eq!(r.status, 403);
    assert_eq!(body_text(&r), "Access denied");
}

#[test]
fn error_response_builders_match_their_statuses() {
    let r = missing_response();
    assert_eq!((r.status, body_text(&r)), (404, "File not found"));
    let r = forbidden_response();
    assert_eq!((r.status, body_text(&r)), (403, "Access denied"));
    let r = read_failure_response();
    assert_eq!((r.status, body_text(&r)), (500, "Failed to read file"));
}
