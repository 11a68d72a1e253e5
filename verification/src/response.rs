//! Response generation: the HTML listing response, the file download
//! response with a guessed content type and an attachment disposition, and
//! the plain error responses for the Missing, Forbidden and read-failure
//! outcomes.

use crate::entries::{entry_order, models, sort_entries, DirectoryEntry, EntryModel};
use crate::listing::{listing_page_html, render_listing};
use crate::paths::{normalize_request, spec_normalize};
use vstd::prelude::*;

verus! {

/// The payload of a response: listing pages and error messages are text,
/// file downloads are raw bytes.
pub enum Payload {
    Text(String),
    Bytes(Vec<u8>),
}

/// One HTTP response: status code, content type, an optional content
/// disposition, and the payload.
pub struct HttpResponse {
    pub status: u16,
    pub content_type: String,
    pub content_disposition: Option<String>,
    pub payload: Payload,
}

/// What the MIME guess returns for a file name: the guessed type for the
/// name's extension, or the generic binary type when none is known.
pub uninterp spec fn mime_of(name: Seq<char>) -> Seq<char>;

/// Relies on `mime_guess::from_path` and `MimeGuess::first_or_octet_stream`:
/// the guess reads only the name's extension, so the result is a function of
/// the file name alone, and `application/octet-stream` stands in when the
/// extension maps to nothing.
#[verifier::external_body]
fn guess_mime(name: &str) -> (r: String)
    ensures
        r@ == mime_of(name@),
{
    mime_guess::from_path(name).first_or_octet_stream().to_string()
}

/// The content-disposition value for a download of the named file.
pub open spec fn disposition_of(name: Seq<char>) -> Seq<char> {
    "attachment; filename=\""@ + name + "\""@
}

/// A well-formed plain-text response: the given status, a plain content
/// type, no disposition, and the given message.
pub open spec fn is_plain_response(r: HttpResponse, status: u16, message: Seq<char>) -> bool {
    &&& r.status == status
    &&& r.content_type@ == "text/plain; charset=utf-8"@
    &&& r.content_disposition is None
    &&& (r.payload matches Payload::Text(t) && t@ == message)
}

/// The successful listing response: status 200, an HTML content type, and
/// the page over the entries sorted into the listing order.
pub open spec fn is_listing_response(r: HttpResponse, s: Seq<EntryModel>, is_root: bool) -> bool {
    &&& r.status == 200
    &&& r.content_type@ == "text/html; charset=utf-8"@
    &&& r.content_disposition is None
    &&& (r.payload matches Payload::Text(t) && t@ == listing_page_html(
        s.sort_by(entry_order()),
        is_root,
    ))
}

/// The successful download response for the named file: status 200, the
/// guessed content type, an attachment disposition carrying the name, and
/// the file's bytes, unchanged.
pub open spec fn is_download_response(r: HttpResponse, name: Seq<char>, content: Seq<u8>) -> bool {
    &&& r.status == 200
    &&& r.content_type@ == mime_of(name)
    &&& (r.content_disposition matches Some(d) && d@ == disposition_of(name))
    &&& (r.payload matches Payload::Bytes(b) && b@ == content)
}

/// The response for a path with no filesystem entry: 404.
pub fn missing_response() -> (r: HttpResponse)
    ensures
        is_plain_response(r, 404, "File not found"@),
{
    HttpResponse {
        status: 404,
        content_type: "text/plain; charset=utf-8".to_owned(),
        content_disposition: None,
        payload: Payload::Text("File not found".to_owned()),
    }
}

/// The response for a path that escapes the served root: 403.
pub fn forbidden_response() -> (r: HttpResponse)
    ensures
        is_plain_response(r, 403, "Access denied"@),
{
    HttpResponse {
        status: 403,
        content_type: "text/plain; charset=utf-8".to_owned(),
        content_disposition: None,
        payload: Payload::Text("Access denied".to_owned()),
    }
}

/// The response for a file whose bytes could not be read: 500.
pub fn read_failure_response() -> (r: HttpResponse)
    ensures
        is_plain_response(r, 500, "Failed to read file"@),
{
    HttpResponse {
        status: 500,
        content_type: "text/plain; charset=utf-8".to_owned(),
        content_disposition: None,
        payload: Payload::Text("Failed to read file".to_owned()),
    }
}

/// The listing response for a directory's entries: sorts them into the
/// listing order and renders the page. It always succeeds; an unreadable
/// directory is listed as empty by handing in no entries.
pub fn listing_response(entries: Vec<DirectoryEntry>, is_root: bool) -> (r: HttpResponse)
    ensures
        is_listing_response(r, models(entries@), is_root),
{
    let ghost ms = models(entries@);
    let sorted = sort_entries(entries);
    proof {
        crate::entries::lemma_entry_order_total();
        ms.lemma_sort_by_ensures(entry_order());
        vstd::seq_lib::lemma_sorted_unique(
            models(sorted@),
            ms.sort_by(entry_order()),
            entry_order(),
        );
    }
    let body = render_listing(&sorted, is_root);
    HttpResponse {
        status: 200,
        content_type: "text/html; charset=utf-8".to_owned(),
        content_disposition: None,
        payload: Payload::Text(body),
    }
}

/// The download response with the content type already known: the named
/// file's bytes, unchanged, behind an attachment disposition.
pub fn download_response_with_type(content_type: String, name: &str, content: Vec<u8>) -> (r:
    HttpResponse)
    ensures
        r.status == 200,
        r.content_type@ == content_type@,
        (r.content_disposition matches Some(d) && d@ == disposition_of(name@)),
        (r.payload matches Payload::Bytes(b) && b@ == content@),
{
    let mut disposition: String = "attachment; filename=\"".to_owned();
    disposition.append(name);
    disposition.append("\"");
    HttpResponse {
        status: 200,
        content_type,
        content_disposition: Some(disposition),
        payload: Payload::Bytes(content),
    }
}

/// The response for a classified file: its bytes as a download when the
/// read succeeded, the read-failure response when it did not.
pub fn file_response(name: &str, content: Option<Vec<u8>>) -> (r: HttpResponse)
    ensures
        match content {
            Some(bytes) => is_download_response(r, name@, bytes@),
            None => is_plain_response(r, 500, "Failed to read file"@),
        },
{
    match content {
        Some(bytes) => {
            let mime = guess_mime(name);
            download_response_with_type(mime, name, bytes)
        },
        None => read_failure_response(),
    }
}

/// What the caller observed at the resolved location of a contained request
/// path, with the data the response needs: the directory's children, or the
/// file's bytes (`None` when the read failed). An unreadable directory is
/// handed in with no entries and listed as empty.
pub enum Observation {
    Missing,
    Directory { entries: Vec<DirectoryEntry> },
    File { content: Option<Vec<u8>> },
}

/// The suggested download filename: the final path segment, or a fixed
/// fallback for a file reached by an empty path.
pub open spec fn download_name(segs: Seq<Seq<char>>) -> Seq<char> {
    if segs.len() > 0 {
        segs.last()
    } else {
        "download"@
    }
}

/// One request, start to finish: an escaping path is answered 403 whatever
/// was observed; a contained path is answered 404 when missing, 200 with the
/// sorted listing for a directory (the parent link only away from the root),
/// and 200 with the bytes as a download for a file, or 500 when its read
/// failed.
pub fn handle_request(p: &str, obs: Observation) -> (r: HttpResponse)
    ensures
        match spec_normalize(p@) {
            None => is_plain_response(r, 403, "Access denied"@),
            Some(segs) => match obs {
                Observation::Missing => is_plain_response(r, 404, "File not found"@),
                Observation::Directory { entries } => is_listing_response(
                    r,
                    models(entries@),
                    segs.len() == 0,
                ),
                Observation::File { content } => match content {
                    Some(bytes) => is_download_response(r, download_name(segs), bytes@),
                    None => is_plain_response(r, 500, "Failed to read file"@),
                },
            },
        },
{
    match normalize_request(p) {
        None => forbidden_response(),
        Some(segs) => match obs {
            Observation::Missing => missing_response(),
            Observation::Directory { entries } => {
                let is_root = segs.len() == 0;
                listing_response(entries, is_root)
            },
            Observation::File { content } => {
                if segs.len() > 0 {
                    let name = &segs[segs.len() - 1];
                    file_response(name.as_str(), content)
                } else {
                    file_response("download", content)
                }
            },
        },
    }
}

} // verus!
