//! A small library for serving a directory tree over HTTP: it resolves an
//! untrusted request path against a served root, classifies the target, and
//! builds the HTTP response (an HTML directory listing or a file download).

use vstd::prelude::*;

pub mod entries;
pub mod listing;
pub mod paths;
pub mod response;

verus! {

} // verus!
