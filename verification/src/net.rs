//! A fetched web page, as the HTTP client hands it over.

use vstd::prelude::*;

verus! {

#[derive(Debug)]
pub struct Page {
    pub status: u16,
    /// The URL after redirects.
    pub url: String,
    pub body: String,
}

} // verus!
