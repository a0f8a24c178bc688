//! Anna's Kobo: the logic behind a small on-device service that searches
//! shadow libraries, ranks their mirrors, keeps a download queue and names
//! the files it hands to the Kobo reader.

pub mod annas;
pub mod config;
pub mod html;
pub mod jobs;
pub mod kepub;
pub mod libgen;
pub mod net;
pub mod nickel;
pub mod pages;
pub mod requests;
pub mod slum;
pub mod text;
pub mod web;

use vstd::prelude::*;

verus! {

/// The version of the service, shown on the settings page.
pub const VERSION: &'static str = "0.1.0";

} // verus!
