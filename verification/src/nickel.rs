//! Nickel, the Kobo's reader, learns about new files only when it rescans
//! the library: through NickelDBus (`qndb`, installed separately) or a
//! NickelMenu entry that the user taps.

use vstd::prelude::*;
use crate::text::{chars_of, string_of, trim, trim_ws, CharClass};

verus! {

/// What to do when books should show up in the library and nothing can ask
/// Nickel to rescan it.
pub const MANUAL_HINT: &'static str = "connect the Kobo to a computer and unplug it, add a NickelMenu entry `menu_item:main:Import books:nickel_misc:rescan_books`, or install NickelDBus for automatic import";

/// Why an import cannot be asked for: not on a Kobo, or NickelDBus is not
/// installed. `None` when `qndb` can be run.
pub fn import_refusal(on_kobo: bool, available: bool) -> (r: Option<String>)
    ensures
        !on_kobo ==> (r matches Some(m) && m@ == "not running on a Kobo"@),
        on_kobo && !available ==> (r matches Some(m) && m@
            == "automatic import needs NickelDBus; "@ + MANUAL_HINT@),
        on_kobo && available ==> r is None,
{
    if !on_kobo {
        Some(String::from_str("not running on a Kobo"))
    } else if !available {
        let mut m = String::from_str("automatic import needs NickelDBus; ");
        m.append(MANUAL_HINT);
        Some(m)
    } else {
        None
    }
}

/// The reason an import fails when `qndb` exits with an error and wrote
/// `stderr`.
pub fn qndb_failure(stderr: &str) -> (m: String)
    ensures
        m@ == "qndb failed: "@ + trim_ws(stderr@),
{
    let mut m = String::from_str("qndb failed: ");
    m.append(string_of(&trim(&chars_of(stderr), &CharClass::Space)).as_str());
    m
}

} // verus!
