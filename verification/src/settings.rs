//! User-preference values carried by the application shell.

use vstd::prelude::*;
use vstd::string::*;

verus! {

/// Display preferences persisted by the surrounding application.
pub struct AppSettings {
    pub theme: String,
    pub font_size: u32,
}

impl Default for AppSettings {
    /// The settings used until the user saves others.
    fn default() -> (r: Self)
        ensures
            r.theme@ == "light"@,
            r.font_size == 14,
    {
        AppSettings { theme: String::from_str("light"), font_size: 14 }
    }
}

} // verus!
