//! Static configuration handed to the client by its host.
//!
//! Configuration is passed explicitly; the library keeps no global state.

use vstd::prelude::*;

verus! {

/// Start page and trust-store location.
#[derive(Debug, Clone)]
pub struct Settings {
    default_url: String,
    database_path: String,
}

impl Settings {
    pub fn new() -> (r: Self)
        ensures
            r.default_url_spec() == "gemini://gemini.conman.org"@,
            r.database_path_spec() == "dioscuri.sqlite"@,
    {
        Self {
            default_url: "gemini://gemini.conman.org".to_owned(),
            database_path: "dioscuri.sqlite".to_owned(),
        }
    }

    pub closed spec fn default_url_spec(&self) -> Seq<char> {
        self.default_url@
    }

    pub closed spec fn database_path_spec(&self) -> Seq<char> {
        self.database_path@
    }

    pub fn default_url(&self) -> (r: Option<String>)
        ensures
            r matches Some(u) && u@ == self.default_url_spec(),
    {
        Some(self.default_url.clone())
    }

    pub fn database_path(&self) -> (r: String)
        ensures
            r@ == self.database_path_spec(),
    {
        self.database_path.clone()
    }
}

} // verus!
