//! The configuration that a server is started with.

use vstd::prelude::*;

verus! {

/// Settings of one server, fixed for its lifetime. Paths are written with
/// `/` as the separator.
#[derive(Clone, Debug, PartialEq, Eq)]
pub struct Args {
    /// The directory, or the single file, that is served.
    pub path: String,
    /// Whether `path` is a single file.
    pub path_is_file: bool,
    /// The prefix that every request path carries: `/`, or `/` and a name
    /// without a trailing slash.
    pub path_prefix: String,
    /// The same prefix as it appears in links: it begins and ends with `/`.
    pub uri_prefix: String,
    /// Patterns of names to hide; one that ends in `/` hides directories only.
    pub hidden: Vec<String>,
    /// Whether names that begin with a dot are hidden.
    pub posix_hidden: bool,
    /// Whether any access rule is configured.
    pub auth: bool,
    pub allow_upload: bool,
    pub allow_delete: bool,
    pub allow_search: bool,
    pub allow_symlink: bool,
    pub allow_archive: bool,
    pub enable_cors: bool,
    pub render_index: bool,
    pub render_spa: bool,
    pub render_try_index: bool,
    /// Directory that holds a replacement for the bundled page and assets.
    pub assets_path: Option<String>,
}

impl Args {
    /// What every configuration satisfies: the served path is not empty and
    /// the link prefix begins and ends with `/`.
    pub open spec fn well_formed(&self) -> bool {
        &&& self.path@.len() > 0
        &&& self.uri_prefix@.len() > 0
        &&& self.uri_prefix@[0] == '/'
        &&& self.uri_prefix@.last() == '/'
    }
}

} // verus!
