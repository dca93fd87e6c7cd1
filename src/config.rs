use vstd::prelude::*;

verus! {

/// Settings of the server: the repository that holds the structural data, credentials for
/// the tracker, the address to listen on, and where the index document and static files are.
/// In dev mode the structural data is read from local files.
#[derive(Clone, Debug)]
pub struct Config {
    pub repository: String,
    pub username: String,
    pub token: String,
    pub addr: String,
    pub static_path: String,
    pub index_path: String,
    pub dev_mode: bool,
}

} // verus!
