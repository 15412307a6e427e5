use vstd::prelude::*;

pub mod closure;
pub mod compress;
pub mod encoding;
pub mod hashing;
pub mod make_nar;
pub mod nar;
pub mod narinfo;
pub mod path_info;
pub mod protocol;
pub mod push;
pub mod sign;
pub mod store_path;
pub mod uploader;

verus! {

/// Command-line surface: the one subcommand and its arguments.
/// The binary front end carries a mirror of these types with the
/// argument-parser attributes; this crate holds the bare data.
pub struct Cli {
    pub command: Commands,
    /// Whether to enable the task-console layer in the front end.
    pub tokio_console: bool,
}

pub enum Commands {
    Push(PushArgs),
    StartServer,
}

pub struct PushArgs {
    /// The bucket to upload to.
    pub bucket: String,
    /// Upstream caches to check against; the default public cache is
    /// always included unless `no_default_upstream` is set.
    pub upstreams: Vec<String>,
    /// Path to the file containing the signing key.
    pub signing_key: String,
    /// Region override for the object store.
    pub region: Option<String>,
    /// Endpoint override for the object store.
    pub endpoint: Option<String>,
    /// Do not include the default public cache as an upstream.
    pub no_default_upstream: bool,
    /// Local store paths to push.
    pub paths: Vec<String>,
}

} // verus!
