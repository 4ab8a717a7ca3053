use vstd::prelude::*;

verus! {

// ------------------------------------------------------------------
// Output destinations and the fetch configuration, as plain values; the
// writers themselves live with the unverified shell around the library.
// ------------------------------------------------------------------

/// An output destination on disk.
#[derive(Debug)]
pub struct OutputFile {
    pub path: String,
}

impl OutputFile {
    pub fn new(path: String) -> (r: OutputFile)
        ensures
            r.path == path,
    {
        OutputFile { path }
    }
}

/// The standard-output destination.
#[derive(Debug)]
pub struct OutputStdout {}

impl OutputStdout {
    pub fn new() -> (r: OutputStdout)
    {
        OutputStdout {  }
    }
}

/// How the fetch client authorizes: by header or by query parameter.
#[derive(Clone, Copy, Debug, PartialEq, Eq, Structural)]
pub enum AuthorizationKind {
    QueryParam,
    Header,
}

/// The fetch client's configuration.
#[derive(Debug)]
pub struct HttpConfig {
    pub key: String,
    pub host: String,
    pub authorization_kind: AuthorizationKind,
}

} // verus!
