//! The command-line options of the server, as plain values.
use vstd::prelude::*;

verus! {

/// The options the server is started with (see `--help`).
#[derive(Debug, Clone)]
pub struct CliArgs {
    /// Show help message
    pub help: bool,
    /// Display version
    pub version: bool,
    /// URI endpoints on which to listen (`-l`, repeatable)
    pub listen: Vec<String>,
    /// Custom port (`-p`, deprecated in favour of `--listen`)
    pub port: Option<u16>,
    /// Rewrite all not-found requests to `index.html`
    pub single: bool,
    /// Show debugging information
    pub debug: bool,
    /// Custom path to `serve.json`
    pub config: Option<String>,
    /// Do not log any request information to the console
    pub no_request_logging: bool,
    /// Enable CORS, sets `Access-Control-Allow-Origin` to `*`
    pub cors: bool,
    /// Do not copy the local address to the clipboard
    pub no_clipboard: bool,
    /// Do not compress files
    pub no_compression: bool,
    /// Send `Last-Modified` header instead of `ETag`
    pub no_etag: bool,
    /// Resolve symlinks instead of showing 404 errors
    pub symlinks: bool,
    /// Path to an SSL/TLS certificate
    pub ssl_cert: Option<String>,
    /// Path to the SSL/TLS certificate's private key
    pub ssl_key: Option<String>,
    /// Path to the SSL/TLS certificate's passphrase
    pub ssl_pass: Option<String>,
    /// Do not open a port other than the one specified when it's taken
    pub no_port_switching: bool,
    /// Directory to serve
    pub directory: String,
}

} // verus!
