//! Runtime configuration: the settings record and path resolution.
//!
//! Loading the YAML file, consulting the environment and holding a global
//! instance are left to the surrounding program; this module owns the
//! record itself and the rule for resolving relative paths.

use vstd::prelude::*;
use crate::text::joined_path;
use crate::text::path_join;

verus! {

#[derive(Debug, Clone)]
pub struct Config {
    /// Path to the directory holding the libraries.
    pub library_path: String,
    /// IP and port for the server to bind to.
    pub service_ip_and_port: String,
    /// Path to the users file holding credentials.
    pub users_file_path: String,
    /// Enable HTTPS/TLS.
    pub use_https: bool,
    /// Path to the TLS certificate file (PEM format).
    pub certificate_path: String,
    /// Path to the TLS private key file (PEM format).
    pub private_key_path: String,
}

/// An absolute path stands as it is; a relative one is joined under the base
/// directory.
pub open spec fn resolved_path(base_dir: Seq<char>, path: Seq<char>) -> Seq<char> {
    if path.len() > 0 && path[0] == '/' {
        path
    } else {
        joined_path(base_dir, path)
    }
}

impl Config {
    /// Resolve a path against a base directory: absolute paths are used
    /// as they are, relative ones are placed under the base directory.
    pub fn resolve_path(base_dir: &str, path: &str) -> (r: String)
        ensures
            r@ == resolved_path(base_dir@, path@),
    {
        if path.unicode_len() > 0 && path.get_char(0) == '/' {
            path.to_owned()
        } else {
            path_join(base_dir, path)
        }
    }

    /// Resolve every path-valued setting against the base directory; the
    /// bind address and the HTTPS switch are left untouched.
    pub fn resolve_paths(&mut self, base_dir: &str)
        ensures
            final(self).library_path@ == resolved_path(base_dir@, old(self).library_path@),
            final(self).users_file_path@ == resolved_path(base_dir@, old(self).users_file_path@),
            final(self).certificate_path@ == resolved_path(
                base_dir@,
                old(self).certificate_path@,
            ),
            final(self).private_key_path@ == resolved_path(
                base_dir@,
                old(self).private_key_path@,
            ),
            final(self).service_ip_and_port == old(self).service_ip_and_port,
            final(self).use_https == old(self).use_https,
    {
        self.library_path = Self::resolve_path(base_dir, self.library_path.as_str());
        self.users_file_path = Self::resolve_path(base_dir, self.users_file_path.as_str());
        self.certificate_path = Self::resolve_path(base_dir, self.certificate_path.as_str());
        self.private_key_path = Self::resolve_path(base_dir, self.private_key_path.as_str());
    }
}

/// Apply a reader to the configuration and hand back its result.
pub fn with<F: FnOnce(&Config) -> R, R>(cfg: &Config, f: F) -> (r: R)
    requires
        f.requires((cfg,)),
    ensures
        f.ensures((cfg,), r),
{
    f(cfg)
}

/// The configured libraries directory.
pub fn library_path(cfg: &Config) -> (r: String)
    ensures
        r@ == cfg.library_path@,
{
    cfg.library_path.clone()
}

/// The configured bind address.
pub fn service_ip_and_port(cfg: &Config) -> (r: String)
    ensures
        r@ == cfg.service_ip_and_port@,
{
    cfg.service_ip_and_port.clone()
}

/// The configured users file path.
pub fn users_file_path(cfg: &Config) -> (r: String)
    ensures
        r@ == cfg.users_file_path@,
{
    cfg.users_file_path.clone()
}

/// Whether HTTPS is enabled.
pub fn use_https(cfg: &Config) -> (r: bool)
    ensures
        r == cfg.use_https,
{
    cfg.use_https
}

/// The configured certificate path.
pub fn certificate_path(cfg: &Config) -> (r: String)
    ensures
        r@ == cfg.certificate_path@,
{
    cfg.certificate_path.clone()
}

/// The configured private key path.
pub fn private_key_path(cfg: &Config) -> (r: String)
    ensures
        r@ == cfg.private_key_path@,
{
    cfg.private_key_path.clone()
}

} // verus!
