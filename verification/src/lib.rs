//! A self-hosted package registry speaking the cargo sparse-index protocol:
//! it accepts package publications, keeps package metadata in an append-only
//! line-oriented index, stores crate archives as immutable blobs, and serves
//! both back with HTTP caching semantics.

use vstd::prelude::*;

pub mod api;
pub mod codec;
pub mod crate_utils;
pub mod digest;
pub mod header_util;
pub mod index;
pub mod index_file;
pub mod registory_storage;

verus! {

/// The registry's uniform error taxonomy, shared by every storage backend and
/// by the publish pipeline.
#[derive(Debug)]
pub enum RegistryError {
    /// The requested resource does not exist.
    NotFound,
    /// The version being published already exists for this package.
    Duplicate,
    /// The client-submitted data could not be parsed.
    MalformedData,
    /// Any other failure, with a description of the cause.
    Other(String),
}

impl RegistryError {
    /// The words a client sees for this error.
    pub open spec fn spec_message(&self) -> Seq<char> {
        match self {
            RegistryError::NotFound => "Not Found"@,
            RegistryError::Duplicate => "Duplicate"@,
            RegistryError::MalformedData => "Invalid Data"@,
            RegistryError::Other(s) => s@,
        }
    }

    /// The words a client sees for this error.
    pub fn message(&self) -> (r: String)
        ensures
            r@ == self.spec_message(),
    {
        match self {
            RegistryError::NotFound => "Not Found".to_owned(),
            RegistryError::Duplicate => "Duplicate".to_owned(),
            RegistryError::MalformedData => "Invalid Data".to_owned(),
            RegistryError::Other(s) => s.clone(),
        }
    }

    /// The HTTP status code a client sees for this error.
    pub fn status_code(&self) -> (r: u16)
        ensures
            r == match self {
                RegistryError::NotFound => 404u16,
                RegistryError::Duplicate => 409u16,
                RegistryError::MalformedData => 400u16,
                RegistryError::Other(_) => 500u16,
            },
    {
        match self {
            RegistryError::NotFound => 404,
            RegistryError::Duplicate => 409,
            RegistryError::MalformedData => 400,
            RegistryError::Other(_) => 500,
        }
    }
}


/// Configuration of the registry itself.
pub struct Config {
    /// Domain of the registry, as presented to clients in download URLs.
    pub domain: Vec<u8>,
}

impl Config {
    /// Create a new [`Config`].
    pub fn new(domain: Vec<u8>) -> (r: Config)
        ensures
            r.domain@ == domain@,
    {
        Config { domain }
    }
}

/// The suffix of the download-URL template that follows the domain.
pub open spec fn spec_dl_suffix() -> Seq<u8> {
    seq![47u8, 99u8, 114u8, 97u8, 116u8, 101u8, 115u8, 47u8, 123u8, 99u8, 114u8, 97u8,
        116u8, 101u8, 125u8, 47u8, 123u8, 118u8, 101u8, 114u8, 115u8, 105u8, 111u8, 110u8,
        125u8, 47u8, 100u8, 111u8, 119u8, 110u8, 108u8, 111u8, 97u8, 100u8]
}

/// The shared application context: the registry configuration and the
/// storage backend, constructed once at startup and passed by reference
/// into every handler.
pub struct App<RS> {
    pub config: Config,
    pub registory_storage: RS,
}

impl<RS> App<RS> {
    /// Create a new [`App`].
    pub fn new(config: Config, registory_storage: RS) -> (r: App<RS>)
        ensures
            r.config.domain@ == config.domain@,
            r.registory_storage == registory_storage,
    {
        App { config, registory_storage }
    }

    /// Returns a reference to the registry storage.
    pub fn registory_storage(&self) -> (r: &RS)
        ensures
            *r == self.registory_storage,
    {
        &self.registory_storage
    }

    /// Whether this registry serves the publish API; this build always
    /// does.
    pub fn has_api(&self) -> (r: bool)
        ensures
            r,
    {
        true
    }

    /// The registry's domain.
    pub fn domain(&self) -> (r: &Vec<u8>)
        ensures
            r@ == self.config.domain@,
    {
        &self.config.domain
    }

    /// The registry-configuration document for this registry: the
    /// download-URL template, and the API endpoint since this build serves
    /// the publish API.
    pub fn index_config(&self) -> (r: crate::index::IndexConfig)
        ensures
            r.dl@ == self.config.domain@ + spec_dl_suffix(),
            r.api matches Option::Some(a) && a@ == self.config.domain@,
    {
        crate::index::IndexConfig {
            dl: self.dl_name(),
            api: Option::Some(crate::index::clone_bytes(&self.config.domain)),
        }
    }

    /// The download-URL template clients are told to use:
    /// `<domain>/crates/{crate}/{version}/download`.
    pub fn dl_name(&self) -> (r: Vec<u8>)
        ensures
            r@ == self.config.domain@ + spec_dl_suffix(),
    {
        let mut out = crate::index::clone_bytes(&self.config.domain);
        let suffix: Vec<u8> = vec![47u8, 99u8, 114u8, 97u8, 116u8, 101u8, 115u8, 47u8,
            123u8, 99u8, 114u8, 97u8, 116u8, 101u8, 125u8, 47u8, 123u8, 118u8, 101u8,
            114u8, 115u8, 105u8, 111u8, 110u8, 125u8, 47u8, 100u8, 111u8, 119u8, 110u8,
            108u8, 111u8, 97u8, 100u8];
        out.extend_from_slice(suffix.as_slice());
        proof {
            assert(out@ =~= self.config.domain@ + spec_dl_suffix());
        }
        out
    }
}

} // verus!
