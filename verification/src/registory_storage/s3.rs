//! The object-store backend's verified half: its configuration with prefix
//! normalization, the bucket-key computation for index and crate reads, and
//! the classification of a pre-signing outcome into a response. The store
//! client itself (an asynchronous SDK) lives with the surrounding
//! application, which hands each outcome to [`presign_response`].

use vstd::prelude::*;

use crate::registory_storage::FileResponse;

verus! {

/// A prefix normalized to end with a path separator, except that an empty
/// prefix stays empty.
pub open spec fn spec_normalize_prefix(p: Seq<u8>) -> Seq<u8> {
    if p.len() == 0 {
        p
    } else if p[p.len() - 1] == 47 {
        p
    } else {
        p + seq![47u8]
    }
}

/// Configuration for the object-store backend: the two buckets, the two
/// optional path prefixes, and the pre-signed URL lifetime in seconds.
pub struct StorageConfig {
    pub index_bucket: String,
    pub index_prefix: Vec<u8>,
    pub crate_bucket: String,
    pub crate_prefix: Vec<u8>,
    pub presigned_expire: u64,
}

/// Error type for the object-store backend's configuration.
#[derive(Debug)]
pub enum Error {
    /// A required environment value is invalid or missing; its name.
    Env(String),
    /// The configured pre-signed lifetime is too long.
    PresignedExpireDurationError,
}

impl StorageConfig {
    /// Create a new [`StorageConfig`], normalizing each prefix to end with
    /// a path separator (an empty prefix stays empty).
    pub fn new(
        index_bucket: String,
        index_prefix: Vec<u8>,
        crate_bucket: String,
        crate_prefix: Vec<u8>,
        presigned_expire: u64,
    ) -> (r: StorageConfig)
        ensures
            r.index_bucket@ == index_bucket@,
            r.crate_bucket@ == crate_bucket@,
            r.index_prefix@ == spec_normalize_prefix(index_prefix@),
            r.crate_prefix@ == spec_normalize_prefix(crate_prefix@),
            r.presigned_expire == presigned_expire,
    {
        let ghost ip0 = index_prefix@;
        let ghost cp0 = crate_prefix@;
        let mut index_prefix = index_prefix;
        let mut crate_prefix = crate_prefix;
        if index_prefix.len() > 0 && index_prefix[index_prefix.len() - 1] != 47 {
            index_prefix.push(47);
            proof {
                assert(index_prefix@ =~= spec_normalize_prefix(ip0));
            }
        }
        if crate_prefix.len() > 0 && crate_prefix[crate_prefix.len() - 1] != 47 {
            crate_prefix.push(47);
            proof {
                assert(crate_prefix@ =~= spec_normalize_prefix(cp0));
            }
        }
        StorageConfig { index_bucket, index_prefix, crate_bucket, crate_prefix, presigned_expire }
    }

    /// The object key for an index read: the index prefix followed by the
    /// requested path.
    pub fn index_object_key(&self, index_path: &Vec<u8>) -> (r: Vec<u8>)
        ensures
            r@ == self.index_prefix@ + index_path@,
    {
        let mut out = crate::index::clone_bytes(&self.index_prefix);
        out.extend_from_slice(index_path.as_slice());
        proof {
            assert(out@ =~= self.index_prefix@ + index_path@);
        }
        out
    }

    /// The object key for a crate read: the crate prefix followed by
    /// `<name>/<version>`.
    pub fn crate_object_key(&self, crate_name: &Vec<u8>, version: &Vec<u8>) -> (r: Vec<u8>)
        ensures
            r@ == self.crate_prefix@ + crate_name@ + seq![47u8] + version@,
    {
        let mut out = crate::index::clone_bytes(&self.crate_prefix);
        out.extend_from_slice(crate_name.as_slice());
        out.push(47);
        out.extend_from_slice(version.as_slice());
        proof {
            assert(out@ =~= self.crate_prefix@ + crate_name@ + seq![47u8] + version@);
        }
        out
    }
}

/// The outcome of requesting a pre-signed download URL from the object
/// store, as the surrounding application observes it.
pub enum PresignOutcome {
    /// The store produced a URL, with any headers the signing step
    /// attached.
    Signed { uri: String, headers: Vec<(String, String)> },
    /// A transport-level response error, carrying the store's own status
    /// code and body.
    ResponseError { status: u16, body: String },
    /// The store has no object under the requested key.
    NoSuchKey,
    /// Any other store error, with its description.
    Other { detail: String },
}

/// Classify a pre-signing outcome: success redirects to the pre-signed
/// location; a "no such key" condition is "not found"; a transport error's
/// own status and body are forwarded unchanged; anything else is a bad
/// request with the error's description.
pub fn presign_response(outcome: PresignOutcome) -> (r: FileResponse)
    ensures
        (match outcome {
            PresignOutcome::Signed { uri, headers } => r matches FileResponse::Redirect {
                uri: u,
                headers: h,
            } && u@ == uri@ && h@ == headers@,
            PresignOutcome::ResponseError { status, body } => r matches FileResponse::Error {
                status: st,
                detail,
            } && st == status && detail@ == body@,
            PresignOutcome::NoSuchKey => r is NotFound,
            PresignOutcome::Other { detail } => r matches FileResponse::Error {
                status,
                detail: d,
            } && status == 400u16 && d@ == detail@,
        }),
{
    match outcome {
        PresignOutcome::Signed { uri, headers } => FileResponse::Redirect { uri, headers },
        PresignOutcome::ResponseError { status, body } => FileResponse::Error {
            status,
            detail: body,
        },
        PresignOutcome::NoSuchKey => FileResponse::NotFound,
        PresignOutcome::Other { detail } => FileResponse::Error { status: 400, detail },
    }
}

} // verus!
