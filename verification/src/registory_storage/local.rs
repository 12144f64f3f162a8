//! The local filesystem backend's verified half: how package names and
//! versions map to paths under the two root directories, and how the
//! outcome of a local file read is classified into a response. The file
//! operations themselves live with the surrounding application, which hands
//! their outcomes to [`local_read_response`].

use vstd::prelude::*;

use crate::header_util::{rfc2822_format_of, should_send_full, to_modified};
use crate::registory_storage::FileResponse;

verus! {

/// The relative path joined under a root directory.
pub open spec fn spec_join_path(root: Seq<u8>, rel: Seq<u8>) -> Seq<u8> {
    root + seq![47u8] + rel
}

/// The blob path for a package name and version under a root directory:
/// `<root>/<name>/<version>.crate`.
pub open spec fn spec_crate_file_path(root: Seq<u8>, name: Seq<u8>, version: Seq<u8>) -> Seq<u8> {
    root + seq![47u8] + name + seq![47u8] + version + seq![46u8, 99u8, 114u8, 97u8, 116u8, 101u8]
}

/// Local storage backend: an index tree and a crate tree under two root
/// directories.
pub struct LocalStorage {
    pub index_path: Vec<u8>,
    pub crate_path: Vec<u8>,
}

impl LocalStorage {
    /// Create a new [`LocalStorage`] over the two root directories.
    pub fn new(index_path: Vec<u8>, crate_path: Vec<u8>) -> (r: LocalStorage)
        ensures
            r.index_path@ == index_path@,
            r.crate_path@ == crate_path@,
    {
        LocalStorage { index_path, crate_path }
    }

    /// The index root this backend serves from.
    pub open spec fn spec_index_root(&self) -> Seq<u8> {
        self.index_path@
    }

    /// The crate root this backend serves from.
    pub open spec fn spec_crate_root(&self) -> Seq<u8> {
        self.crate_path@
    }

    /// The absolute path of an index file.
    pub fn index_file_path(&self, index_path: &Vec<u8>) -> (r: Vec<u8>)
        ensures
            r@ == spec_join_path(self.spec_index_root(), index_path@),
    {
        let mut out = crate::index::clone_bytes(&self.index_path);
        out.push(47);
        out.extend_from_slice(index_path.as_slice());
        proof {
            assert(out@ =~= spec_join_path(self.spec_index_root(), index_path@));
        }
        out
    }

    /// The absolute path of a crate blob.
    pub fn crate_file_path(&self, crate_name: &Vec<u8>, version: &Vec<u8>) -> (r: Vec<u8>)
        ensures
            r@ == spec_crate_file_path(self.spec_crate_root(), crate_name@, version@),
    {
        let mut out = crate::index::clone_bytes(&self.crate_path);
        out.push(47);
        out.extend_from_slice(crate_name.as_slice());
        out.push(47);
        out.extend_from_slice(version.as_slice());
        out.push(46);
        out.push(99);
        out.push(114);
        out.push(97);
        out.push(116);
        out.push(101);
        proof {
            assert(out@ =~= spec_crate_file_path(self.spec_crate_root(), crate_name@,
                version@));
        }
        out
    }
}

/// The outcome of trying to read a local file, as the surrounding
/// application observes it.
pub enum LocalReadOutcome {
    /// The file exists; its bytes and its modification time (Unix seconds).
    Read { data: Vec<u8>, mtime: i64 },
    /// The file does not exist.
    NotFound,
    /// The file may not be read.
    PermissionDenied,
    /// Any other I/O failure, with its description.
    OtherIo { detail: String },
}

/// Classify a local read against a conditional instant: an existing file
/// that is not strictly newer than the condition is "not modified"; a
/// missing or unreadable file is "not found"; any other failure is a server
/// error.
pub fn local_read_response(outcome: LocalReadOutcome, modified_since: Option<i64>) -> (r:
    FileResponse)
    ensures
        (match outcome {
            LocalReadOutcome::Read { data, mtime } => {
                if (match modified_since {
                    Option::Some(t) => mtime > t,
                    Option::None => true,
                }) {
                    &&& r matches FileResponse::Content { body, last_modified }
                    &&& body@ == data@
                    &&& (last_modified is Some <==> rfc2822_format_of(mtime as int) is Some)
                    &&& (last_modified matches Option::Some(s) ==> rfc2822_format_of(
                        mtime as int,
                    ) == Option::Some(s@))
                } else {
                    r is NotModified
                }
            },
            LocalReadOutcome::NotFound => r is NotFound,
            LocalReadOutcome::PermissionDenied => r is NotFound,
            LocalReadOutcome::OtherIo { detail } => r matches FileResponse::Error {
                status,
                detail: d,
            } && status == 500u16 && d@ == detail@,
        }),
{
    match outcome {
        LocalReadOutcome::Read { data, mtime } => {
            if should_send_full(mtime, modified_since) {
                FileResponse::Content { body: data, last_modified: to_modified(mtime) }
            } else {
                FileResponse::NotModified
            }
        },
        LocalReadOutcome::NotFound => FileResponse::NotFound,
        LocalReadOutcome::PermissionDenied => FileResponse::NotFound,
        LocalReadOutcome::OtherIo { detail } => FileResponse::Error {
            status: 500,
            detail,
        },
    }
}

} // verus!
