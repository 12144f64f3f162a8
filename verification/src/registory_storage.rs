//! The storage abstraction: a capability interface with a readable half
//! (index entries, index files and crate blobs, each conditional) and a
//! writable half (append an index entry, create a crate blob, each
//! exactly-once). A local filesystem backend and a remote object-store
//! backend implement it outside this crate; [`memory`] holds a verified
//! in-memory backend.

use vstd::prelude::*;

use crate::crate_utils::spec_crate_index_path;
use crate::index::{entries_view, IndexData, IndexDataView};

pub mod local;
pub mod memory;
pub mod s3;

verus! {

pub use crate::RegistryError;

/// What a backend answers to a file request: full content, a cache
/// validation, a redirect to a pre-signed location, or a failure.
pub enum FileResponse {
    /// The resource's bytes, with its `Last-Modified` value when known.
    Content { body: Vec<u8>, last_modified: Option<String> },
    /// The conditional request holds; no body is owed.
    NotModified,
    /// A redirect to a short-lived pre-signed location, with any headers
    /// the signing step attached.
    Redirect { uri: String, headers: Vec<(String, String)> },
    /// The resource does not exist.
    NotFound,
    /// A failure, with the status code and detail a client sees.
    Error { status: u16, detail: String },
}

/// The storage capability the registry's publish pipeline is written
/// against. `index_file` and `crate_blob` are the backend's logical
/// contents; `reliable` says whether its operations are guaranteed to
/// succeed (true of the in-memory backend, not promised of backends that
/// perform I/O).
pub trait RegistryStorage: Sized {
    /// The backend's own well-formedness. Backends outside this crate
    /// inherit the default.
    open spec fn inv(&self) -> bool {
        true
    }

    /// Whether operations on this backend always succeed; nothing is
    /// promised of a backend that does not override this.
    open spec fn reliable(&self) -> bool {
        false
    }

    /// The entries of the index file at a relative path, in file order.
    /// Backends outside this crate inherit the default, of which nothing is
    /// proved.
    open spec fn index_file(&self, path: Seq<u8>) -> Option<Seq<IndexDataView>> {
        Option::None
    }

    /// The bytes of the crate blob stored for a package name and version.
    /// Backends outside this crate inherit the default, of which nothing is
    /// proved.
    open spec fn crate_blob(&self, name: Seq<u8>, version: Seq<u8>) -> Option<Seq<u8>> {
        Option::None
    }

    /// Get the index entries for the given crate; a missing index file is
    /// `Ok(None)`, not an error.
    fn get_index_data(&self, crate_name: &Vec<u8>) -> (r: Result<
        Option<Vec<IndexData>>,
        RegistryError,
    >)
        requires
            self.inv(),
            crate_name@.len() >= 1,
        ensures
            r matches Result::Ok(Option::Some(v)) ==> self.index_file(
                spec_crate_index_path(crate_name@),
            ) == Option::Some(entries_view(v@)),
            r matches Result::Ok(Option::None) ==> self.index_file(
                spec_crate_index_path(crate_name@),
            ) is None,
            self.reliable() ==> r is Ok,
    ;

    /// Append one entry to the index file at `index_path`, creating the
    /// file when absent; existing lines are never rewritten.
    fn put_index(&mut self, index_path: &Vec<u8>, data: IndexData, prev_data: Vec<IndexData>) -> (r:
        Result<(), RegistryError>)
        requires
            old(self).inv(),
        ensures
            final(self).inv(),
            final(self).reliable() == old(self).reliable(),
            r is Ok ==> final(self).index_file(index_path@) == Option::Some(
                (match old(self).index_file(index_path@) {
                    Option::Some(es) => es,
                    Option::None => Seq::<IndexDataView>::empty(),
                }).push(data@),
            ),
            r is Ok ==> forall|p: Seq<u8>|
                p != index_path@ ==> final(self).index_file(p) == old(self).index_file(p),
            r is Ok ==> forall|n: Seq<u8>, v: Seq<u8>|
                final(self).crate_blob(n, v) == old(self).crate_blob(n, v),
            r is Err ==> forall|p: Seq<u8>| final(self).index_file(p) == old(self).index_file(p),
            r is Err ==> forall|n: Seq<u8>, v: Seq<u8>|
                final(self).crate_blob(n, v) == old(self).crate_blob(n, v),
            old(self).reliable() ==> r is Ok,
    ;

    /// Create the crate blob for a name and version; a blob that already
    /// exists is never overwritten, the attempt fails as a duplicate.
    fn put_crate(&mut self, crate_name: &Vec<u8>, version: &Vec<u8>, data: &[u8]) -> (r: Result<
        (),
        RegistryError,
    >)
        requires
            old(self).inv(),
        ensures
            final(self).inv(),
            final(self).reliable() == old(self).reliable(),
            old(self).crate_blob(crate_name@, version@) is Some ==> r matches Result::Err(
                RegistryError::Duplicate,
            ),
            r is Ok ==> old(self).crate_blob(crate_name@, version@) is None,
            r is Ok ==> final(self).crate_blob(crate_name@, version@) == Option::Some(data@),
            r is Ok ==> forall|n: Seq<u8>, v: Seq<u8>|
                !(n == crate_name@ && v == version@) ==> final(self).crate_blob(n, v) == old(
                    self,
                ).crate_blob(n, v),
            r is Ok ==> forall|p: Seq<u8>| final(self).index_file(p) == old(self).index_file(p),
            r is Err ==> forall|p: Seq<u8>| final(self).index_file(p) == old(self).index_file(p),
            r is Err ==> forall|n: Seq<u8>, v: Seq<u8>|
                final(self).crate_blob(n, v) == old(self).crate_blob(n, v),
            old(self).reliable() && old(self).crate_blob(crate_name@, version@) is None ==> r
                is Ok,
    ;
}

} // verus!
