//! A verified in-memory storage backend. It implements the full storage
//! capability over two plain vectors, one for index files and one for crate
//! blobs, and serves as the model against which the storage contracts are
//! provable: duplicate blobs are rejected, index files only grow, and
//! conditional reads honor the recorded modification times.

use vstd::prelude::*;

use crate::crate_utils::crate_name_to_index;
use crate::header_util::{rfc2822_format_of, should_send_full, to_modified};
use crate::index::{bytes_eq, clone_bytes, clone_entries, entries_view, IndexData, IndexDataView};
use crate::index_file::{enc_lines, render_index_file};
use crate::registory_storage::{FileResponse, RegistryError, RegistryStorage};

verus! {

/// One index file: its relative path, its entries in file order, and its
/// modification time (Unix seconds).
pub struct StoredIndex {
    pub path: Vec<u8>,
    pub entries: Vec<IndexData>,
    pub mtime: i64,
}

/// One crate blob: its package name and version, its bytes, and its
/// modification time (Unix seconds).
pub struct StoredBlob {
    pub name: Vec<u8>,
    pub version: Vec<u8>,
    pub data: Vec<u8>,
    pub mtime: i64,
}

/// The in-memory backend. The clock stands in for file modification times:
/// it advances on every write.
pub struct MemoryStorage {
    pub index_files: Vec<StoredIndex>,
    pub crate_files: Vec<StoredBlob>,
    pub clock: i64,
}

/// The first stored index file with the given path.
pub open spec fn find_index(files: Seq<StoredIndex>, path: Seq<u8>) -> Option<StoredIndex>
    decreases files.len(),
{
    if files.len() == 0 {
        Option::None
    } else if files[0].path@ == path {
        Option::Some(files[0])
    } else {
        find_index(files.skip(1), path)
    }
}

/// The first stored blob with the given name and version.
pub open spec fn find_blob(files: Seq<StoredBlob>, name: Seq<u8>, version: Seq<u8>) -> Option<
    StoredBlob,
>
    decreases files.len(),
{
    if files.len() == 0 {
        Option::None
    } else if files[0].name@ == name && files[0].version@ == version {
        Option::Some(files[0])
    } else {
        find_blob(files.skip(1), name, version)
    }
}

proof fn lemma_find_index_at(files: Seq<StoredIndex>, k: int)
    requires
        0 <= k < files.len(),
        forall|j: int| 0 <= j < k ==> files[j].path@ != files[k].path@,
    ensures
        find_index(files, files[k].path@) == Option::Some(files[k]),
    decreases k,
{
    if k > 0 {
        assert(files.skip(1)[k - 1] == files[k]);
        assert forall|j: int| #![trigger files.skip(1)[j]] 0 <= j < k - 1 implies files.skip(1)[j].path@ != files.skip(
            1,
        )[k - 1].path@ by {
            assert(files.skip(1)[j] == files[j + 1]);
        }
        lemma_find_index_at(files.skip(1), k - 1);
    }
}

proof fn lemma_find_index_none(files: Seq<StoredIndex>, path: Seq<u8>)
    requires
        forall|j: int| 0 <= j < files.len() ==> files[j].path@ != path,
    ensures
        find_index(files, path) is None,
    decreases files.len(),
{
    if files.len() > 0 {
        assert forall|j: int| #![trigger files.skip(1)[j]] 0 <= j < files.skip(1).len() implies files.skip(1)[j].path@
            != path by {
            assert(files.skip(1)[j] == files[j + 1]);
        }
        lemma_find_index_none(files.skip(1), path);
    }
}

proof fn lemma_find_index_push(files: Seq<StoredIndex>, rec: StoredIndex, path: Seq<u8>)
    ensures
        find_index(files.push(rec), path) == (if find_index(files, path) is Some {
            find_index(files, path)
        } else if rec.path@ == path {
            Option::Some(rec)
        } else {
            Option::<StoredIndex>::None
        }),
    decreases files.len(),
{
    if files.len() == 0 {
        assert(files.push(rec)[0] == rec);
        assert(files.push(rec).skip(1) =~= Seq::<StoredIndex>::empty());
    } else {
        assert(files.push(rec)[0] == files[0]);
        assert(files.push(rec).skip(1) =~= files.skip(1).push(rec));
        lemma_find_index_push(files.skip(1), rec, path);
    }
}

proof fn lemma_find_index_update(files: Seq<StoredIndex>, k: int, rec: StoredIndex, path: Seq<u8>)
    requires
        0 <= k < files.len(),
        rec.path@ == files[k].path@,
        path != files[k].path@,
    ensures
        find_index(files.update(k, rec), path) == find_index(files, path),
    decreases k,
{
    if k == 0 {
        assert(files.update(k, rec)[0] == rec);
        assert(files.update(k, rec).skip(1) =~= files.skip(1));
    } else {
        assert(files.update(k, rec)[0] == files[0]);
        assert(files.update(k, rec).skip(1) =~= files.skip(1).update(k - 1, rec));
        assert(files.skip(1)[k - 1] == files[k]);
        lemma_find_index_update(files.skip(1), k - 1, rec, path);
    }
}

proof fn lemma_find_blob_at(files: Seq<StoredBlob>, k: int)
    requires
        0 <= k < files.len(),
        forall|j: int|
            0 <= j < k ==> !(files[j].name@ == files[k].name@ && files[j].version@
                == files[k].version@),
    ensures
        find_blob(files, files[k].name@, files[k].version@) == Option::Some(files[k]),
    decreases k,
{
    if k > 0 {
        assert(files.skip(1)[k - 1] == files[k]);
        assert forall|j: int| #![trigger files.skip(1)[j]]
            0 <= j < k - 1 implies !(files.skip(1)[j].name@ == files.skip(1)[k - 1].name@
                && files.skip(1)[j].version@ == files.skip(1)[k - 1].version@) by {
            assert(files.skip(1)[j] == files[j + 1]);
        }
        lemma_find_blob_at(files.skip(1), k - 1);
    }
}

proof fn lemma_find_blob_none(files: Seq<StoredBlob>, name: Seq<u8>, version: Seq<u8>)
    requires
        forall|j: int|
            0 <= j < files.len() ==> !(files[j].name@ == name && files[j].version@ == version),
    ensures
        find_blob(files, name, version) is None,
    decreases files.len(),
{
    if files.len() > 0 {
        assert forall|j: int| #![trigger files.skip(1)[j]]
            0 <= j < files.skip(1).len() implies !(files.skip(1)[j].name@ == name && files.skip(
                1,
            )[j].version@ == version) by {
            assert(files.skip(1)[j] == files[j + 1]);
        }
        lemma_find_blob_none(files.skip(1), name, version);
    }
}

proof fn lemma_find_blob_push(files: Seq<StoredBlob>, rec: StoredBlob, name: Seq<u8>, version: Seq<
    u8,
>)
    ensures
        find_blob(files.push(rec), name, version) == (if find_blob(files, name, version)
            is Some {
            find_blob(files, name, version)
        } else if rec.name@ == name && rec.version@ == version {
            Option::Some(rec)
        } else {
            Option::<StoredBlob>::None
        }),
    decreases files.len(),
{
    if files.len() == 0 {
        assert(files.push(rec)[0] == rec);
        assert(files.push(rec).skip(1) =~= Seq::<StoredBlob>::empty());
    } else {
        assert(files.push(rec)[0] == files[0]);
        assert(files.push(rec).skip(1) =~= files.skip(1).push(rec));
        lemma_find_blob_push(files.skip(1), rec, name, version);
    }
}

/// An owned copy of a byte slice.
fn slice_to_vec(data: &[u8]) -> (r: Vec<u8>)
    ensures
        r@ == data@,
{
    let mut r: Vec<u8> = Vec::new();
    r.extend_from_slice(data);
    proof {
        assert(r@ =~= data@);
    }
    r
}

impl MemoryStorage {
    /// A fresh, empty backend.
    pub fn new() -> (r: MemoryStorage)
        ensures
            r.inv(),
            r.reliable(),
            forall|p: Seq<u8>| r.index_file(p) is None,
            forall|n: Seq<u8>, v: Seq<u8>| r.crate_blob(n, v) is None,
    {
        let r = MemoryStorage { index_files: Vec::new(), crate_files: Vec::new(), clock: 0 };
        proof {
            assert forall|p: Seq<u8>| r.index_file(p) is None by {
                lemma_find_index_none(r.index_files@, p);
            }
            assert forall|n: Seq<u8>, v: Seq<u8>| r.crate_blob(n, v) is None by {
                lemma_find_blob_none(r.crate_files@, n, v);
            }
        }
        r
    }

    /// The current clock value; advances the clock.
    fn tick(&mut self) -> (r: i64)
        ensures
            final(self).index_files == old(self).index_files,
            final(self).crate_files == old(self).crate_files,
    {
        let now = self.clock;
        if self.clock < i64::MAX {
            self.clock = self.clock + 1;
        }
        now
    }

    /// Serve an index file conditionally: missing is "not found"; not
    /// strictly newer than the condition is "not modified"; otherwise the
    /// canonical file bytes with their `Last-Modified` value.
    pub fn get_index_file(&self, modified_since: Option<i64>, index_path: &Vec<u8>) -> (r:
        FileResponse)
        ensures
            (match find_index(self.index_files@, index_path@) {
                Option::None => r is NotFound,
                Option::Some(rec) => {
                    if (match modified_since {
                        Option::Some(t) => rec.mtime > t,
                        Option::None => true,
                    }) {
                        &&& r matches FileResponse::Content { body, last_modified }
                        &&& body@ == enc_lines(entries_view(rec.entries@))
                        &&& (last_modified is Some <==> rfc2822_format_of(rec.mtime as int)
                            is Some)
                        &&& (last_modified matches Option::Some(s) ==> rfc2822_format_of(
                            rec.mtime as int,
                        ) == Option::Some(s@))
                    } else {
                        r is NotModified
                    }
                },
            }),
    {
        let mut i: usize = 0;
        while i < self.index_files.len()
            invariant
                i <= self.index_files@.len(),
                forall|j: int| 0 <= j < i ==> self.index_files@[j].path@ != index_path@,
            decreases self.index_files@.len() - i,
        {
            if bytes_eq(&self.index_files[i].path, index_path) {
                proof {
                    lemma_find_index_at(self.index_files@, i as int);
                }
                let rec = &self.index_files[i];
                if should_send_full(rec.mtime, modified_since) {
                    let body = render_index_file(&rec.entries);
                    return FileResponse::Content {
                        body,
                        last_modified: to_modified(rec.mtime),
                    };
                } else {
                    return FileResponse::NotModified;
                }
            }
            i = i + 1;
        }
        proof {
            lemma_find_index_none(self.index_files@, index_path@);
        }
        FileResponse::NotFound
    }

    /// Serve a crate blob conditionally, with the same rules as
    /// [`Self::get_index_file`].
    pub fn get_crate_file(
        &self,
        modified_since: Option<i64>,
        crate_name: &Vec<u8>,
        version: &Vec<u8>,
    ) -> (r: FileResponse)
        ensures
            (match find_blob(self.crate_files@, crate_name@, version@) {
                Option::None => r is NotFound,
                Option::Some(rec) => {
                    if (match modified_since {
                        Option::Some(t) => rec.mtime > t,
                        Option::None => true,
                    }) {
                        &&& r matches FileResponse::Content { body, last_modified }
                        &&& body@ == rec.data@
                        &&& (last_modified is Some <==> rfc2822_format_of(rec.mtime as int)
                            is Some)
                        &&& (last_modified matches Option::Some(s) ==> rfc2822_format_of(
                            rec.mtime as int,
                        ) == Option::Some(s@))
                    } else {
                        r is NotModified
                    }
                },
            }),
    {
        let mut i: usize = 0;
        while i < self.crate_files.len()
            invariant
                i <= self.crate_files@.len(),
                forall|j: int|
                    0 <= j < i ==> !(self.crate_files@[j].name@ == crate_name@
                        && self.crate_files@[j].version@ == version@),
            decreases self.crate_files@.len() - i,
        {
            let hit = bytes_eq(&self.crate_files[i].name, crate_name) && bytes_eq(
                &self.crate_files[i].version,
                version,
            );
            if hit {
                proof {
                    lemma_find_blob_at(self.crate_files@, i as int);
                }
                let rec = &self.crate_files[i];
                if should_send_full(rec.mtime, modified_since) {
                    return FileResponse::Content {
                        body: clone_bytes(&rec.data),
                        last_modified: to_modified(rec.mtime),
                    };
                } else {
                    return FileResponse::NotModified;
                }
            }
            i = i + 1;
        }
        proof {
            lemma_find_blob_none(self.crate_files@, crate_name@, version@);
        }
        FileResponse::NotFound
    }
}

impl RegistryStorage for MemoryStorage {
    open spec fn inv(&self) -> bool {
        true
    }

    open spec fn reliable(&self) -> bool {
        true
    }

    open spec fn index_file(&self, path: Seq<u8>) -> Option<Seq<IndexDataView>> {
        match find_index(self.index_files@, path) {
            Option::Some(r) => Option::Some(entries_view(r.entries@)),
            Option::None => Option::None,
        }
    }

    open spec fn crate_blob(&self, name: Seq<u8>, version: Seq<u8>) -> Option<Seq<u8>> {
        match find_blob(self.crate_files@, name, version) {
            Option::Some(b) => Option::Some(b.data@),
            Option::None => Option::None,
        }
    }

    fn get_index_data(&self, crate_name: &Vec<u8>) -> (r: Result<
        Option<Vec<IndexData>>,
        RegistryError,
    >) {
        let path = crate_name_to_index(crate_name);
        let mut i: usize = 0;
        while i < self.index_files.len()
            invariant
                i <= self.index_files@.len(),
                path@ == crate::crate_utils::spec_crate_index_path(crate_name@),
                forall|j: int| 0 <= j < i ==> self.index_files@[j].path@ != path@,
            decreases self.index_files@.len() - i,
        {
            if bytes_eq(&self.index_files[i].path, &path) {
                proof {
                    lemma_find_index_at(self.index_files@, i as int);
                }
                return Result::Ok(Option::Some(clone_entries(&self.index_files[i].entries)));
            }
            i = i + 1;
        }
        proof {
            lemma_find_index_none(self.index_files@, path@);
        }
        Result::Ok(Option::None)
    }

    fn put_index(&mut self, index_path: &Vec<u8>, data: IndexData, prev_data: Vec<IndexData>) -> (r:
        Result<(), RegistryError>) {
        let ghost files0 = self.index_files@;
        let now = self.tick();
        let mut i: usize = 0;
        while i < self.index_files.len()
            invariant
                i <= self.index_files@.len(),
                self.index_files@ == old(self).index_files@,
                self.crate_files@ == old(self).crate_files@,
                forall|j: int| 0 <= j < i ==> self.index_files@[j].path@ != index_path@,
            decreases self.index_files@.len() - i,
        {
            if bytes_eq(&self.index_files[i].path, index_path) {
                proof {
                    lemma_find_index_at(self.index_files@, i as int);
                }
                let ghost pre = self.index_files@;
                let mut rec = self.index_files.remove(i);
                rec.entries.push(data);
                rec.mtime = now;
                let ghost newrec = rec;
                self.index_files.insert(i, rec);
                proof {
                    assert(self.index_files@ =~= pre.update(i as int, newrec));
                    let files = pre.update(i as int, newrec);
                    lemma_find_index_at(files, i as int);
                    assert(entries_view(newrec.entries@) =~= entries_view(
                        pre[i as int].entries@,
                    ).push(data@));
                    assert forall|p: Seq<u8>|
                        p != index_path@ implies find_index(self.index_files@, p)
                        == find_index(pre, p) by {
                        lemma_find_index_update(pre, i as int, newrec, p);
                    }
                }
                return Result::Ok(());
            }
            i = i + 1;
        }
        proof {
            lemma_find_index_none(self.index_files@, index_path@);
        }
        let mut entries: Vec<IndexData> = Vec::new();
        entries.push(data);
        let ghost d_view = entries@[0]@;
        let rec = StoredIndex { path: clone_bytes(index_path), entries, mtime: now };
        let ghost pre = self.index_files@;
        let ghost newrec = rec;
        self.index_files.push(rec);
        proof {
            assert(self.index_files@ =~= pre.push(newrec));
            lemma_find_index_push(pre, newrec, index_path@);
            assert(entries_view(newrec.entries@) =~= Seq::<IndexDataView>::empty().push(
                d_view,
            ));
            assert forall|p: Seq<u8>|
                p != index_path@ implies find_index(self.index_files@, p) == find_index(
                pre,
                p,
            ) by {
                lemma_find_index_push(pre, newrec, p);
            }
        }
        Result::Ok(())
    }

    fn put_crate(&mut self, crate_name: &Vec<u8>, version: &Vec<u8>, data: &[u8]) -> (r: Result<
        (),
        RegistryError,
    >) {
        let mut i: usize = 0;
        while i < self.crate_files.len()
            invariant
                i <= self.crate_files@.len(),
                self.index_files@ == old(self).index_files@,
                self.crate_files@ == old(self).crate_files@,
                forall|j: int|
                    0 <= j < i ==> !(self.crate_files@[j].name@ == crate_name@
                        && self.crate_files@[j].version@ == version@),
            decreases self.crate_files@.len() - i,
        {
            let hit = bytes_eq(&self.crate_files[i].name, crate_name) && bytes_eq(
                &self.crate_files[i].version,
                version,
            );
            if hit {
                proof {
                    lemma_find_blob_at(self.crate_files@, i as int);
                }
                return Result::Err(RegistryError::Duplicate);
            }
            i = i + 1;
        }
        proof {
            lemma_find_blob_none(self.crate_files@, crate_name@, version@);
        }
        let now = self.tick();
        let rec = StoredBlob {
            name: clone_bytes(crate_name),
            version: clone_bytes(version),
            data: slice_to_vec(data),
            mtime: now,
        };
        let ghost pre = self.crate_files@;
        let ghost newrec = rec;
        self.crate_files.push(rec);
        proof {
            assert(self.crate_files@ =~= pre.push(newrec));
            lemma_find_blob_push(pre, newrec, crate_name@, version@);
            assert forall|n: Seq<u8>, v: Seq<u8>|
                !(n == crate_name@ && v == version@) implies find_blob(self.crate_files@, n, v)
                == find_blob(pre, n, v) by {
                lemma_find_blob_push(pre, newrec, n, v);
            }
        }
        Result::Ok(())
    }
}

} // verus!
