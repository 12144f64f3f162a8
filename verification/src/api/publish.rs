//! The publish pipeline: the binary publish-request framing, the submitted
//! package metadata, its transformation into an index entry (including the
//! all-or-nothing feature split), and the orchestration of the duplicate
//! check, checksum, index append and blob creation against an injected
//! storage backend.

use vstd::prelude::*;

use crate::api::ErrorResponse;
use crate::crate_utils::{crate_name_to_index, spec_crate_index_path};
use crate::digest::{hex_of, sha256_hex, sha256_of};
use crate::index::{bytes_eq, bytes_seq_view, clone_bytes, entries_view, features_view,
    opt_bytes_view, opt_features_view, DependencyView, FeatureEntry, FeatureEntryView,
    IndexData, IndexDataView};
use crate::registory_storage::RegistryStorage;
use crate::{App, RegistryError};

verus! {

/// One dependency as submitted by the publishing client.
#[derive(Debug)]
pub struct Dependency {
    pub name: Vec<u8>,
    pub version_req: Vec<u8>,
    pub features: Vec<Vec<u8>>,
    pub optional: bool,
    pub default_features: bool,
    pub target: Option<Vec<u8>>,
    pub kind: Vec<u8>,
    pub registry: Option<Vec<u8>>,
    pub explicit_name_in_toml: Option<Vec<u8>>,
}

/// The index-entry form of a submitted dependency.
pub open spec fn submitted_dep_view(d: Dependency) -> DependencyView {
    DependencyView {
        name: d.name@,
        req: d.version_req@,
        features: bytes_seq_view(d.features@),
        optional: d.optional,
        default_features: d.default_features,
        target: opt_bytes_view(d.target),
        kind: d.kind@,
        registry: opt_bytes_view(d.registry),
        package: opt_bytes_view(d.explicit_name_in_toml),
    }
}

/// The index-entry form of a submitted dependency list.
pub open spec fn submitted_deps_view(ds: Seq<Dependency>) -> Seq<DependencyView> {
    ds.map_values(|d: Dependency| submitted_dep_view(d))
}

impl Dependency {
    /// Convert to the dependency record persisted in the index.
    pub fn to_index_dependency(self) -> (r: crate::index::Dependency)
        ensures
            r@ == submitted_dep_view(self),
    {
        crate::index::Dependency {
            name: self.name,
            req: self.version_req,
            features: self.features,
            optional: self.optional,
            default_features: self.default_features,
            target: self.target,
            kind: self.kind,
            registry: self.registry,
            package: self.explicit_name_in_toml,
        }
    }
}

/// The package metadata submitted by the publishing client. The descriptive
/// fields are accepted but not persisted into the index.
#[derive(Debug)]
pub struct Package {
    pub name: Vec<u8>,
    pub vers: Vec<u8>,
    pub deps: Vec<Dependency>,
    pub features: Vec<FeatureEntry>,
    pub authors: Vec<Vec<u8>>,
    pub description: Option<Vec<u8>>,
    pub documentation: Option<Vec<u8>>,
    pub homepage: Option<Vec<u8>>,
    pub readme: Option<Vec<u8>>,
    pub readme_file: Option<Vec<u8>>,
    pub keywords: Vec<Vec<u8>>,
    pub categories: Vec<Vec<u8>>,
    pub license: Option<Vec<u8>>,
    pub license_file: Option<Vec<u8>>,
    pub repository: Option<Vec<u8>>,
    pub badges: Vec<(Vec<u8>, Vec<(Vec<u8>, Vec<u8>)>)>,
    pub links: Option<Vec<u8>>,
    pub rust_version: Option<Vec<u8>>,
}

/// Whether one feature value needs the newer index schema: it begins with
/// the literal prefix `dep`, or contains the character `?`.
pub open spec fn value_needs_v2(v: Seq<u8>) -> bool {
    (v.len() >= 3 && v[0] == 100 && v[1] == 101 && v[2] == 112) || (exists|k: int|
        0 <= k < v.len() && #[trigger] v[k] == 63)
}

/// Whether some value of one feature needs the newer index schema.
pub open spec fn feature_needs_v2(f: FeatureEntryView) -> bool {
    exists|k: int| 0 <= k < f.values.len() && value_needs_v2(#[trigger] f.values[k])
}

/// Whether any value anywhere in the feature table needs the newer index
/// schema; when so, the entire table moves to `features2`.
pub open spec fn spec_needs_features2(fs: Seq<FeatureEntryView>) -> bool {
    exists|i: int| 0 <= i < fs.len() && feature_needs_v2(#[trigger] fs[i])
}

/// The index entry a package and checksum produce.
pub open spec fn spec_into_index(p: Package, cksum: Seq<u8>) -> IndexDataView {
    let fv = features_view(p.features@);
    IndexDataView {
        name: p.name@,
        vers: p.vers@,
        deps: submitted_deps_view(p.deps@),
        cksum,
        features: if spec_needs_features2(fv) {
            Seq::<FeatureEntryView>::empty()
        } else {
            fv
        },
        yanked: false,
        links: opt_bytes_view(p.links),
        v: 2,
        features2: if spec_needs_features2(fv) {
            Option::Some(fv)
        } else {
            Option::None
        },
        rust_version: opt_bytes_view(p.rust_version),
    }
}

/// Whether one feature value needs the newer index schema.
fn value_is_v2(v: &Vec<u8>) -> (r: bool)
    ensures
        r == value_needs_v2(v@),
{
    if v.len() >= 3 && v[0] == 100 && v[1] == 101 && v[2] == 112 {
        return true;
    }
    let mut k: usize = 0;
    while k < v.len()
        invariant
            k <= v@.len(),
            forall|j: int| 0 <= j < k ==> v@[j] != 63,
        decreases v@.len() - k,
    {
        if v[k] == 63 {
            return true;
        }
        k = k + 1;
    }
    false
}

/// Whether any value anywhere in the feature table needs the newer index
/// schema.
fn needs_features2(fs: &Vec<FeatureEntry>) -> (r: bool)
    ensures
        r == spec_needs_features2(features_view(fs@)),
{
    let ghost fv = features_view(fs@);
    let mut i: usize = 0;
    while i < fs.len()
        invariant
            i <= fs@.len(),
            fv == features_view(fs@),
            forall|j: int| 0 <= j < i ==> !feature_needs_v2(#[trigger] fv[j]),
        decreases fs@.len() - i,
    {
        let values = &fs[i].values;
        let mut k: usize = 0;
        while k < values.len()
            invariant
                i < fs@.len(),
                k <= values@.len(),
                fv == features_view(fs@),
                values@ == fs@[i as int].values@,
                forall|j: int| 0 <= j < k ==> !value_needs_v2(#[trigger] fv[i as int].values[j]),
            decreases values@.len() - k,
        {
            if value_is_v2(&values[k]) {
                proof {
                    assert(fv[i as int].values[k as int] == values@[k as int]@);
                    assert(feature_needs_v2(fv[i as int]));
                }
                return true;
            }
            proof {
                assert(fv[i as int].values[k as int] == values@[k as int]@);
            }
            k = k + 1;
        }
        proof {
            assert(fv[i as int].values.len() == values@.len());
            assert(!feature_needs_v2(fv[i as int]));
        }
        i = i + 1;
    }
    false
}

impl Package {
    /// The feature-split rule: if any value anywhere in the submitted
    /// feature table needs the newer schema, the entire table moves to the
    /// second slot and the first is emitted empty; otherwise the table is
    /// emitted as-is and the second slot is absent.
    pub fn features_selector(features: Vec<FeatureEntry>) -> (r: (
        Vec<FeatureEntry>,
        Option<Vec<FeatureEntry>>,
    ))
        ensures
            spec_needs_features2(features_view(features@)) ==> features_view(r.0@)
                == Seq::<FeatureEntryView>::empty() && opt_features_view(r.1) == Option::Some(
                features_view(features@),
            ),
            !spec_needs_features2(features_view(features@)) ==> features_view(r.0@)
                == features_view(features@) && r.1 is None,
    {
        if needs_features2(&features) {
            let empty: Vec<FeatureEntry> = Vec::new();
            proof {
                assert(features_view(empty@) =~= Seq::<FeatureEntryView>::empty());
            }
            (empty, Option::Some(features))
        } else {
            (features, Option::None)
        }
    }

    /// Transform the submitted package into the index entry recording this
    /// version, with the given checksum. Pure and total.
    pub fn into_index(self, checksum: Vec<u8>) -> (r: IndexData)
        ensures
            r@ == spec_into_index(self, checksum@),
    {
        let ghost this = self;
        let (features, features2) = Package::features_selector(self.features);
        let mut deps: Vec<crate::index::Dependency> = Vec::new();
        let mut rest = self.deps;
        let ghost all = rest@;
        proof {
            assert(all.skip(0) =~= all);
        }
        let total = rest.len();
        let mut taken: usize = 0;
        while taken < total
            invariant
                total == all.len(),
                taken + rest@.len() == all.len(),
                rest@ =~= all.skip(taken as int),
                deps@.len() == taken,
                forall|j: int| 0 <= j < taken ==> deps@[j]@ == submitted_dep_view(all[j]),
            decreases rest@.len(),
        {
            let d = rest.remove(0);
            proof {
                assert(all.skip(taken as int)[0] == all[taken as int]);
                assert(all.skip(taken as int).skip(1) =~= all.skip(taken + 1));
            }
            deps.push(d.to_index_dependency());
            taken = taken + 1;
        }
        proof {
            assert(crate::index::deps_view(deps@) =~= submitted_deps_view(all));
        }
        let r = IndexData {
            name: self.name,
            vers: self.vers,
            deps,
            cksum: checksum,
            features,
            yanked: false,
            links: self.links,
            v: 2,
            features2,
            rust_version: self.rust_version,
        };
        proof {
            assert(r@ == spec_into_index(this, checksum@));
        }
        r
    }
}

/// Advisory warnings returned to the publishing client; they never affect
/// the persistence outcome.
#[derive(Debug)]
pub struct Warnings {
    pub invalid_categories: Vec<Vec<u8>>,
    pub invalid_badges: Vec<Vec<u8>>,
    pub other: Vec<Vec<u8>>,
}

impl Default for Warnings {
    /// An empty set of warnings.
    fn default() -> (r: Warnings)
        ensures
            r.invalid_categories@.len() == 0,
            r.invalid_badges@.len() == 0,
            r.other@.len() == 0,
    {
        Warnings { invalid_categories: Vec::new(), invalid_badges: Vec::new(), other: Vec::new() }
    }
}

/// The body of a successful publish response.
#[derive(Debug)]
pub struct PublishResponse {
    pub warnings: Warnings,
}

impl Default for PublishResponse {
    /// A successful response with no warnings.
    fn default() -> (r: PublishResponse)
        ensures
            r.warnings.invalid_categories@.len() == 0,
            r.warnings.invalid_badges@.len() == 0,
            r.warnings.other@.len() == 0,
    {
        PublishResponse { warnings: Warnings::default() }
    }
}

/// The little-endian `u32` held in four bytes.
pub open spec fn spec_u32_le(b0: u8, b1: u8, b2: u8, b3: u8) -> u32 {
    (b0 as u32 + b1 as u32 * 0x100 + b2 as u32 * 0x10000 + b3 as u32 * 0x1000000) as u32
}

/// The publish-request framing: a little-endian length-prefixed JSON
/// metadata section followed by a little-endian length-prefixed crate blob;
/// the metadata bytes and the crate bytes when well-formed.
pub open spec fn spec_parse_publish(data: Seq<u8>) -> Option<(Seq<u8>, Seq<u8>)> {
    if data.len() < 4 {
        Option::None
    } else {
        let meta_len = spec_u32_le(data[0], data[1], data[2], data[3]) as int;
        if 4 + meta_len > data.len() {
            Option::None
        } else {
            let off = 4 + meta_len;
            if data.len() - off < 4 {
                Option::None
            } else {
                let crate_len = spec_u32_le(data[off], data[off + 1], data[off + 2],
                    data[off + 3]) as int;
                if off + 4 + crate_len > data.len() {
                    Option::None
                } else {
                    Option::Some(
                        (data.subrange(4, off), data.subrange(off + 4, off + 4 + crate_len)),
                    )
                }
            }
        }
    }
}

/// An owned copy of part of a byte string.
fn copy_range(data: &Vec<u8>, a: usize, b: usize) -> (r: Vec<u8>)
    requires
        a <= b <= data@.len(),
    ensures
        r@ == data@.subrange(a as int, b as int),
{
    let mut r: Vec<u8> = Vec::new();
    let mut k: usize = a;
    while k < b
        invariant
            a <= k <= b <= data@.len(),
            r@ =~= data@.subrange(a as int, k as int),
        decreases b - k,
    {
        r.push(data[k]);
        proof {
            assert(r@ =~= data@.subrange(a as int, k + 1));
        }
        k = k + 1;
    }
    r
}

/// Split a publish request into its metadata bytes and its crate bytes.
/// Truncated length prefixes, and declared lengths exceeding the buffer,
/// are malformed data; trailing bytes beyond the declared crate length are
/// ignored.
pub fn parse_publish_data(data: &Vec<u8>) -> (r: Result<(Vec<u8>, Vec<u8>), RegistryError>)
    ensures
        r is Ok <==> spec_parse_publish(data@) is Some,
        r matches Result::Ok(p) ==> spec_parse_publish(data@) == Option::Some((p.0@, p.1@)),
        r is Err ==> r matches Result::Err(RegistryError::MalformedData),
{
    if data.len() < 4 {
        return Result::Err(RegistryError::MalformedData);
    }
    let meta_len = data[0] as u32 + data[1] as u32 * 0x100 + data[2] as u32 * 0x10000 + data[3]
        as u32 * 0x1000000;
    let meta_len = meta_len as usize;
    if meta_len > data.len() - 4 {
        return Result::Err(RegistryError::MalformedData);
    }
    let off = 4 + meta_len;
    if data.len() - off < 4 {
        return Result::Err(RegistryError::MalformedData);
    }
    let crate_len = data[off] as u32 + data[off + 1] as u32 * 0x100 + data[off + 2] as u32
        * 0x10000 + data[off + 3] as u32 * 0x1000000;
    let crate_len = crate_len as usize;
    if crate_len > data.len() - off - 4 {
        return Result::Err(RegistryError::MalformedData);
    }
    let meta = copy_range(data, 4, off);
    let dot_crate = copy_range(data, off + 4, off + 4 + crate_len);
    Result::Ok((meta, dot_crate))
}

/// Whether some entry records the given version.
pub open spec fn has_version(es: Seq<IndexDataView>, vers: Seq<u8>) -> bool {
    exists|k: int| 0 <= k < es.len() && #[trigger] es[k].vers == vers
}

/// The stored entries for a path, or the empty sequence when the file is
/// absent.
pub open spec fn entries_or_empty<RS: RegistryStorage>(st: RS, path: Seq<u8>) -> Seq<
    IndexDataView,
> {
    match st.index_file(path) {
        Option::Some(es) => es,
        Option::None => Seq::<IndexDataView>::empty(),
    }
}

impl<RS: RegistryStorage> App<RS> {
    /// Fetch the existing index entries for the submitted package,
    /// rejecting the publish as a duplicate when the submitted version is
    /// already recorded; an absent index file is an empty sequence, not an
    /// error.
    pub fn get_index_data(&self, pacakge: &Package) -> (r: Result<
        Vec<IndexData>,
        (u16, RegistryError),
    >)
        requires
            self.registory_storage.inv(),
            pacakge.name@.len() >= 1,
        ensures
            r matches Result::Ok(v) ==> entries_view(v@) == entries_or_empty(
                self.registory_storage,
                spec_crate_index_path(pacakge.name@),
            ) && !has_version(entries_view(v@), pacakge.vers@),
            r matches Result::Err(e) ==> e.0 == 409 || e.0 == 500,
            r matches Result::Err(e) ==> (e.0 == 409 ==> has_version(
                entries_or_empty(self.registory_storage, spec_crate_index_path(pacakge.name@)),
                pacakge.vers@,
            ) && e.1 is Duplicate),
            r matches Result::Err(e) ==> (self.registory_storage.reliable() ==> e.0 == 409),
            (self.registory_storage.reliable() && !has_version(
                entries_or_empty(self.registory_storage, spec_crate_index_path(pacakge.name@)),
                pacakge.vers@,
            )) ==> r is Ok,
    {
        let res = self.registory_storage.get_index_data(&pacakge.name);
        match res {
            Result::Ok(Option::Some(vec)) => {
                let ghost ev = entries_view(vec@);
                let mut i: usize = 0;
                while i < vec.len()
                    invariant
                        i <= vec@.len(),
                        ev == entries_view(vec@),
                        self.registory_storage.index_file(
                            spec_crate_index_path(pacakge.name@),
                        ) == Option::Some(ev),
                        forall|j: int| 0 <= j < i ==> #[trigger] ev[j].vers != pacakge.vers@,
                    decreases vec@.len() - i,
                {
                    if bytes_eq(&vec[i].vers, &pacakge.vers) {
                        proof {
                            assert(ev[i as int].vers == pacakge.vers@);
                        }
                        return Result::Err((409, RegistryError::Duplicate));
                    }
                    i = i + 1;
                }
                Result::Ok(vec)
            },
            Result::Ok(Option::None) => {
                let empty: Vec<IndexData> = Vec::new();
                proof {
                    assert(entries_view(empty@) =~= Seq::<IndexDataView>::empty());
                }
                Result::Ok(empty)
            },
            Result::Err(e) => Result::Err((500, e)),
        }
    }

    /// The publish pipeline: reject a duplicate version, compute the
    /// checksum, transform the package into its index entry, append it to
    /// the index, then create the crate blob. The index append happens
    /// before the blob creation; a blob that already exists is rejected as
    /// a duplicate and is never overwritten.
    pub fn publish(&mut self, pacakge: Package, dot_crate: Vec<u8>) -> (r: Result<
        PublishResponse,
        ErrorResponse,
    >)
        requires
            old(self).registory_storage.inv(),
        ensures
            final(self).registory_storage.inv(),
            final(self).config.domain@ == old(self).config.domain@,
            pacakge.name@.len() == 0 ==> (r matches Result::Err(e) && e.status_code == 400
                && final(self).registory_storage == old(self).registory_storage),
            r matches Result::Err(e) ==> (e.status_code == 400 || e.status_code == 409
                || e.status_code == 500),
            (pacakge.name@.len() >= 1 && has_version(
                entries_or_empty(
                    old(self).registory_storage,
                    spec_crate_index_path(pacakge.name@),
                ),
                pacakge.vers@,
            )) ==> (r matches Result::Err(e) && (e.status_code == 409 || e.status_code == 500)
                && final(self).registory_storage == old(self).registory_storage),
            (old(self).registory_storage.reliable() && pacakge.name@.len() >= 1 && has_version(
                entries_or_empty(
                    old(self).registory_storage,
                    spec_crate_index_path(pacakge.name@),
                ),
                pacakge.vers@,
            )) ==> (r matches Result::Err(e) && e.status_code == 409),
            r is Ok ==> pacakge.name@.len() >= 1 && !has_version(
                entries_or_empty(
                    old(self).registory_storage,
                    spec_crate_index_path(pacakge.name@),
                ),
                pacakge.vers@,
            ),
            r is Ok ==> final(self).registory_storage.index_file(
                spec_crate_index_path(pacakge.name@),
            ) == Option::Some(
                entries_or_empty(
                    old(self).registory_storage,
                    spec_crate_index_path(pacakge.name@),
                ).push(spec_into_index(pacakge, hex_of(sha256_of(dot_crate@)))),
            ),
            r is Ok ==> final(self).registory_storage.crate_blob(pacakge.name@, pacakge.vers@)
                == Option::Some(dot_crate@),
            r is Ok ==> forall|p: Seq<u8>|
                p != spec_crate_index_path(pacakge.name@) ==> final(self).registory_storage.index_file(p) == old(self).registory_storage.index_file(p),
            r is Ok ==> forall|n: Seq<u8>, v: Seq<u8>|
                !(n == pacakge.name@ && v == pacakge.vers@) ==> final(self).registory_storage.crate_blob(n, v) == old(self).registory_storage.crate_blob(
                    n,
                    v,
                ),
            (old(self).registory_storage.reliable() && pacakge.name@.len() >= 1
                && !has_version(
                entries_or_empty(
                    old(self).registory_storage,
                    spec_crate_index_path(pacakge.name@),
                ),
                pacakge.vers@,
            ) && old(self).registory_storage.crate_blob(pacakge.name@, pacakge.vers@)
                is None) ==> r is Ok,
            (old(self).registory_storage.reliable() && pacakge.name@.len() >= 1
                && !has_version(
                entries_or_empty(
                    old(self).registory_storage,
                    spec_crate_index_path(pacakge.name@),
                ),
                pacakge.vers@,
            ) && old(self).registory_storage.crate_blob(pacakge.name@, pacakge.vers@)
                is Some) ==> (r matches Result::Err(e) && e.status_code == 409),
    {
        if pacakge.name.len() == 0 {
            return Result::Err(ErrorResponse::from_error((400, RegistryError::MalformedData)));
        }
        let prev_index_array = match self.get_index_data(&pacakge) {
            Result::Ok(v) => v,
            Result::Err(e) => {
                return Result::Err(ErrorResponse::from_error(e));
            },
        };
        let sha_hash = sha256_hex(&dot_crate);
        let crate_name = clone_bytes(&pacakge.name);
        let version = clone_bytes(&pacakge.vers);
        let ghost p0 = pacakge;
        let index = pacakge.into_index(sha_hash);
        let index_path = crate_name_to_index(&crate_name);
        match self.registory_storage.put_index(&index_path, index, prev_index_array) {
            Result::Ok(()) => {},
            Result::Err(e) => {
                return Result::Err(ErrorResponse::from_error((500, e)));
            },
        }
        match self.registory_storage.put_crate(&crate_name, &version, dot_crate.as_slice()) {
            Result::Ok(()) => Result::Ok(PublishResponse::default()),
            Result::Err(e) => {
                let status: u16 = match &e {
                    RegistryError::Duplicate => 409,
                    _ => 500,
                };
                Result::Err(ErrorResponse::from_error((status, e)))
            },
        }
    }
}

/// Duplicate rejection: once an entry for a version has been appended, the
/// stored entries record that version, and the publish pipeline's contract
/// rejects a second publish of the same version with a conflict and leaves
/// the storage unchanged.
pub proof fn lemma_duplicate_rejection(prior: Seq<IndexDataView>, entry: IndexDataView)
    ensures
        has_version(prior.push(entry), entry.vers),
        forall|v: Seq<u8>| has_version(prior, v) ==> has_version(prior.push(entry), v),
{
    assert(prior.push(entry)[prior.len() as int].vers == entry.vers);
    assert forall|v: Seq<u8>| has_version(prior, v) implies has_version(
        prior.push(entry),
        v,
    ) by {
        let k = choose|k: int| 0 <= k < prior.len() && #[trigger] prior[k].vers == v;
        assert(prior.push(entry)[k].vers == v);
    }
}

/// Feature-split totality: whenever some submitted feature value needs the
/// newer schema, the produced entry's feature table is empty and the whole
/// submitted table stands in the second slot; otherwise the produced table
/// is the submitted one and the second slot is absent.
pub proof fn lemma_feature_split_totality(p: Package, cksum: Seq<u8>)
    ensures
        spec_needs_features2(features_view(p.features@)) ==> spec_into_index(p, cksum).features
            == Seq::<FeatureEntryView>::empty() && spec_into_index(p, cksum).features2
            == Option::Some(features_view(p.features@)),
        !spec_needs_features2(features_view(p.features@)) ==> spec_into_index(p, cksum).features
            == features_view(p.features@) && spec_into_index(p, cksum).features2 is None,
{
}

} // verus!
