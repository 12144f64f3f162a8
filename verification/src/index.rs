//! Typed representation of a package's index entry: one entry describes one
//! published version of one package, and is persisted as one line of the
//! package's index file.
//!
//! Textual fields are held as UTF-8 byte strings (`Vec<u8>`), and the feature
//! table as an ordered sequence of name/value-list pairs, so that the line
//! codec and its proofs can speak about plain byte sequences throughout.

use vstd::prelude::*;

verus! {

/// The views of a sequence of byte strings.
pub open spec fn bytes_seq_view(vs: Seq<Vec<u8>>) -> Seq<Seq<u8>> {
    vs.map_values(|v: Vec<u8>| v@)
}

/// The view of an optional byte string.
pub open spec fn opt_bytes_view(o: Option<Vec<u8>>) -> Option<Seq<u8>> {
    match o {
        Option::None => Option::None,
        Option::Some(v) => Option::Some(v@),
    }
}

/// One dependency record inside an index entry.
#[derive(Debug, PartialEq, Eq)]
pub struct Dependency {
    pub name: Vec<u8>,
    pub req: Vec<u8>,
    pub features: Vec<Vec<u8>>,
    pub optional: bool,
    pub default_features: bool,
    pub target: Option<Vec<u8>>,
    pub kind: Vec<u8>,
    pub registry: Option<Vec<u8>>,
    pub package: Option<Vec<u8>>,
}

/// Mathematical model of a [`Dependency`].
pub ghost struct DependencyView {
    pub name: Seq<u8>,
    pub req: Seq<u8>,
    pub features: Seq<Seq<u8>>,
    pub optional: bool,
    pub default_features: bool,
    pub target: Option<Seq<u8>>,
    pub kind: Seq<u8>,
    pub registry: Option<Seq<u8>>,
    pub package: Option<Seq<u8>>,
}

impl View for Dependency {
    type V = DependencyView;

    open spec fn view(&self) -> DependencyView {
        DependencyView {
            name: self.name@,
            req: self.req@,
            features: bytes_seq_view(self.features@),
            optional: self.optional,
            default_features: self.default_features,
            target: opt_bytes_view(self.target),
            kind: self.kind@,
            registry: opt_bytes_view(self.registry),
            package: opt_bytes_view(self.package),
        }
    }
}

/// One entry of the feature table: a feature name and the list of values it
/// enables. The table keeps the order in which the client submitted it.
#[derive(Debug, PartialEq, Eq)]
pub struct FeatureEntry {
    pub name: Vec<u8>,
    pub values: Vec<Vec<u8>>,
}

/// Mathematical model of a [`FeatureEntry`].
pub ghost struct FeatureEntryView {
    pub name: Seq<u8>,
    pub values: Seq<Seq<u8>>,
}

impl View for FeatureEntry {
    type V = FeatureEntryView;

    open spec fn view(&self) -> FeatureEntryView {
        FeatureEntryView { name: self.name@, values: bytes_seq_view(self.values@) }
    }
}

/// The views of a sequence of feature entries.
pub open spec fn features_view(fs: Seq<FeatureEntry>) -> Seq<FeatureEntryView> {
    fs.map_values(|f: FeatureEntry| f@)
}

/// The views of a sequence of dependencies.
pub open spec fn deps_view(ds: Seq<Dependency>) -> Seq<DependencyView> {
    ds.map_values(|d: Dependency| d@)
}

/// The views of a sequence of index entries.
pub open spec fn entries_view(es: Seq<IndexData>) -> Seq<IndexDataView> {
    es.map_values(|d: IndexData| d@)
}

/// The view of an optional feature table.
pub open spec fn opt_features_view(o: Option<Vec<FeatureEntry>>) -> Option<Seq<FeatureEntryView>> {
    match o {
        Option::None => Option::None,
        Option::Some(fs) => Option::Some(features_view(fs@)),
    }
}

/// One line of a package's index file, describing exactly one published
/// version.
#[derive(Debug, PartialEq, Eq)]
pub struct IndexData {
    pub name: Vec<u8>,
    pub vers: Vec<u8>,
    pub deps: Vec<Dependency>,
    /// Lowercase hex SHA-256 of the crate blob.
    pub cksum: Vec<u8>,
    pub features: Vec<FeatureEntry>,
    /// Always `false` on creation; yanking is outside this registry's scope.
    pub yanked: bool,
    pub links: Option<Vec<u8>>,
    /// Index schema version; entries produced here carry `2`.
    pub v: u32,
    /// Present exactly when some feature value needs the newer schema.
    pub features2: Option<Vec<FeatureEntry>>,
    pub rust_version: Option<Vec<u8>>,
}

/// Mathematical model of an [`IndexData`].
pub ghost struct IndexDataView {
    pub name: Seq<u8>,
    pub vers: Seq<u8>,
    pub deps: Seq<DependencyView>,
    pub cksum: Seq<u8>,
    pub features: Seq<FeatureEntryView>,
    pub yanked: bool,
    pub links: Option<Seq<u8>>,
    pub v: u32,
    pub features2: Option<Seq<FeatureEntryView>>,
    pub rust_version: Option<Seq<u8>>,
}

impl View for IndexData {
    type V = IndexDataView;

    open spec fn view(&self) -> IndexDataView {
        IndexDataView {
            name: self.name@,
            vers: self.vers@,
            deps: deps_view(self.deps@),
            cksum: self.cksum@,
            features: features_view(self.features@),
            yanked: self.yanked,
            links: opt_bytes_view(self.links),
            v: self.v,
            features2: opt_features_view(self.features2),
            rust_version: opt_bytes_view(self.rust_version),
        }
    }
}


/// An explicit copy of a byte string, equal to the original in its view.
pub fn clone_bytes(v: &Vec<u8>) -> (r: Vec<u8>)
    ensures
        r@ == v@,
{
    let mut r: Vec<u8> = Vec::new();
    r.extend_from_slice(v.as_slice());
    proof {
        assert(r@ =~= v@);
    }
    r
}

/// An explicit copy of a list of byte strings.
pub fn clone_bytes_list(v: &Vec<Vec<u8>>) -> (r: Vec<Vec<u8>>)
    ensures
        bytes_seq_view(r@) == bytes_seq_view(v@),
{
    let mut r: Vec<Vec<u8>> = Vec::new();
    let mut i: usize = 0;
    while i < v.len()
        invariant
            i <= v@.len(),
            r@.len() == i,
            forall|k: int| 0 <= k < i ==> r@[k]@ == v@[k]@,
        decreases v@.len() - i,
    {
        r.push(clone_bytes(&v[i]));
        i = i + 1;
    }
    proof {
        assert(bytes_seq_view(r@) =~= bytes_seq_view(v@));
    }
    r
}

/// An explicit copy of an optional byte string.
pub fn clone_opt_bytes(v: &Option<Vec<u8>>) -> (r: Option<Vec<u8>>)
    ensures
        opt_bytes_view(r) == opt_bytes_view(*v),
{
    match v {
        Option::Some(b) => Option::Some(clone_bytes(b)),
        Option::None => Option::None,
    }
}

/// An explicit copy of a dependency record.
pub fn clone_dependency(d: &Dependency) -> (r: Dependency)
    ensures
        r@ == d@,
{
    Dependency {
        name: clone_bytes(&d.name),
        req: clone_bytes(&d.req),
        features: clone_bytes_list(&d.features),
        optional: d.optional,
        default_features: d.default_features,
        target: clone_opt_bytes(&d.target),
        kind: clone_bytes(&d.kind),
        registry: clone_opt_bytes(&d.registry),
        package: clone_opt_bytes(&d.package),
    }
}

/// An explicit copy of a feature-table entry.
pub fn clone_feature(f: &FeatureEntry) -> (r: FeatureEntry)
    ensures
        r@ == f@,
{
    FeatureEntry { name: clone_bytes(&f.name), values: clone_bytes_list(&f.values) }
}

/// An explicit copy of a feature table.
pub fn clone_features(fs: &Vec<FeatureEntry>) -> (r: Vec<FeatureEntry>)
    ensures
        features_view(r@) == features_view(fs@),
{
    let mut r: Vec<FeatureEntry> = Vec::new();
    let mut i: usize = 0;
    while i < fs.len()
        invariant
            i <= fs@.len(),
            r@.len() == i,
            forall|k: int| 0 <= k < i ==> r@[k]@ == fs@[k]@,
        decreases fs@.len() - i,
    {
        r.push(clone_feature(&fs[i]));
        i = i + 1;
    }
    proof {
        assert(features_view(r@) =~= features_view(fs@));
    }
    r
}

/// An explicit copy of an index entry.
pub fn clone_index_data(d: &IndexData) -> (r: IndexData)
    ensures
        r@ == d@,
{
    let mut deps: Vec<Dependency> = Vec::new();
    let mut i: usize = 0;
    while i < d.deps.len()
        invariant
            i <= d.deps@.len(),
            deps@.len() == i,
            forall|k: int| 0 <= k < i ==> deps@[k]@ == d.deps@[k]@,
        decreases d.deps@.len() - i,
    {
        deps.push(clone_dependency(&d.deps[i]));
        i = i + 1;
    }
    proof {
        assert(deps_view(deps@) =~= deps_view(d.deps@));
    }
    let features2: Option<Vec<FeatureEntry>> = match &d.features2 {
        Option::Some(fs) => Option::Some(clone_features(fs)),
        Option::None => Option::None,
    };
    proof {
        assert(opt_features_view(features2) == opt_features_view(d.features2));
    }
    IndexData {
        name: clone_bytes(&d.name),
        vers: clone_bytes(&d.vers),
        deps,
        cksum: clone_bytes(&d.cksum),
        features: clone_features(&d.features),
        yanked: d.yanked,
        links: clone_opt_bytes(&d.links),
        v: d.v,
        features2,
        rust_version: clone_opt_bytes(&d.rust_version),
    }
}

/// An explicit copy of a list of index entries.
pub fn clone_entries(es: &Vec<IndexData>) -> (r: Vec<IndexData>)
    ensures
        entries_view(r@) == entries_view(es@),
{
    let mut r: Vec<IndexData> = Vec::new();
    let mut i: usize = 0;
    while i < es.len()
        invariant
            i <= es@.len(),
            r@.len() == i,
            forall|k: int| 0 <= k < i ==> r@[k]@ == es@[k]@,
        decreases es@.len() - i,
    {
        r.push(clone_index_data(&es[i]));
        i = i + 1;
    }
    proof {
        assert(entries_view(r@) =~= entries_view(es@));
    }
    r
}


/// Whether two byte strings hold the same bytes.
pub fn bytes_eq(a: &Vec<u8>, b: &Vec<u8>) -> (r: bool)
    ensures
        r <==> a@ == b@,
{
    if a.len() != b.len() {
        proof {
            assert(a@.len() != b@.len());
        }
        return false;
    }
    let mut i: usize = 0;
    while i < a.len()
        invariant
            a@.len() == b@.len(),
            i <= a@.len(),
            forall|k: int| 0 <= k < i ==> a@[k] == b@[k],
        decreases a@.len() - i,
    {
        if a[i] != b[i] {
            return false;
        }
        i = i + 1;
    }
    proof {
        assert(a@ =~= b@);
    }
    true
}


/// The registry-configuration document served to clients: the download-URL
/// template, and the API endpoint when the registry serves one.
pub struct IndexConfig {
    pub dl: Vec<u8>,
    pub api: Option<Vec<u8>>,
}

/// The JSON bytes of the registry-configuration document.
pub open spec fn spec_config_json(dl: Seq<u8>, api: Option<Seq<u8>>) -> Seq<u8> {
    match api {
        Option::Some(a) => crate::codec::enc_first_key(seq![100u8, 108u8])
            + crate::codec::enc_str(dl) + crate::codec::enc_next_key(seq![97u8, 112u8, 105u8])
            + crate::codec::enc_str(a) + seq![125u8],
        Option::None => crate::codec::enc_first_key(seq![100u8, 108u8])
            + crate::codec::enc_str(dl) + seq![125u8],
    }
}

impl IndexConfig {
    /// Whether this registry serves the publish API.
    pub fn has_api(&self) -> (r: bool)
        ensures
            r == (self.api is Some),
    {
        match &self.api {
            Option::Some(_) => true,
            Option::None => false,
        }
    }

    /// Render the configuration document as JSON bytes.
    pub fn to_json(&self) -> (r: Vec<u8>)
        ensures
            r@ == spec_config_json(self.dl@, opt_bytes_view(self.api)),
    {
        let mut out: Vec<u8> = Vec::new();
        let ghost start = out@;
        let kdl: Vec<u8> = vec![100u8, 108u8];
        proof {
            assert(kdl@ =~= seq![100u8, 108u8]);
        }
        crate::codec::push_key(&mut out, true, &kdl);
        crate::codec::push_str(&mut out, &self.dl);
        proof {
            vstd::seq_lib::lemma_concat_associative(start, crate::codec::enc_first_key(
                seq![100u8, 108u8]), crate::codec::enc_str(self.dl@));
        }
        match &self.api {
            Option::Some(a) => {
                let kapi: Vec<u8> = vec![97u8, 112u8, 105u8];
                proof {
                    assert(kapi@ =~= seq![97u8, 112u8, 105u8]);
                }
                let ghost acc2 = crate::codec::enc_first_key(seq![100u8, 108u8])
                    + crate::codec::enc_str(self.dl@);
                crate::codec::push_key(&mut out, false, &kapi);
                proof {
                    vstd::seq_lib::lemma_concat_associative(start, acc2,
                        crate::codec::enc_next_key(seq![97u8, 112u8, 105u8]));
                }
                crate::codec::push_str(&mut out, a);
                proof {
                    vstd::seq_lib::lemma_concat_associative(start, acc2
                        + crate::codec::enc_next_key(seq![97u8, 112u8, 105u8]),
                        crate::codec::enc_str(a@));
                }
                crate::codec::push_byte(&mut out, 125);
                proof {
                    vstd::seq_lib::lemma_concat_associative(start, acc2
                        + crate::codec::enc_next_key(seq![97u8, 112u8, 105u8])
                        + crate::codec::enc_str(a@), seq![125u8]);
                    assert(start =~= Seq::<u8>::empty());
                    assert(out@ =~= spec_config_json(self.dl@, opt_bytes_view(self.api)));
                }
            },
            Option::None => {
                crate::codec::push_byte(&mut out, 125);
                proof {
                    vstd::seq_lib::lemma_concat_associative(start, crate::codec::enc_first_key(
                        seq![100u8, 108u8]) + crate::codec::enc_str(self.dl@), seq![125u8]);
                    assert(start =~= Seq::<u8>::empty());
                    assert(out@ =~= spec_config_json(self.dl@, opt_bytes_view(self.api)));
                }
            },
        }
        out
    }
}

} // verus!
