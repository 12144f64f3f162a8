//! The persisted index file: one encoded entry line per published version,
//! each line ended by a newline, append-only. This module relates whole
//! files to sequences of entries: rendering a list of entries, parsing a
//! file back, and the proof that the two are inverse.

use vstd::prelude::*;
use vstd::seq_lib::lemma_concat_associative;

use crate::codec::{enc_bool, enc_dep, enc_dep_items, enc_dep_items_rest, enc_dep_part2,
    enc_deps, enc_feature, enc_feature_items, enc_feature_items_rest, enc_features,
    enc_first_key, enc_line, enc_line_part2, enc_next_key, enc_null, enc_opt_features,
    enc_opt_str, enc_str, enc_str_arr, enc_str_items, enc_str_items_rest, enc_u32,
    encode_index_line, esc_byte, key_cksum, key_default_features, key_deps, key_features,
    key_features2, key_kind, key_links, key_name, key_optional, key_package, key_registry,
    key_req, key_rust_version, key_target, key_v, key_vers, key_yanked,
    lemma_index_line_round_trip, p_line, parse_index_line, spec_decimal, spec_escape};
use crate::index::{entries_view, DependencyView, FeatureEntryView, IndexData, IndexDataView};

verus! {

// ---------------------------------------------------------------------------
// The index file: one encoded line per entry, each ended by a newline
// ---------------------------------------------------------------------------

/// Whether a byte sequence contains no newline byte.
pub open spec fn no_newline(s: Seq<u8>) -> bool {
    forall|k: int| 0 <= k < s.len() ==> s[k] != 10
}

proof fn lemma_no_newline_concat(a: Seq<u8>, b: Seq<u8>)
    requires
        no_newline(a),
        no_newline(b),
    ensures
        no_newline(a + b),
{
    assert forall|k: int| 0 <= k < (a + b).len() implies (a + b)[k] != 10 by {
        if k < a.len() {
            assert((a + b)[k] == a[k]);
        } else {
            assert((a + b)[k] == b[k - a.len()]);
        }
    }
}

proof fn lemma_no_newline_escape(s: Seq<u8>)
    ensures
        no_newline(spec_escape(s)),
    decreases s.len(),
{
    if s.len() > 0 {
        lemma_no_newline_escape(s.skip(1));
        assert(no_newline(esc_byte(s[0])));
        lemma_no_newline_concat(esc_byte(s[0]), spec_escape(s.skip(1)));
    }
}

proof fn lemma_no_newline_str(s: Seq<u8>)
    ensures
        no_newline(enc_str(s)),
{
    lemma_no_newline_escape(s);
    lemma_no_newline_concat(seq![34u8], spec_escape(s));
    lemma_no_newline_concat(seq![34u8] + spec_escape(s), seq![34u8]);
}

proof fn lemma_no_newline_decimal(n: nat)
    ensures
        no_newline(spec_decimal(n)),
    decreases n,
{
    if n >= 10 {
        lemma_no_newline_decimal(n / 10);
        assert forall|k: int| 0 <= k < spec_decimal(n).len() implies spec_decimal(n)[k] != 10 by {
            if k < spec_decimal(n / 10).len() {
                assert(spec_decimal(n)[k] == spec_decimal(n / 10)[k]);
            }
        }
    }
}

proof fn lemma_no_newline_opt_str(o: Option<Seq<u8>>)
    ensures
        no_newline(enc_opt_str(o)),
{
    match o {
        Option::None => {},
        Option::Some(s) => {
            lemma_no_newline_str(s);
        },
    }
}

proof fn lemma_no_newline_key(k: Seq<u8>, first: bool)
    requires
        no_newline(k),
    ensures
        no_newline(if first {
            enc_first_key(k)
        } else {
            enc_next_key(k)
        }),
{
    if first {
        lemma_no_newline_concat(seq![123u8, 34u8], k);
        lemma_no_newline_concat(seq![123u8, 34u8] + k, seq![34u8, 58u8]);
    } else {
        lemma_no_newline_concat(seq![44u8, 34u8], k);
        lemma_no_newline_concat(seq![44u8, 34u8] + k, seq![34u8, 58u8]);
    }
}

proof fn lemma_no_newline_str_items(vs: Seq<Seq<u8>>)
    ensures
        no_newline(enc_str_items_rest(vs)),
        no_newline(enc_str_items(vs)),
    decreases vs.len(),
{
    if vs.len() > 0 {
        lemma_no_newline_str_items(vs.skip(1));
        lemma_no_newline_str(vs[0]);
        lemma_no_newline_concat(seq![44u8], enc_str(vs[0]));
        lemma_no_newline_concat(seq![44u8] + enc_str(vs[0]), enc_str_items_rest(vs.skip(1)));
        lemma_no_newline_concat(enc_str(vs[0]), enc_str_items_rest(vs.skip(1)));
    }
}

proof fn lemma_no_newline_str_arr(vs: Seq<Seq<u8>>)
    ensures
        no_newline(enc_str_arr(vs)),
{
    lemma_no_newline_str_items(vs);
    lemma_no_newline_concat(seq![91u8], enc_str_items(vs));
    lemma_no_newline_concat(seq![91u8] + enc_str_items(vs), seq![93u8]);
}

proof fn lemma_no_newline_feature(f: FeatureEntryView)
    ensures
        no_newline(enc_feature(f)),
{
    lemma_no_newline_str(f.name);
    lemma_no_newline_str_arr(f.values);
    lemma_no_newline_concat(enc_str(f.name), seq![58u8]);
    lemma_no_newline_concat(enc_str(f.name) + seq![58u8], enc_str_arr(f.values));
}

proof fn lemma_no_newline_feature_items(fs: Seq<FeatureEntryView>)
    ensures
        no_newline(enc_feature_items_rest(fs)),
        no_newline(enc_feature_items(fs)),
    decreases fs.len(),
{
    if fs.len() > 0 {
        lemma_no_newline_feature_items(fs.skip(1));
        lemma_no_newline_feature(fs[0]);
        lemma_no_newline_concat(seq![44u8], enc_feature(fs[0]));
        lemma_no_newline_concat(seq![44u8] + enc_feature(fs[0]), enc_feature_items_rest(
            fs.skip(1)));
        lemma_no_newline_concat(enc_feature(fs[0]), enc_feature_items_rest(fs.skip(1)));
    }
}

proof fn lemma_no_newline_features(fs: Seq<FeatureEntryView>)
    ensures
        no_newline(enc_features(fs)),
{
    lemma_no_newline_feature_items(fs);
    lemma_no_newline_concat(seq![123u8], enc_feature_items(fs));
    lemma_no_newline_concat(seq![123u8] + enc_feature_items(fs), seq![125u8]);
}

proof fn lemma_no_newline_opt_features(o: Option<Seq<FeatureEntryView>>)
    ensures
        no_newline(enc_opt_features(o)),
{
    match o {
        Option::None => {},
        Option::Some(fs) => {
            lemma_no_newline_features(fs);
        },
    }
}

proof fn lemma_no_newline_dep(d: DependencyView)
    ensures
        no_newline(enc_dep(d)),
{
    lemma_no_newline_key(key_package(), false);
    lemma_no_newline_opt_str(d.package);
    lemma_no_newline_concat(enc_opt_str(d.package), seq![125u8]);
    lemma_no_newline_concat(enc_next_key(key_package()), enc_opt_str(d.package) + (
    seq![125u8]));
    lemma_no_newline_key(key_registry(), false);
    lemma_no_newline_opt_str(d.registry);
    lemma_no_newline_concat(enc_opt_str(d.registry), enc_next_key(key_package()) + (
    enc_opt_str(d.package) + (seq![125u8])));
    lemma_no_newline_concat(enc_next_key(key_registry()), enc_opt_str(d.registry) + (
    enc_next_key(key_package()) + (enc_opt_str(d.package) + (seq![125u8]))));
    assert(no_newline(enc_dep_part2(d))) by {
        lemma_no_newline_key(key_target(), false);
        lemma_no_newline_opt_str(d.target);
        lemma_no_newline_key(key_kind(), false);
        lemma_no_newline_str(d.kind);
        lemma_no_newline_concat(enc_str(d.kind), enc_next_key(key_registry()) + (enc_opt_str(
            d.registry) + (enc_next_key(key_package()) + (enc_opt_str(d.package) + (
        seq![125u8])))));
        lemma_no_newline_concat(enc_next_key(key_kind()), enc_str(d.kind) + (enc_next_key(
            key_registry()) + (enc_opt_str(d.registry) + (enc_next_key(key_package()) + (
        enc_opt_str(d.package) + (seq![125u8]))))));
        lemma_no_newline_concat(enc_opt_str(d.target), enc_next_key(key_kind()) + (enc_str(
            d.kind) + (enc_next_key(key_registry()) + (enc_opt_str(d.registry) + (
        enc_next_key(key_package()) + (enc_opt_str(d.package) + (seq![125u8])))))));
        lemma_no_newline_concat(enc_next_key(key_target()), enc_opt_str(d.target) + (
        enc_next_key(key_kind()) + (enc_str(d.kind) + (enc_next_key(key_registry()) + (
        enc_opt_str(d.registry) + (enc_next_key(key_package()) + (enc_opt_str(d.package) + (
        seq![125u8]))))))));
    }
    lemma_no_newline_key(key_name(), true);
    lemma_no_newline_str(d.name);
    lemma_no_newline_key(key_req(), false);
    lemma_no_newline_str(d.req);
    lemma_no_newline_key(key_features(), false);
    lemma_no_newline_str_arr(d.features);
    lemma_no_newline_key(key_optional(), false);
    lemma_no_newline_key(key_default_features(), false);
    lemma_no_newline_concat(enc_bool(d.default_features), enc_dep_part2(d));
    lemma_no_newline_concat(enc_next_key(key_default_features()), enc_bool(
        d.default_features) + (enc_dep_part2(d)));
    lemma_no_newline_concat(enc_bool(d.optional), enc_next_key(key_default_features()) + (
    enc_bool(d.default_features) + (enc_dep_part2(d))));
    lemma_no_newline_concat(enc_next_key(key_optional()), enc_bool(d.optional) + (
    enc_next_key(key_default_features()) + (enc_bool(d.default_features) + (enc_dep_part2(
        d)))));
    lemma_no_newline_concat(enc_str_arr(d.features), enc_next_key(key_optional()) + (
    enc_bool(d.optional) + (enc_next_key(key_default_features()) + (enc_bool(
        d.default_features) + (enc_dep_part2(d))))));
    lemma_no_newline_concat(enc_next_key(key_features()), enc_str_arr(d.features) + (
    enc_next_key(key_optional()) + (enc_bool(d.optional) + (enc_next_key(
        key_default_features()) + (enc_bool(d.default_features) + (enc_dep_part2(d)))))));
    lemma_no_newline_concat(enc_str(d.req), enc_next_key(key_features()) + (enc_str_arr(
        d.features) + (enc_next_key(key_optional()) + (enc_bool(d.optional) + (enc_next_key(
        key_default_features()) + (enc_bool(d.default_features) + (enc_dep_part2(d))))))));
    lemma_no_newline_concat(enc_next_key(key_req()), enc_str(d.req) + (enc_next_key(
        key_features()) + (enc_str_arr(d.features) + (enc_next_key(key_optional()) + (
    enc_bool(d.optional) + (enc_next_key(key_default_features()) + (enc_bool(
        d.default_features) + (enc_dep_part2(d)))))))));
    lemma_no_newline_concat(enc_str(d.name), enc_next_key(key_req()) + (enc_str(d.req) + (
    enc_next_key(key_features()) + (enc_str_arr(d.features) + (enc_next_key(key_optional())
        + (enc_bool(d.optional) + (enc_next_key(key_default_features()) + (enc_bool(
        d.default_features) + (enc_dep_part2(d))))))))));
    lemma_no_newline_concat(enc_first_key(key_name()), enc_str(d.name) + (enc_next_key(
        key_req()) + (enc_str(d.req) + (enc_next_key(key_features()) + (enc_str_arr(
        d.features) + (enc_next_key(key_optional()) + (enc_bool(d.optional) + (enc_next_key(
        key_default_features()) + (enc_bool(d.default_features) + (enc_dep_part2(
        d)))))))))));
}

proof fn lemma_no_newline_dep_items(ds: Seq<DependencyView>)
    ensures
        no_newline(enc_dep_items_rest(ds)),
        no_newline(enc_dep_items(ds)),
    decreases ds.len(),
{
    if ds.len() > 0 {
        lemma_no_newline_dep_items(ds.skip(1));
        lemma_no_newline_dep(ds[0]);
        lemma_no_newline_concat(seq![44u8], enc_dep(ds[0]));
        lemma_no_newline_concat(seq![44u8] + enc_dep(ds[0]), enc_dep_items_rest(ds.skip(1)));
        lemma_no_newline_concat(enc_dep(ds[0]), enc_dep_items_rest(ds.skip(1)));
    }
}

proof fn lemma_no_newline_deps(ds: Seq<DependencyView>)
    ensures
        no_newline(enc_deps(ds)),
{
    lemma_no_newline_dep_items(ds);
    lemma_no_newline_concat(seq![91u8], enc_dep_items(ds));
    lemma_no_newline_concat(seq![91u8] + enc_dep_items(ds), seq![93u8]);
}

/// An encoded index line never contains a raw newline; that is what makes
/// the line-oriented index file format sound.
#[verifier::rlimit(100)]
pub proof fn lemma_enc_line_no_newline(d: IndexDataView)
    ensures
        no_newline(enc_line(d)),
{
    assert(no_newline(enc_line_part2(d))) by {
        lemma_no_newline_key(key_features(), false);
        lemma_no_newline_features(d.features);
        lemma_no_newline_key(key_yanked(), false);
        lemma_no_newline_key(key_links(), false);
        lemma_no_newline_opt_str(d.links);
        lemma_no_newline_key(key_v(), false);
        lemma_no_newline_decimal(d.v as nat);
        lemma_no_newline_key(key_features2(), false);
        lemma_no_newline_opt_features(d.features2);
        lemma_no_newline_key(key_rust_version(), false);
        lemma_no_newline_opt_str(d.rust_version);
        lemma_no_newline_concat(enc_opt_str(d.rust_version), seq![125u8]);
        lemma_no_newline_concat(enc_next_key(key_rust_version()), enc_opt_str(
            d.rust_version) + (seq![125u8]));
        lemma_no_newline_concat(enc_opt_features(d.features2), enc_next_key(
            key_rust_version()) + (enc_opt_str(d.rust_version) + (seq![125u8])));
        lemma_no_newline_concat(enc_next_key(key_features2()), enc_opt_features(d.features2)
            + (enc_next_key(key_rust_version()) + (enc_opt_str(d.rust_version) + (
        seq![125u8]))));
        lemma_no_newline_concat(enc_u32(d.v), enc_next_key(key_features2()) + (
        enc_opt_features(d.features2) + (enc_next_key(key_rust_version()) + (enc_opt_str(
            d.rust_version) + (seq![125u8])))));
        lemma_no_newline_concat(enc_next_key(key_v()), enc_u32(d.v) + (enc_next_key(
            key_features2()) + (enc_opt_features(d.features2) + (enc_next_key(
            key_rust_version()) + (enc_opt_str(d.rust_version) + (seq![125u8]))))));
        lemma_no_newline_concat(enc_opt_str(d.links), enc_next_key(key_v()) + (enc_u32(d.v)
            + (enc_next_key(key_features2()) + (enc_opt_features(d.features2) + (
        enc_next_key(key_rust_version()) + (enc_opt_str(d.rust_version) + (
        seq![125u8])))))));
        lemma_no_newline_concat(enc_next_key(key_links()), enc_opt_str(d.links) + (
        enc_next_key(key_v()) + (enc_u32(d.v) + (enc_next_key(key_features2()) + (
        enc_opt_features(d.features2) + (enc_next_key(key_rust_version()) + (enc_opt_str(
            d.rust_version) + (seq![125u8]))))))));
        lemma_no_newline_concat(enc_bool(d.yanked), enc_next_key(key_links()) + (enc_opt_str(
            d.links) + (enc_next_key(key_v()) + (enc_u32(d.v) + (enc_next_key(
            key_features2()) + (enc_opt_features(d.features2) + (enc_next_key(
            key_rust_version()) + (enc_opt_str(d.rust_version) + (seq![125u8])))))))));
        lemma_no_newline_concat(enc_next_key(key_yanked()), enc_bool(d.yanked) + (
        enc_next_key(key_links()) + (enc_opt_str(d.links) + (enc_next_key(key_v()) + (
        enc_u32(d.v) + (enc_next_key(key_features2()) + (enc_opt_features(d.features2) + (
        enc_next_key(key_rust_version()) + (enc_opt_str(d.rust_version) + (
        seq![125u8]))))))))));
        lemma_no_newline_concat(enc_features(d.features), enc_next_key(key_yanked()) + (
        enc_bool(d.yanked) + (enc_next_key(key_links()) + (enc_opt_str(d.links) + (
        enc_next_key(key_v()) + (enc_u32(d.v) + (enc_next_key(key_features2()) + (
        enc_opt_features(d.features2) + (enc_next_key(key_rust_version()) + (enc_opt_str(
            d.rust_version) + (seq![125u8])))))))))));
        lemma_no_newline_concat(enc_next_key(key_features()), enc_features(d.features) + (
        enc_next_key(key_yanked()) + (enc_bool(d.yanked) + (enc_next_key(key_links()) + (
        enc_opt_str(d.links) + (enc_next_key(key_v()) + (enc_u32(d.v) + (enc_next_key(
            key_features2()) + (enc_opt_features(d.features2) + (enc_next_key(
            key_rust_version()) + (enc_opt_str(d.rust_version) + (seq![125u8]))))))))))));
    }
    lemma_no_newline_key(key_name(), true);
    lemma_no_newline_str(d.name);
    lemma_no_newline_key(key_vers(), false);
    lemma_no_newline_str(d.vers);
    lemma_no_newline_key(key_deps(), false);
    lemma_no_newline_deps(d.deps);
    lemma_no_newline_key(key_cksum(), false);
    lemma_no_newline_str(d.cksum);
    lemma_no_newline_concat(enc_str(d.cksum), enc_line_part2(d));
    lemma_no_newline_concat(enc_next_key(key_cksum()), enc_str(d.cksum) + (enc_line_part2(
        d)));
    lemma_no_newline_concat(enc_deps(d.deps), enc_next_key(key_cksum()) + (enc_str(d.cksum)
        + (enc_line_part2(d))));
    lemma_no_newline_concat(enc_next_key(key_deps()), enc_deps(d.deps) + (enc_next_key(
        key_cksum()) + (enc_str(d.cksum) + (enc_line_part2(d)))));
    lemma_no_newline_concat(enc_str(d.vers), enc_next_key(key_deps()) + (enc_deps(d.deps) + (
    enc_next_key(key_cksum()) + (enc_str(d.cksum) + (enc_line_part2(d))))));
    lemma_no_newline_concat(enc_next_key(key_vers()), enc_str(d.vers) + (enc_next_key(
        key_deps()) + (enc_deps(d.deps) + (enc_next_key(key_cksum()) + (enc_str(d.cksum) + (
    enc_line_part2(d)))))));
    lemma_no_newline_concat(enc_str(d.name), enc_next_key(key_vers()) + (enc_str(d.vers) + (
    enc_next_key(key_deps()) + (enc_deps(d.deps) + (enc_next_key(key_cksum()) + (enc_str(
        d.cksum) + (enc_line_part2(d))))))));
    lemma_no_newline_concat(enc_first_key(key_name()), enc_str(d.name) + (enc_next_key(
        key_vers()) + (enc_str(d.vers) + (enc_next_key(key_deps()) + (enc_deps(d.deps) + (
    enc_next_key(key_cksum()) + (enc_str(d.cksum) + (enc_line_part2(d)))))))));
}

/// The position of the first newline at or after `i`, or the length when
/// there is none.
pub open spec fn find_nl(s: Seq<u8>, i: int) -> int
    decreases s.len() - i,
{
    if i < 0 || i >= s.len() {
        s.len() as int
    } else if s[i] == 10 {
        i
    } else {
        find_nl(s, i + 1)
    }
}

/// A whole line, fully consumed.
#[verifier::opaque]
pub open spec fn p_line_full(line: Seq<u8>) -> Option<IndexDataView> {
    match p_line(line, 0) {
        Option::Some(t) => if t.1 == line.len() {
            Option::Some(t.0)
        } else {
            Option::None
        },
        Option::None => Option::None,
    }
}

proof fn lemma_find_nl_bounds(s: Seq<u8>, i: int)
    requires
        0 <= i <= s.len(),
    ensures
        i <= find_nl(s, i) <= s.len(),
    decreases s.len() - i,
{
    if i < s.len() && s[i] != 10 {
        lemma_find_nl_bounds(s, i + 1);
    }
}

#[via_fn]
proof fn p_lines_decreases(s: Seq<u8>)
{
    if s.len() > 0 {
        lemma_find_nl_bounds(s, 0);
    }
}

/// Parse a whole index file: newline-separated lines, each one entry; a
/// trailing newline (and an empty file) are accepted.
pub open spec fn p_lines(s: Seq<u8>) -> Option<Seq<IndexDataView>>
    decreases s.len(),
    via p_lines_decreases
{
    if s.len() == 0 {
        Option::Some(Seq::empty())
    } else {
        let k = find_nl(s, 0);
        let line = s.subrange(0, k);
        let tail_s = if k < s.len() {
            s.subrange(k + 1, s.len() as int)
        } else {
            Seq::<u8>::empty()
        };
        match p_line_full(line) {
            Option::None => Option::None,
            Option::Some(d) => match p_lines(tail_s) {
                Option::Some(es) => Option::Some(seq![d] + es),
                Option::None => Option::None,
            },
        }
    }
}

/// The canonical bytes of an index file holding the given entries, in order.
pub open spec fn enc_lines(es: Seq<IndexDataView>) -> Seq<u8>
    decreases es.len(),
{
    if es.len() == 0 {
        Seq::empty()
    } else {
        (enc_line(es[0]) + seq![10u8]) + enc_lines(es.skip(1))
    }
}

proof fn lemma_find_nl_at(s: Seq<u8>, i: int, j: int)
    requires
        0 <= i <= j <= s.len(),
        forall|k: int| i <= k < j ==> s[k] != 10,
        j == s.len() || s[j] == 10,
    ensures
        find_nl(s, i) == if j < s.len() {
            j
        } else {
            s.len() as int
        },
    decreases j - i,
{
    if i < j {
        lemma_find_nl_at(s, i + 1, j);
    }
}

/// Parsing the canonical bytes of an index file gives its entries back.
#[verifier::rlimit(100)]
#[verifier::spinoff_prover]
pub proof fn lemma_p_lines_round_trip(es: Seq<IndexDataView>)
    ensures
        p_lines(enc_lines(es)) == Option::Some(es),
    decreases es.len(),
{
    if es.len() == 0 {
        assert(es =~= Seq::<IndexDataView>::empty());
    } else {
        let d = es[0];
        let line = enc_line(d);
        let s = enc_lines(es);
        let rest = enc_lines(es.skip(1));
        assert(s == (line + seq![10u8]) + rest);
        lemma_concat_associative(line, seq![10u8], rest);
        lemma_enc_line_no_newline(d);
        assert(forall|k: int| 0 <= k < line.len() ==> s[k] == line[k] && s[k] != 10) by {
            assert forall|k: int| 0 <= k < line.len() implies s[k] == line[k] && s[k] != 10 by {
                assert(s[k] == ((line + seq![10u8]) + rest)[k]);
                assert((line + seq![10u8])[k] == line[k]);
            }
        }
        assert(s[line.len() as int] == 10) by {
            assert(((line + seq![10u8]) + rest)[line.len() as int] == (line
                + seq![10u8])[line.len() as int]);
        }
        lemma_find_nl_at(s, 0, line.len() as int);
        assert(s.len() == line.len() + 1 + rest.len());
        let k = find_nl(s, 0);
        assert(k == line.len());
        assert(s.subrange(0, k) =~= line);
        assert(s.subrange(k + 1, s.len() as int) =~= rest);
        lemma_index_line_round_trip(d);
        assert(p_line_full(line) == Option::Some(d)) by {
            reveal(p_line_full);
        }
        lemma_p_lines_round_trip(es.skip(1));
        assert(seq![d] + es.skip(1) =~= es);
    }
}

/// Render the canonical index file for a list of entries.
#[verifier::rlimit(100)]
pub fn render_index_file(entries: &Vec<IndexData>) -> (out: Vec<u8>)
    ensures
        out@ == enc_lines(crate::index::entries_view(entries@)),
{
    let mut out: Vec<u8> = Vec::new();
    let ghost ev = crate::index::entries_view(entries@);
    let mut i: usize = 0;
    proof {
        assert(ev.skip(0) =~= ev);
    }
    proof {
        assert(Seq::<u8>::empty() + enc_lines(ev) =~= enc_lines(ev));
    }
    while i < entries.len()
        invariant
            i <= entries@.len(),
            ev == crate::index::entries_view(entries@),
            ev.len() == entries@.len(),
            out@ + enc_lines(ev.skip(i as int)) == enc_lines(ev),
        decreases entries@.len() - i,
    {
        proof {
            assert(ev.skip(i as int)[0] == ev[i as int]);
            assert(ev.skip(i as int).skip(1) =~= ev.skip(i + 1));
        }
        let ghost pre = out@;
        let line = encode_index_line(&entries[i]);
        out.extend_from_slice(line.as_slice());
        proof {
            assert(out@ =~= pre + line@);
        }
        out.push(10);
        proof {
            assert(out@ =~= (pre + line@) + seq![10u8]);
            lemma_concat_associative(pre, enc_line(ev[i as int]), seq![10u8]);
            lemma_concat_associative(pre, enc_line(ev[i as int]) + seq![10u8],
                enc_lines(ev.skip(i + 1)));
        }
        i = i + 1;
    }
    proof {
        assert(enc_lines(ev.skip(ev.len() as int)) =~= Seq::<u8>::empty());
        assert(out@ + Seq::<u8>::empty() =~= out@);
    }
    out
}


/// Splitting one line off the front of a file.
proof fn lemma_p_lines_split(suf: Seq<u8>, j: int)
    requires
        0 < suf.len(),
        0 <= j <= suf.len(),
        forall|k: int| 0 <= k < j ==> suf[k] != 10,
        j == suf.len() || suf[j] == 10,
    ensures
        ({
            let line = suf.subrange(0, j);
            let tail_s = if j < suf.len() {
                suf.subrange(j + 1, suf.len() as int)
            } else {
                Seq::<u8>::empty()
            };
            p_lines(suf) == (match p_line_full(line) {
                Option::None => Option::<Seq<IndexDataView>>::None,
                Option::Some(d) => match p_lines(tail_s) {
                    Option::Some(es) => Option::Some(seq![d] + es),
                    Option::None => Option::<Seq<IndexDataView>>::None,
                },
            })
        }),
{
    lemma_find_nl_at(suf, 0, j);
}

/// Parse a whole index file into its entries; `Err` when some line is not a
/// well-formed entry.
#[verifier::rlimit(100)]
#[verifier::spinoff_prover]
pub fn parse_index_lines(bytes: &Vec<u8>) -> (r: Result<Vec<IndexData>, crate::RegistryError>)
    ensures
        r is Ok <==> p_lines(bytes@) is Some,
        r matches Result::Ok(v) ==> p_lines(bytes@) == Option::Some(
            crate::index::entries_view(v@),
        ),
        r is Err ==> r matches Result::Err(crate::RegistryError::MalformedData),
{
    let mut out: Vec<IndexData> = Vec::new();
    let mut pos: usize = 0;
    proof {
        assert(crate::index::entries_view(out@) =~= Seq::<IndexDataView>::empty());
        assert(bytes@.skip(0) =~= bytes@);
    }
    loop
        invariant
            pos <= bytes@.len(),
            (match p_lines(bytes@.skip(pos as int)) {
                Option::Some(t) => p_lines(bytes@) == Option::Some(
                    crate::index::entries_view(out@) + t,
                ),
                Option::None => p_lines(bytes@) is None,
            }),
        decreases bytes@.len() - pos,
    {
        if pos >= bytes.len() {
            proof {
                assert(bytes@.skip(pos as int) =~= Seq::<u8>::empty());
                assert(crate::index::entries_view(out@) + Seq::<IndexDataView>::empty()
                    =~= crate::index::entries_view(out@));
            }
            return Result::Ok(out);
        }
        // find the end of the current line
        let mut j: usize = pos;
        while j < bytes.len() && bytes[j] != 10
            invariant
                pos <= j <= bytes@.len(),
                forall|k: int| pos <= k < j ==> bytes@[k] != 10,
            decreases bytes@.len() - j,
        {
            j = j + 1;
        }
        proof {
            let suf = bytes@.skip(pos as int);
            assert forall|k: int| 0 <= k < j - pos implies suf[k] != 10 by {
                assert(suf[k] == bytes@[pos + k]);
            }
            if j < bytes@.len() {
                assert(suf[j - pos] == bytes@[j as int]);
            }
            lemma_p_lines_split(suf, j - pos);
        }
        let mut line: Vec<u8> = Vec::new();
        let mut k: usize = pos;
        while k < j
            invariant
                pos <= k <= j <= bytes@.len(),
                line@ =~= bytes@.subrange(pos as int, k as int),
            decreases j - k,
        {
            line.push(bytes[k]);
            proof {
                assert(line@ =~= bytes@.subrange(pos as int, k + 1));
            }
            k = k + 1;
        }
        proof {
            let suf = bytes@.skip(pos as int);
            assert(line@ =~= suf.subrange(0, j - pos));
        }
        proof {
            reveal(p_line_full);
        }
        match parse_index_line(&line) {
            Option::None => {
                return Result::Err(crate::RegistryError::MalformedData);
            },
            Option::Some(d) => {
                let ghost pre = out@;
                out.push(d);
                proof {
                    assert(crate::index::entries_view(out@) =~= crate::index::entries_view(
                        pre) + seq![d@]);
                    let suf = bytes@.skip(pos as int);
                    let newpos: int = if j < bytes@.len() {
                        j + 1
                    } else {
                        j as int
                    };
                    assert(bytes@.skip(newpos) =~= (if j - pos < suf.len() {
                        suf.subrange(j - pos + 1, suf.len() as int)
                    } else {
                        Seq::<u8>::empty()
                    }));
                    let ot = p_lines(bytes@.skip(newpos));
                    if ot is Some {
                        lemma_concat_associative(crate::index::entries_view(pre), seq![d@],
                            ot.unwrap());
                    }
                }
                if j < bytes.len() {
                    pos = j + 1;
                } else {
                    proof {
                        assert(bytes@.skip(j as int).len() == bytes@.len() - j);
                    }
                    pos = j;
                    proof {
                        assert(bytes@.skip(pos as int) =~= Seq::<u8>::empty());
                        assert(crate::index::entries_view(out@)
                            + Seq::<IndexDataView>::empty() =~= crate::index::entries_view(
                            out@));
                    }
                    return Result::Ok(out);
                }
            },
        }
    }
}


} // verus!
