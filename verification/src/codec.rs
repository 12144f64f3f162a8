//! The persisted index-line format: one JSON object per line, UTF-8,
//! append-only. This module defines the canonical encoding of an
//! [`IndexData`] as such a line, a parser for it, and the proof that parsing
//! an encoded line gives the original entry back.
//!
//! The encoding is canonical JSON with a fixed key order, `"` and `\` escaped
//! with a backslash and control bytes escaped as `\u00XX`; it therefore never
//! contains a raw newline, which is what makes the line-oriented index file
//! sound.

use vstd::prelude::*;
use vstd::seq_lib::lemma_concat_associative;

use crate::index::{bytes_seq_view, deps_view, features_view, Dependency, DependencyView,
    FeatureEntry, FeatureEntryView, IndexData, IndexDataView};

verus! {

// ---------------------------------------------------------------------------
// Spec-level encoding
// ---------------------------------------------------------------------------

/// The lowercase hex digit for a nibble.
pub open spec fn spec_hex_digit(n: u8) -> u8 {
    if n < 10 {
        (48 + n) as u8
    } else {
        (87 + n) as u8
    }
}

/// How one byte of a string is written inside a JSON string literal.
pub open spec fn esc_byte(b: u8) -> Seq<u8> {
    if b == 34 {
        seq![92u8, 34u8]
    } else if b == 92 {
        seq![92u8, 92u8]
    } else if b < 32 {
        seq![92u8, 117u8, 48u8, 48u8, spec_hex_digit(b / 16), spec_hex_digit(b % 16)]
    } else {
        seq![b]
    }
}

/// A whole byte string, escaped.
pub open spec fn spec_escape(s: Seq<u8>) -> Seq<u8>
    decreases s.len(),
{
    if s.len() == 0 {
        Seq::empty()
    } else {
        esc_byte(s[0]) + spec_escape(s.skip(1))
    }
}

/// A JSON string literal: `"` + escaped bytes + `"`.
pub open spec fn enc_str(s: Seq<u8>) -> Seq<u8> {
    seq![34u8] + spec_escape(s) + seq![34u8]
}

/// `true` or `false`.
pub open spec fn enc_bool(b: bool) -> Seq<u8> {
    if b {
        seq![116u8, 114u8, 117u8, 101u8]
    } else {
        seq![102u8, 97u8, 108u8, 115u8, 101u8]
    }
}

/// Decimal digits of a natural number, most significant first.
pub open spec fn spec_decimal(n: nat) -> Seq<u8>
    decreases n,
{
    if n < 10 {
        seq![(48 + n) as u8]
    } else {
        spec_decimal(n / 10).push((48 + n % 10) as u8)
    }
}

/// A JSON number holding a `u32`.
pub open spec fn enc_u32(n: u32) -> Seq<u8> {
    spec_decimal(n as nat)
}

/// `null`.
pub open spec fn enc_null() -> Seq<u8> {
    seq![110u8, 117u8, 108u8, 108u8]
}

/// An optional string: `null` when absent.
pub open spec fn enc_opt_str(o: Option<Seq<u8>>) -> Seq<u8> {
    match o {
        Option::None => enc_null(),
        Option::Some(s) => enc_str(s),
    }
}

/// The elements after the first of a string array, each preceded by a comma.
pub open spec fn enc_str_items_rest(vs: Seq<Seq<u8>>) -> Seq<u8>
    decreases vs.len(),
{
    if vs.len() == 0 {
        Seq::empty()
    } else {
        seq![44u8] + enc_str(vs[0]) + enc_str_items_rest(vs.skip(1))
    }
}

/// The comma-separated elements of a string array.
pub open spec fn enc_str_items(vs: Seq<Seq<u8>>) -> Seq<u8> {
    if vs.len() == 0 {
        Seq::empty()
    } else {
        enc_str(vs[0]) + enc_str_items_rest(vs.skip(1))
    }
}

/// A JSON array of strings.
pub open spec fn enc_str_arr(vs: Seq<Seq<u8>>) -> Seq<u8> {
    seq![91u8] + enc_str_items(vs) + seq![93u8]
}

/// The opening key of a JSON object: `{"key":`.
pub open spec fn enc_first_key(k: Seq<u8>) -> Seq<u8> {
    seq![123u8, 34u8] + k + seq![34u8, 58u8]
}

/// A subsequent key of a JSON object: `,"key":`.
pub open spec fn enc_next_key(k: Seq<u8>) -> Seq<u8> {
    seq![44u8, 34u8] + k + seq![34u8, 58u8]
}

/// One feature-table pair: `"name":[values]`.
pub open spec fn enc_feature(f: FeatureEntryView) -> Seq<u8> {
    enc_str(f.name) + seq![58u8] + enc_str_arr(f.values)
}

/// The pairs after the first of the feature table, each preceded by a comma.
pub open spec fn enc_feature_items_rest(fs: Seq<FeatureEntryView>) -> Seq<u8>
    decreases fs.len(),
{
    if fs.len() == 0 {
        Seq::empty()
    } else {
        seq![44u8] + enc_feature(fs[0]) + enc_feature_items_rest(fs.skip(1))
    }
}

/// The comma-separated pairs of the feature table.
pub open spec fn enc_feature_items(fs: Seq<FeatureEntryView>) -> Seq<u8> {
    if fs.len() == 0 {
        Seq::empty()
    } else {
        enc_feature(fs[0]) + enc_feature_items_rest(fs.skip(1))
    }
}

/// The feature table as a JSON object.
pub open spec fn enc_features(fs: Seq<FeatureEntryView>) -> Seq<u8> {
    seq![123u8] + enc_feature_items(fs) + seq![125u8]
}

/// An optional feature table: `null` when absent.
pub open spec fn enc_opt_features(o: Option<Seq<FeatureEntryView>>) -> Seq<u8> {
    match o {
        Option::None => enc_null(),
        Option::Some(fs) => enc_features(fs),
    }
}

/// The bytes of the object key `name`.
pub open spec fn key_name() -> Seq<u8> {
    seq![110u8, 97u8, 109u8, 101u8]
}

/// The bytes of the object key `req`.
pub open spec fn key_req() -> Seq<u8> {
    seq![114u8, 101u8, 113u8]
}

/// The bytes of the object key `features`.
pub open spec fn key_features() -> Seq<u8> {
    seq![102u8, 101u8, 97u8, 116u8, 117u8, 114u8, 101u8, 115u8]
}

/// The bytes of the object key `optional`.
pub open spec fn key_optional() -> Seq<u8> {
    seq![111u8, 112u8, 116u8, 105u8, 111u8, 110u8, 97u8, 108u8]
}

/// The bytes of the object key `default_features`.
pub open spec fn key_default_features() -> Seq<u8> {
    seq![100u8, 101u8, 102u8, 97u8, 117u8, 108u8, 116u8, 95u8, 102u8, 101u8, 97u8, 116u8, 117u8, 114u8, 101u8, 115u8]
}

/// The bytes of the object key `target`.
pub open spec fn key_target() -> Seq<u8> {
    seq![116u8, 97u8, 114u8, 103u8, 101u8, 116u8]
}

/// The bytes of the object key `kind`.
pub open spec fn key_kind() -> Seq<u8> {
    seq![107u8, 105u8, 110u8, 100u8]
}

/// The bytes of the object key `registry`.
pub open spec fn key_registry() -> Seq<u8> {
    seq![114u8, 101u8, 103u8, 105u8, 115u8, 116u8, 114u8, 121u8]
}

/// The bytes of the object key `package`.
pub open spec fn key_package() -> Seq<u8> {
    seq![112u8, 97u8, 99u8, 107u8, 97u8, 103u8, 101u8]
}

/// The bytes of the object key `vers`.
pub open spec fn key_vers() -> Seq<u8> {
    seq![118u8, 101u8, 114u8, 115u8]
}

/// The bytes of the object key `deps`.
pub open spec fn key_deps() -> Seq<u8> {
    seq![100u8, 101u8, 112u8, 115u8]
}

/// The bytes of the object key `cksum`.
pub open spec fn key_cksum() -> Seq<u8> {
    seq![99u8, 107u8, 115u8, 117u8, 109u8]
}

/// The bytes of the object key `yanked`.
pub open spec fn key_yanked() -> Seq<u8> {
    seq![121u8, 97u8, 110u8, 107u8, 101u8, 100u8]
}

/// The bytes of the object key `links`.
pub open spec fn key_links() -> Seq<u8> {
    seq![108u8, 105u8, 110u8, 107u8, 115u8]
}

/// The bytes of the object key `v`.
pub open spec fn key_v() -> Seq<u8> {
    seq![118u8]
}

/// The bytes of the object key `features2`.
pub open spec fn key_features2() -> Seq<u8> {
    seq![102u8, 101u8, 97u8, 116u8, 117u8, 114u8, 101u8, 115u8, 50u8]
}

/// The bytes of the object key `rust_version`.
pub open spec fn key_rust_version() -> Seq<u8> {
    seq![114u8, 117u8, 115u8, 116u8, 95u8, 118u8, 101u8, 114u8, 115u8, 105u8, 111u8, 110u8]
}

/// The later half of an encoded dependency record.
pub open spec fn enc_dep_part2(d: DependencyView) -> Seq<u8> {
    enc_next_key(key_target()) + (enc_opt_str(d.target) + (enc_next_key(key_kind()) + (enc_str(d.kind) + (enc_next_key(key_registry()) + (enc_opt_str(d.registry) + (enc_next_key(key_package()) + (enc_opt_str(d.package) + (seq![125u8]))))))))
}

/// One dependency record as a JSON object with fixed key order.
pub open spec fn enc_dep(d: DependencyView) -> Seq<u8> {
    enc_first_key(key_name()) + (enc_str(d.name) + (enc_next_key(key_req()) + (enc_str(d.req) + (enc_next_key(key_features()) + (enc_str_arr(d.features) + (enc_next_key(key_optional()) + (enc_bool(d.optional) + (enc_next_key(key_default_features()) + (enc_bool(d.default_features) + (enc_dep_part2(d)))))))))))
}


/// The records after the first of the dependency array.
pub open spec fn enc_dep_items_rest(ds: Seq<DependencyView>) -> Seq<u8>
    decreases ds.len(),
{
    if ds.len() == 0 {
        Seq::empty()
    } else {
        seq![44u8] + enc_dep(ds[0]) + enc_dep_items_rest(ds.skip(1))
    }
}

/// The comma-separated records of the dependency array.
pub open spec fn enc_dep_items(ds: Seq<DependencyView>) -> Seq<u8> {
    if ds.len() == 0 {
        Seq::empty()
    } else {
        enc_dep(ds[0]) + enc_dep_items_rest(ds.skip(1))
    }
}

/// The dependency array.
pub open spec fn enc_deps(ds: Seq<DependencyView>) -> Seq<u8> {
    seq![91u8] + enc_dep_items(ds) + seq![93u8]
}

/// The later half of an encoded index line.
pub open spec fn enc_line_part2(d: IndexDataView) -> Seq<u8> {
    enc_next_key(key_features()) + (enc_features(d.features) + (enc_next_key(key_yanked()) + (enc_bool(d.yanked) + (enc_next_key(key_links()) + (enc_opt_str(d.links) + (enc_next_key(key_v()) + (enc_u32(d.v) + (enc_next_key(key_features2()) + (enc_opt_features(d.features2) + (enc_next_key(key_rust_version()) + (enc_opt_str(d.rust_version) + (seq![125u8]))))))))))))
}

/// A whole index entry as one JSON line (without the trailing newline).
pub open spec fn enc_line(d: IndexDataView) -> Seq<u8> {
    enc_first_key(key_name()) + (enc_str(d.name) + (enc_next_key(key_vers()) + (enc_str(d.vers) + (enc_next_key(key_deps()) + (enc_deps(d.deps) + (enc_next_key(key_cksum()) + (enc_str(d.cksum) + (enc_line_part2(d)))))))))
}


// ---------------------------------------------------------------------------
// Executable encoding
// ---------------------------------------------------------------------------

/// The lowercase hex digit for a nibble.
pub fn hex_digit(n: u8) -> (r: u8)
    requires
        n < 16,
    ensures
        r == spec_hex_digit(n),
{
    if n < 10 {
        48 + n
    } else {
        87 + n
    }
}

pub(crate) fn push_byte(out: &mut Vec<u8>, b: u8)
    ensures
        final(out)@ == old(out)@ + seq![b],
{
    out.push(b);
    proof {
        assert(out@ =~= old(out)@ + seq![b]);
    }
}

fn push_escaped(out: &mut Vec<u8>, s: &Vec<u8>)
    ensures
        final(out)@ == old(out)@ + spec_escape(s@),
{
    let ghost start = out@;
    let mut i: usize = 0;
    proof {
        assert(s@.skip(0) =~= s@);
    }
    while i < s.len()
        invariant
            i <= s@.len(),
            out@ + spec_escape(s@.skip(i as int)) =~= start + spec_escape(s@),
        decreases s@.len() - i,
    {
        let b = s[i];
        proof {
            assert(s@.skip(i as int)[0] == b);
            assert(s@.skip(i as int).skip(1) =~= s@.skip(i + 1));
        }
        if b == 34 {
            out.push(92);
            out.push(34);
        } else if b == 92 {
            out.push(92);
            out.push(92);
        } else if b < 32 {
            out.push(92);
            out.push(117);
            out.push(48);
            out.push(48);
            out.push(hex_digit(b / 16));
            out.push(hex_digit(b % 16));
        } else {
            out.push(b);
        }
        i = i + 1;
    }
    proof {
        assert(s@.skip(s@.len() as int) =~= Seq::<u8>::empty());
        assert(out@ =~= start + spec_escape(s@));
    }
}

pub(crate) fn push_str(out: &mut Vec<u8>, s: &Vec<u8>)
    ensures
        final(out)@ == old(out)@ + enc_str(s@),
{
    let ghost start = out@;
    push_byte(out, 34);
    push_escaped(out, s);
    push_byte(out, 34);
    proof {
        lemma_concat_associative(start, seq![34u8], spec_escape(s@));
        lemma_concat_associative(start, seq![34u8] + spec_escape(s@), seq![34u8]);
        assert(out@ == start + enc_str(s@));
    }
}

fn push_bool(out: &mut Vec<u8>, b: bool)
    ensures
        final(out)@ == old(out)@ + enc_bool(b),
{
    if b {
        out.push(116);
        out.push(114);
        out.push(117);
        out.push(101);
    } else {
        out.push(102);
        out.push(97);
        out.push(108);
        out.push(115);
        out.push(101);
    }
    proof {
        assert(out@ =~= old(out)@ + enc_bool(b));
    }
}

fn push_null(out: &mut Vec<u8>)
    ensures
        final(out)@ == old(out)@ + enc_null(),
{
    out.push(110);
    out.push(117);
    out.push(108);
    out.push(108);
    proof {
        assert(out@ =~= old(out)@ + enc_null());
    }
}

fn push_decimal(out: &mut Vec<u8>, n: u32)
    ensures
        final(out)@ == old(out)@ + spec_decimal(n as nat),
    decreases n,
{
    if n < 10 {
        out.push(48 + n as u8);
        proof {
            assert(out@ =~= old(out)@ + spec_decimal(n as nat));
        }
    } else {
        push_decimal(out, n / 10);
        out.push(48 + (n % 10) as u8);
        proof {
            assert(out@ =~= old(out)@ + spec_decimal(n as nat));
        }
    }
}

fn push_opt_str(out: &mut Vec<u8>, o: &Option<Vec<u8>>)
    ensures
        final(out)@ == old(out)@ + enc_opt_str(crate::index::opt_bytes_view(*o)),
{
    match o {
        Option::None => push_null(out),
        Option::Some(s) => push_str(out, s),
    }
}

pub(crate) fn push_key(out: &mut Vec<u8>, first: bool, key: &Vec<u8>)
    ensures
        final(out)@ == old(out)@ + (if first {
            enc_first_key(key@)
        } else {
            enc_next_key(key@)
        }),
{
    if first {
        out.push(123);
    } else {
        out.push(44);
    }
    out.push(34);
    out.extend_from_slice(key.as_slice());
    out.push(34);
    out.push(58);
    proof {
        if first {
            assert(out@ =~= old(out)@ + enc_first_key(key@));
        } else {
            assert(out@ =~= old(out)@ + enc_next_key(key@));
        }
    }
}

fn push_str_arr(out: &mut Vec<u8>, vs: &Vec<Vec<u8>>)
    ensures
        final(out)@ == old(out)@ + enc_str_arr(bytes_seq_view(vs@)),
{
    let ghost start = out@;
    let ghost dv = bytes_seq_view(vs@);
    push_byte(out, 91);
    if vs.len() == 0 {
        push_byte(out, 93);
        proof {
            assert(out@ =~= start + enc_str_arr(dv));
        }
    } else {
        push_str(out, &vs[0]);
        proof {
            lemma_concat_associative(start + seq![91u8], enc_str(dv[0]),
                enc_str_items_rest(dv.skip(1)));
            assert(out@ + enc_str_items_rest(dv.skip(1)) == start + seq![91u8] + enc_str_items(
                dv,
            ));
        }
        let mut i: usize = 1;
        while i < vs.len()
            invariant
                1 <= i <= vs@.len(),
                dv == bytes_seq_view(vs@),
                out@ + enc_str_items_rest(dv.skip(i as int)) == start + seq![91u8]
                    + enc_str_items(dv),
            decreases vs@.len() - i,
        {
            let ghost prev = out@;
            push_byte(out, 44);
            push_str(out, &vs[i]);
            proof {
                assert(dv.skip(i as int).skip(1) =~= dv.skip(i + 1));
                lemma_concat_associative(prev, seq![44u8], enc_str(dv[i as int]));
                lemma_concat_associative(prev, seq![44u8] + enc_str(dv[i as int]),
                    enc_str_items_rest(dv.skip(i + 1)));
                assert(out@ + enc_str_items_rest(dv.skip(i + 1)) == start + seq![91u8]
                    + enc_str_items(dv));
            }
            i = i + 1;
        }
        proof {
            assert(enc_str_items_rest(dv.skip(vs@.len() as int)) =~= Seq::<u8>::empty());
            assert(out@ + Seq::<u8>::empty() =~= out@);
        }
        push_byte(out, 93);
        proof {
            lemma_concat_associative(start, seq![91u8], enc_str_items(dv));
            lemma_concat_associative(start, seq![91u8] + enc_str_items(dv), seq![93u8]);
            assert(out@ == start + enc_str_arr(dv));
        }
    }
}

fn push_feature(out: &mut Vec<u8>, f: &FeatureEntry)
    ensures
        final(out)@ == old(out)@ + enc_feature(f@),
{
    let ghost start = out@;
    push_str(out, &f.name);
    push_byte(out, 58);
    push_str_arr(out, &f.values);
    proof {
        lemma_concat_associative(start, enc_str(f@.name), seq![58u8]);
        lemma_concat_associative(start, enc_str(f@.name) + seq![58u8],
            enc_str_arr(f@.values));
        assert(out@ == start + enc_feature(f@));
    }
}

fn push_features(out: &mut Vec<u8>, fs: &Vec<FeatureEntry>)
    ensures
        final(out)@ == old(out)@ + enc_features(features_view(fs@)),
{
    let ghost start = out@;
    let ghost fv = features_view(fs@);
    push_byte(out, 123);
    if fs.len() == 0 {
        push_byte(out, 125);
        proof {
            assert(out@ =~= start + enc_features(fv));
        }
    } else {
        push_feature(out, &fs[0]);
        proof {
            lemma_concat_associative(start + seq![123u8], enc_feature(fv[0]),
                enc_feature_items_rest(fv.skip(1)));
            assert(out@ + enc_feature_items_rest(fv.skip(1)) == start + seq![123u8]
                + enc_feature_items(fv));
        }
        let mut i: usize = 1;
        while i < fs.len()
            invariant
                1 <= i <= fs@.len(),
                fv == features_view(fs@),
                out@ + enc_feature_items_rest(fv.skip(i as int)) == start + seq![123u8]
                    + enc_feature_items(fv),
            decreases fs@.len() - i,
        {
            let ghost prev = out@;
            push_byte(out, 44);
            push_feature(out, &fs[i]);
            proof {
                assert(fv.skip(i as int).skip(1) =~= fv.skip(i + 1));
                lemma_concat_associative(prev, seq![44u8], enc_feature(fv[i as int]));
                lemma_concat_associative(prev, seq![44u8] + enc_feature(fv[i as int]),
                    enc_feature_items_rest(fv.skip(i + 1)));
                assert(out@ + enc_feature_items_rest(fv.skip(i + 1)) == start + seq![123u8]
                    + enc_feature_items(fv));
            }
            i = i + 1;
        }
        proof {
            assert(enc_feature_items_rest(fv.skip(fs@.len() as int)) =~= Seq::<u8>::empty());
            assert(out@ + Seq::<u8>::empty() =~= out@);
        }
        push_byte(out, 125);
        proof {
            lemma_concat_associative(start, seq![123u8], enc_feature_items(fv));
            lemma_concat_associative(start, seq![123u8] + enc_feature_items(fv), seq![125u8]);
            assert(out@ == start + enc_features(fv));
        }
    }
}

fn push_opt_features(out: &mut Vec<u8>, o: &Option<Vec<FeatureEntry>>)
    ensures
        final(out)@ == old(out)@ + enc_opt_features(crate::index::opt_features_view(*o)),
{
    match o {
        Option::None => push_null(out),
        Option::Some(fs) => push_features(out, fs),
    }
}

fn push_dep(out: &mut Vec<u8>, d: &Dependency)
    ensures
        final(out)@ == old(out)@ + enc_dep(d@),
{
    let ghost start = out@;
    proof {
        assert(out@ + (enc_first_key(key_name()) + (enc_str(d@.name) + (enc_next_key(key_req()) + (enc_str(d@.req) + (enc_next_key(key_features()) + (enc_str_arr(d@.features) + (enc_next_key(key_optional()) + (enc_bool(d@.optional) + (enc_next_key(key_default_features()) + (enc_bool(d@.default_features) + (enc_dep_part2(d@)))))))))))) == start + enc_dep(d@));
    }
    let ghost prev0 = out@;
    let inner0: Vec<u8> = vec![110u8, 97u8, 109u8, 101u8];
    proof { assert(inner0@ =~= key_name()); }
    push_key(out, true, &inner0);
    proof {
        lemma_concat_associative(prev0, enc_first_key(key_name()), enc_str(d@.name) + (enc_next_key(key_req()) + (enc_str(d@.req) + (enc_next_key(key_features()) + (enc_str_arr(d@.features) + (enc_next_key(key_optional()) + (enc_bool(d@.optional) + (enc_next_key(key_default_features()) + (enc_bool(d@.default_features) + (enc_dep_part2(d@)))))))))));
        assert(out@ + (enc_str(d@.name) + (enc_next_key(key_req()) + (enc_str(d@.req) + (enc_next_key(key_features()) + (enc_str_arr(d@.features) + (enc_next_key(key_optional()) + (enc_bool(d@.optional) + (enc_next_key(key_default_features()) + (enc_bool(d@.default_features) + (enc_dep_part2(d@))))))))))) == start + enc_dep(d@));
    }
    let ghost prev1 = out@;
    push_str(out, &d.name);
    proof {
        lemma_concat_associative(prev1, enc_str(d@.name), enc_next_key(key_req()) + (enc_str(d@.req) + (enc_next_key(key_features()) + (enc_str_arr(d@.features) + (enc_next_key(key_optional()) + (enc_bool(d@.optional) + (enc_next_key(key_default_features()) + (enc_bool(d@.default_features) + (enc_dep_part2(d@))))))))));
        assert(out@ + (enc_next_key(key_req()) + (enc_str(d@.req) + (enc_next_key(key_features()) + (enc_str_arr(d@.features) + (enc_next_key(key_optional()) + (enc_bool(d@.optional) + (enc_next_key(key_default_features()) + (enc_bool(d@.default_features) + (enc_dep_part2(d@)))))))))) == start + enc_dep(d@));
    }
    let ghost prev2 = out@;
    let inner2: Vec<u8> = vec![114u8, 101u8, 113u8];
    proof { assert(inner2@ =~= key_req()); }
    push_key(out, false, &inner2);
    proof {
        lemma_concat_associative(prev2, enc_next_key(key_req()), enc_str(d@.req) + (enc_next_key(key_features()) + (enc_str_arr(d@.features) + (enc_next_key(key_optional()) + (enc_bool(d@.optional) + (enc_next_key(key_default_features()) + (enc_bool(d@.default_features) + (enc_dep_part2(d@)))))))));
        assert(out@ + (enc_str(d@.req) + (enc_next_key(key_features()) + (enc_str_arr(d@.features) + (enc_next_key(key_optional()) + (enc_bool(d@.optional) + (enc_next_key(key_default_features()) + (enc_bool(d@.default_features) + (enc_dep_part2(d@))))))))) == start + enc_dep(d@));
    }
    let ghost prev3 = out@;
    push_str(out, &d.req);
    proof {
        lemma_concat_associative(prev3, enc_str(d@.req), enc_next_key(key_features()) + (enc_str_arr(d@.features) + (enc_next_key(key_optional()) + (enc_bool(d@.optional) + (enc_next_key(key_default_features()) + (enc_bool(d@.default_features) + (enc_dep_part2(d@))))))));
        assert(out@ + (enc_next_key(key_features()) + (enc_str_arr(d@.features) + (enc_next_key(key_optional()) + (enc_bool(d@.optional) + (enc_next_key(key_default_features()) + (enc_bool(d@.default_features) + (enc_dep_part2(d@)))))))) == start + enc_dep(d@));
    }
    let ghost prev4 = out@;
    let inner4: Vec<u8> = vec![102u8, 101u8, 97u8, 116u8, 117u8, 114u8, 101u8, 115u8];
    proof { assert(inner4@ =~= key_features()); }
    push_key(out, false, &inner4);
    proof {
        lemma_concat_associative(prev4, enc_next_key(key_features()), enc_str_arr(d@.features) + (enc_next_key(key_optional()) + (enc_bool(d@.optional) + (enc_next_key(key_default_features()) + (enc_bool(d@.default_features) + (enc_dep_part2(d@)))))));
        assert(out@ + (enc_str_arr(d@.features) + (enc_next_key(key_optional()) + (enc_bool(d@.optional) + (enc_next_key(key_default_features()) + (enc_bool(d@.default_features) + (enc_dep_part2(d@))))))) == start + enc_dep(d@));
    }
    let ghost prev5 = out@;
    push_str_arr(out, &d.features);
    proof {
        lemma_concat_associative(prev5, enc_str_arr(d@.features), enc_next_key(key_optional()) + (enc_bool(d@.optional) + (enc_next_key(key_default_features()) + (enc_bool(d@.default_features) + (enc_dep_part2(d@))))));
        assert(out@ + (enc_next_key(key_optional()) + (enc_bool(d@.optional) + (enc_next_key(key_default_features()) + (enc_bool(d@.default_features) + (enc_dep_part2(d@)))))) == start + enc_dep(d@));
    }
    let ghost prev6 = out@;
    let inner6: Vec<u8> = vec![111u8, 112u8, 116u8, 105u8, 111u8, 110u8, 97u8, 108u8];
    proof { assert(inner6@ =~= key_optional()); }
    push_key(out, false, &inner6);
    proof {
        lemma_concat_associative(prev6, enc_next_key(key_optional()), enc_bool(d@.optional) + (enc_next_key(key_default_features()) + (enc_bool(d@.default_features) + (enc_dep_part2(d@)))));
        assert(out@ + (enc_bool(d@.optional) + (enc_next_key(key_default_features()) + (enc_bool(d@.default_features) + (enc_dep_part2(d@))))) == start + enc_dep(d@));
    }
    let ghost prev7 = out@;
    push_bool(out, d.optional);
    proof {
        lemma_concat_associative(prev7, enc_bool(d@.optional), enc_next_key(key_default_features()) + (enc_bool(d@.default_features) + (enc_dep_part2(d@))));
        assert(out@ + (enc_next_key(key_default_features()) + (enc_bool(d@.default_features) + (enc_dep_part2(d@)))) == start + enc_dep(d@));
    }
    let ghost prev8 = out@;
    let inner8: Vec<u8> = vec![100u8, 101u8, 102u8, 97u8, 117u8, 108u8, 116u8, 95u8, 102u8, 101u8, 97u8, 116u8, 117u8, 114u8, 101u8, 115u8];
    proof { assert(inner8@ =~= key_default_features()); }
    push_key(out, false, &inner8);
    proof {
        lemma_concat_associative(prev8, enc_next_key(key_default_features()), enc_bool(d@.default_features) + (enc_dep_part2(d@)));
        assert(out@ + (enc_bool(d@.default_features) + (enc_dep_part2(d@))) == start + enc_dep(d@));
    }
    let ghost prev9 = out@;
    push_bool(out, d.default_features);
    proof {
        lemma_concat_associative(prev9, enc_bool(d@.default_features), enc_next_key(key_target()) + (enc_opt_str(d@.target) + (enc_next_key(key_kind()) + (enc_str(d@.kind) + (enc_next_key(key_registry()) + (enc_opt_str(d@.registry) + (enc_next_key(key_package()) + (enc_opt_str(d@.package) + (seq![125u8])))))))));
        assert(out@ + (enc_next_key(key_target()) + (enc_opt_str(d@.target) + (enc_next_key(key_kind()) + (enc_str(d@.kind) + (enc_next_key(key_registry()) + (enc_opt_str(d@.registry) + (enc_next_key(key_package()) + (enc_opt_str(d@.package) + (seq![125u8]))))))))) == start + enc_dep(d@));
    }
    let ghost prev10 = out@;
    let inner10: Vec<u8> = vec![116u8, 97u8, 114u8, 103u8, 101u8, 116u8];
    proof { assert(inner10@ =~= key_target()); }
    push_key(out, false, &inner10);
    proof {
        lemma_concat_associative(prev10, enc_next_key(key_target()), enc_opt_str(d@.target) + (enc_next_key(key_kind()) + (enc_str(d@.kind) + (enc_next_key(key_registry()) + (enc_opt_str(d@.registry) + (enc_next_key(key_package()) + (enc_opt_str(d@.package) + (seq![125u8]))))))));
        assert(out@ + (enc_opt_str(d@.target) + (enc_next_key(key_kind()) + (enc_str(d@.kind) + (enc_next_key(key_registry()) + (enc_opt_str(d@.registry) + (enc_next_key(key_package()) + (enc_opt_str(d@.package) + (seq![125u8])))))))) == start + enc_dep(d@));
    }
    let ghost prev11 = out@;
    push_opt_str(out, &d.target);
    proof {
        lemma_concat_associative(prev11, enc_opt_str(d@.target), enc_next_key(key_kind()) + (enc_str(d@.kind) + (enc_next_key(key_registry()) + (enc_opt_str(d@.registry) + (enc_next_key(key_package()) + (enc_opt_str(d@.package) + (seq![125u8])))))));
        assert(out@ + (enc_next_key(key_kind()) + (enc_str(d@.kind) + (enc_next_key(key_registry()) + (enc_opt_str(d@.registry) + (enc_next_key(key_package()) + (enc_opt_str(d@.package) + (seq![125u8]))))))) == start + enc_dep(d@));
    }
    let ghost prev12 = out@;
    let inner12: Vec<u8> = vec![107u8, 105u8, 110u8, 100u8];
    proof { assert(inner12@ =~= key_kind()); }
    push_key(out, false, &inner12);
    proof {
        lemma_concat_associative(prev12, enc_next_key(key_kind()), enc_str(d@.kind) + (enc_next_key(key_registry()) + (enc_opt_str(d@.registry) + (enc_next_key(key_package()) + (enc_opt_str(d@.package) + (seq![125u8]))))));
        assert(out@ + (enc_str(d@.kind) + (enc_next_key(key_registry()) + (enc_opt_str(d@.registry) + (enc_next_key(key_package()) + (enc_opt_str(d@.package) + (seq![125u8])))))) == start + enc_dep(d@));
    }
    let ghost prev13 = out@;
    push_str(out, &d.kind);
    proof {
        lemma_concat_associative(prev13, enc_str(d@.kind), enc_next_key(key_registry()) + (enc_opt_str(d@.registry) + (enc_next_key(key_package()) + (enc_opt_str(d@.package) + (seq![125u8])))));
        assert(out@ + (enc_next_key(key_registry()) + (enc_opt_str(d@.registry) + (enc_next_key(key_package()) + (enc_opt_str(d@.package) + (seq![125u8]))))) == start + enc_dep(d@));
    }
    let ghost prev14 = out@;
    let inner14: Vec<u8> = vec![114u8, 101u8, 103u8, 105u8, 115u8, 116u8, 114u8, 121u8];
    proof { assert(inner14@ =~= key_registry()); }
    push_key(out, false, &inner14);
    proof {
        lemma_concat_associative(prev14, enc_next_key(key_registry()), enc_opt_str(d@.registry) + (enc_next_key(key_package()) + (enc_opt_str(d@.package) + (seq![125u8]))));
        assert(out@ + (enc_opt_str(d@.registry) + (enc_next_key(key_package()) + (enc_opt_str(d@.package) + (seq![125u8])))) == start + enc_dep(d@));
    }
    let ghost prev15 = out@;
    push_opt_str(out, &d.registry);
    proof {
        lemma_concat_associative(prev15, enc_opt_str(d@.registry), enc_next_key(key_package()) + (enc_opt_str(d@.package) + (seq![125u8])));
        assert(out@ + (enc_next_key(key_package()) + (enc_opt_str(d@.package) + (seq![125u8]))) == start + enc_dep(d@));
    }
    let ghost prev16 = out@;
    let inner16: Vec<u8> = vec![112u8, 97u8, 99u8, 107u8, 97u8, 103u8, 101u8];
    proof { assert(inner16@ =~= key_package()); }
    push_key(out, false, &inner16);
    proof {
        lemma_concat_associative(prev16, enc_next_key(key_package()), enc_opt_str(d@.package) + (seq![125u8]));
        assert(out@ + (enc_opt_str(d@.package) + (seq![125u8])) == start + enc_dep(d@));
    }
    let ghost prev17 = out@;
    push_opt_str(out, &d.package);
    proof {
        lemma_concat_associative(prev17, enc_opt_str(d@.package), seq![125u8]);
        assert(out@ + (seq![125u8]) == start + enc_dep(d@));
    }
    let ghost prev18 = out@;
    push_byte(out, 125);
    proof {
        assert(out@ == start + enc_dep(d@));
    }
}

#[verifier::rlimit(60)]
fn push_deps(out: &mut Vec<u8>, ds: &Vec<Dependency>)
    ensures
        final(out)@ == old(out)@ + enc_deps(deps_view(ds@)),
{
    let ghost start = out@;
    let ghost dv = deps_view(ds@);
    push_byte(out, 91);
    if ds.len() == 0 {
        push_byte(out, 93);
        proof {
            assert(out@ =~= start + enc_deps(dv));
        }
    } else {
        push_dep(out, &ds[0]);
        proof {
            lemma_concat_associative(start + seq![91u8], enc_dep(dv[0]),
                enc_dep_items_rest(dv.skip(1)));
            assert(out@ + enc_dep_items_rest(dv.skip(1)) == start + seq![91u8] + enc_dep_items(
                dv,
            ));
        }
        let mut i: usize = 1;
        while i < ds.len()
            invariant
                1 <= i <= ds@.len(),
                dv == deps_view(ds@),
                out@ + enc_dep_items_rest(dv.skip(i as int)) == start + seq![91u8]
                    + enc_dep_items(dv),
            decreases ds@.len() - i,
        {
            let ghost prev = out@;
            push_byte(out, 44);
            push_dep(out, &ds[i]);
            proof {
                assert(dv.skip(i as int).skip(1) =~= dv.skip(i + 1));
                lemma_concat_associative(prev, seq![44u8], enc_dep(dv[i as int]));
                lemma_concat_associative(prev, seq![44u8] + enc_dep(dv[i as int]),
                    enc_dep_items_rest(dv.skip(i + 1)));
                assert(out@ + enc_dep_items_rest(dv.skip(i + 1)) == start + seq![91u8]
                    + enc_dep_items(dv));
            }
            i = i + 1;
        }
        proof {
            assert(enc_dep_items_rest(dv.skip(ds@.len() as int)) =~= Seq::<u8>::empty());
            assert(out@ + Seq::<u8>::empty() =~= out@);
        }
        push_byte(out, 93);
        proof {
            lemma_concat_associative(start, seq![91u8], enc_dep_items(dv));
            lemma_concat_associative(start, seq![91u8] + enc_dep_items(dv), seq![93u8]);
            assert(out@ == start + enc_deps(dv));
        }
    }
}

/// Encode one index entry as its canonical JSON line (without the trailing
/// newline).
pub fn encode_index_line(d: &IndexData) -> (out: Vec<u8>)
    ensures
        out@ == enc_line(d@),
{
    let mut out: Vec<u8> = Vec::new();
    let ghost start = out@;
    proof {
        assert(out@ + (enc_first_key(key_name()) + (enc_str(d@.name) + (enc_next_key(key_vers()) + (enc_str(d@.vers) + (enc_next_key(key_deps()) + (enc_deps(d@.deps) + (enc_next_key(key_cksum()) + (enc_str(d@.cksum) + (enc_line_part2(d@)))))))))) == start + enc_line(d@));
    }
    let ghost prev0 = out@;
    let inner0: Vec<u8> = vec![110u8, 97u8, 109u8, 101u8];
    proof { assert(inner0@ =~= key_name()); }
    push_key(&mut out, true, &inner0);
    proof {
        lemma_concat_associative(prev0, enc_first_key(key_name()), enc_str(d@.name) + (enc_next_key(key_vers()) + (enc_str(d@.vers) + (enc_next_key(key_deps()) + (enc_deps(d@.deps) + (enc_next_key(key_cksum()) + (enc_str(d@.cksum) + (enc_line_part2(d@)))))))));
        assert(out@ + (enc_str(d@.name) + (enc_next_key(key_vers()) + (enc_str(d@.vers) + (enc_next_key(key_deps()) + (enc_deps(d@.deps) + (enc_next_key(key_cksum()) + (enc_str(d@.cksum) + (enc_line_part2(d@))))))))) == start + enc_line(d@));
    }
    let ghost prev1 = out@;
    push_str(&mut out, &d.name);
    proof {
        lemma_concat_associative(prev1, enc_str(d@.name), enc_next_key(key_vers()) + (enc_str(d@.vers) + (enc_next_key(key_deps()) + (enc_deps(d@.deps) + (enc_next_key(key_cksum()) + (enc_str(d@.cksum) + (enc_line_part2(d@))))))));
        assert(out@ + (enc_next_key(key_vers()) + (enc_str(d@.vers) + (enc_next_key(key_deps()) + (enc_deps(d@.deps) + (enc_next_key(key_cksum()) + (enc_str(d@.cksum) + (enc_line_part2(d@)))))))) == start + enc_line(d@));
    }
    let ghost prev2 = out@;
    let inner2: Vec<u8> = vec![118u8, 101u8, 114u8, 115u8];
    proof { assert(inner2@ =~= key_vers()); }
    push_key(&mut out, false, &inner2);
    proof {
        lemma_concat_associative(prev2, enc_next_key(key_vers()), enc_str(d@.vers) + (enc_next_key(key_deps()) + (enc_deps(d@.deps) + (enc_next_key(key_cksum()) + (enc_str(d@.cksum) + (enc_line_part2(d@)))))));
        assert(out@ + (enc_str(d@.vers) + (enc_next_key(key_deps()) + (enc_deps(d@.deps) + (enc_next_key(key_cksum()) + (enc_str(d@.cksum) + (enc_line_part2(d@))))))) == start + enc_line(d@));
    }
    let ghost prev3 = out@;
    push_str(&mut out, &d.vers);
    proof {
        lemma_concat_associative(prev3, enc_str(d@.vers), enc_next_key(key_deps()) + (enc_deps(d@.deps) + (enc_next_key(key_cksum()) + (enc_str(d@.cksum) + (enc_line_part2(d@))))));
        assert(out@ + (enc_next_key(key_deps()) + (enc_deps(d@.deps) + (enc_next_key(key_cksum()) + (enc_str(d@.cksum) + (enc_line_part2(d@)))))) == start + enc_line(d@));
    }
    let ghost prev4 = out@;
    let inner4: Vec<u8> = vec![100u8, 101u8, 112u8, 115u8];
    proof { assert(inner4@ =~= key_deps()); }
    push_key(&mut out, false, &inner4);
    proof {
        lemma_concat_associative(prev4, enc_next_key(key_deps()), enc_deps(d@.deps) + (enc_next_key(key_cksum()) + (enc_str(d@.cksum) + (enc_line_part2(d@)))));
        assert(out@ + (enc_deps(d@.deps) + (enc_next_key(key_cksum()) + (enc_str(d@.cksum) + (enc_line_part2(d@))))) == start + enc_line(d@));
    }
    let ghost prev5 = out@;
    push_deps(&mut out, &d.deps);
    proof {
        lemma_concat_associative(prev5, enc_deps(d@.deps), enc_next_key(key_cksum()) + (enc_str(d@.cksum) + (enc_line_part2(d@))));
        assert(out@ + (enc_next_key(key_cksum()) + (enc_str(d@.cksum) + (enc_line_part2(d@)))) == start + enc_line(d@));
    }
    let ghost prev6 = out@;
    let inner6: Vec<u8> = vec![99u8, 107u8, 115u8, 117u8, 109u8];
    proof { assert(inner6@ =~= key_cksum()); }
    push_key(&mut out, false, &inner6);
    proof {
        lemma_concat_associative(prev6, enc_next_key(key_cksum()), enc_str(d@.cksum) + (enc_line_part2(d@)));
        assert(out@ + (enc_str(d@.cksum) + (enc_line_part2(d@))) == start + enc_line(d@));
    }
    let ghost prev7 = out@;
    push_str(&mut out, &d.cksum);
    proof {
        lemma_concat_associative(prev7, enc_str(d@.cksum), enc_next_key(key_features()) + (enc_features(d@.features) + (enc_next_key(key_yanked()) + (enc_bool(d@.yanked) + (enc_next_key(key_links()) + (enc_opt_str(d@.links) + (enc_next_key(key_v()) + (enc_u32(d@.v) + (enc_next_key(key_features2()) + (enc_opt_features(d@.features2) + (enc_next_key(key_rust_version()) + (enc_opt_str(d@.rust_version) + (seq![125u8])))))))))))));
        assert(out@ + (enc_next_key(key_features()) + (enc_features(d@.features) + (enc_next_key(key_yanked()) + (enc_bool(d@.yanked) + (enc_next_key(key_links()) + (enc_opt_str(d@.links) + (enc_next_key(key_v()) + (enc_u32(d@.v) + (enc_next_key(key_features2()) + (enc_opt_features(d@.features2) + (enc_next_key(key_rust_version()) + (enc_opt_str(d@.rust_version) + (seq![125u8]))))))))))))) == start + enc_line(d@));
    }
    let ghost prev8 = out@;
    let inner8: Vec<u8> = vec![102u8, 101u8, 97u8, 116u8, 117u8, 114u8, 101u8, 115u8];
    proof { assert(inner8@ =~= key_features()); }
    push_key(&mut out, false, &inner8);
    proof {
        lemma_concat_associative(prev8, enc_next_key(key_features()), enc_features(d@.features) + (enc_next_key(key_yanked()) + (enc_bool(d@.yanked) + (enc_next_key(key_links()) + (enc_opt_str(d@.links) + (enc_next_key(key_v()) + (enc_u32(d@.v) + (enc_next_key(key_features2()) + (enc_opt_features(d@.features2) + (enc_next_key(key_rust_version()) + (enc_opt_str(d@.rust_version) + (seq![125u8]))))))))))));
        assert(out@ + (enc_features(d@.features) + (enc_next_key(key_yanked()) + (enc_bool(d@.yanked) + (enc_next_key(key_links()) + (enc_opt_str(d@.links) + (enc_next_key(key_v()) + (enc_u32(d@.v) + (enc_next_key(key_features2()) + (enc_opt_features(d@.features2) + (enc_next_key(key_rust_version()) + (enc_opt_str(d@.rust_version) + (seq![125u8])))))))))))) == start + enc_line(d@));
    }
    let ghost prev9 = out@;
    push_features(&mut out, &d.features);
    proof {
        lemma_concat_associative(prev9, enc_features(d@.features), enc_next_key(key_yanked()) + (enc_bool(d@.yanked) + (enc_next_key(key_links()) + (enc_opt_str(d@.links) + (enc_next_key(key_v()) + (enc_u32(d@.v) + (enc_next_key(key_features2()) + (enc_opt_features(d@.features2) + (enc_next_key(key_rust_version()) + (enc_opt_str(d@.rust_version) + (seq![125u8])))))))))));
        assert(out@ + (enc_next_key(key_yanked()) + (enc_bool(d@.yanked) + (enc_next_key(key_links()) + (enc_opt_str(d@.links) + (enc_next_key(key_v()) + (enc_u32(d@.v) + (enc_next_key(key_features2()) + (enc_opt_features(d@.features2) + (enc_next_key(key_rust_version()) + (enc_opt_str(d@.rust_version) + (seq![125u8]))))))))))) == start + enc_line(d@));
    }
    let ghost prev10 = out@;
    let inner10: Vec<u8> = vec![121u8, 97u8, 110u8, 107u8, 101u8, 100u8];
    proof { assert(inner10@ =~= key_yanked()); }
    push_key(&mut out, false, &inner10);
    proof {
        lemma_concat_associative(prev10, enc_next_key(key_yanked()), enc_bool(d@.yanked) + (enc_next_key(key_links()) + (enc_opt_str(d@.links) + (enc_next_key(key_v()) + (enc_u32(d@.v) + (enc_next_key(key_features2()) + (enc_opt_features(d@.features2) + (enc_next_key(key_rust_version()) + (enc_opt_str(d@.rust_version) + (seq![125u8]))))))))));
        assert(out@ + (enc_bool(d@.yanked) + (enc_next_key(key_links()) + (enc_opt_str(d@.links) + (enc_next_key(key_v()) + (enc_u32(d@.v) + (enc_next_key(key_features2()) + (enc_opt_features(d@.features2) + (enc_next_key(key_rust_version()) + (enc_opt_str(d@.rust_version) + (seq![125u8])))))))))) == start + enc_line(d@));
    }
    let ghost prev11 = out@;
    push_bool(&mut out, d.yanked);
    proof {
        lemma_concat_associative(prev11, enc_bool(d@.yanked), enc_next_key(key_links()) + (enc_opt_str(d@.links) + (enc_next_key(key_v()) + (enc_u32(d@.v) + (enc_next_key(key_features2()) + (enc_opt_features(d@.features2) + (enc_next_key(key_rust_version()) + (enc_opt_str(d@.rust_version) + (seq![125u8])))))))));
        assert(out@ + (enc_next_key(key_links()) + (enc_opt_str(d@.links) + (enc_next_key(key_v()) + (enc_u32(d@.v) + (enc_next_key(key_features2()) + (enc_opt_features(d@.features2) + (enc_next_key(key_rust_version()) + (enc_opt_str(d@.rust_version) + (seq![125u8]))))))))) == start + enc_line(d@));
    }
    let ghost prev12 = out@;
    let inner12: Vec<u8> = vec![108u8, 105u8, 110u8, 107u8, 115u8];
    proof { assert(inner12@ =~= key_links()); }
    push_key(&mut out, false, &inner12);
    proof {
        lemma_concat_associative(prev12, enc_next_key(key_links()), enc_opt_str(d@.links) + (enc_next_key(key_v()) + (enc_u32(d@.v) + (enc_next_key(key_features2()) + (enc_opt_features(d@.features2) + (enc_next_key(key_rust_version()) + (enc_opt_str(d@.rust_version) + (seq![125u8]))))))));
        assert(out@ + (enc_opt_str(d@.links) + (enc_next_key(key_v()) + (enc_u32(d@.v) + (enc_next_key(key_features2()) + (enc_opt_features(d@.features2) + (enc_next_key(key_rust_version()) + (enc_opt_str(d@.rust_version) + (seq![125u8])))))))) == start + enc_line(d@));
    }
    let ghost prev13 = out@;
    push_opt_str(&mut out, &d.links);
    proof {
        lemma_concat_associative(prev13, enc_opt_str(d@.links), enc_next_key(key_v()) + (enc_u32(d@.v) + (enc_next_key(key_features2()) + (enc_opt_features(d@.features2) + (enc_next_key(key_rust_version()) + (enc_opt_str(d@.rust_version) + (seq![125u8])))))));
        assert(out@ + (enc_next_key(key_v()) + (enc_u32(d@.v) + (enc_next_key(key_features2()) + (enc_opt_features(d@.features2) + (enc_next_key(key_rust_version()) + (enc_opt_str(d@.rust_version) + (seq![125u8]))))))) == start + enc_line(d@));
    }
    let ghost prev14 = out@;
    let inner14: Vec<u8> = vec![118u8];
    proof { assert(inner14@ =~= key_v()); }
    push_key(&mut out, false, &inner14);
    proof {
        lemma_concat_associative(prev14, enc_next_key(key_v()), enc_u32(d@.v) + (enc_next_key(key_features2()) + (enc_opt_features(d@.features2) + (enc_next_key(key_rust_version()) + (enc_opt_str(d@.rust_version) + (seq![125u8]))))));
        assert(out@ + (enc_u32(d@.v) + (enc_next_key(key_features2()) + (enc_opt_features(d@.features2) + (enc_next_key(key_rust_version()) + (enc_opt_str(d@.rust_version) + (seq![125u8])))))) == start + enc_line(d@));
    }
    let ghost prev15 = out@;
    push_decimal(&mut out, d.v);
    proof {
        lemma_concat_associative(prev15, enc_u32(d@.v), enc_next_key(key_features2()) + (enc_opt_features(d@.features2) + (enc_next_key(key_rust_version()) + (enc_opt_str(d@.rust_version) + (seq![125u8])))));
        assert(out@ + (enc_next_key(key_features2()) + (enc_opt_features(d@.features2) + (enc_next_key(key_rust_version()) + (enc_opt_str(d@.rust_version) + (seq![125u8]))))) == start + enc_line(d@));
    }
    let ghost prev16 = out@;
    let inner16: Vec<u8> = vec![102u8, 101u8, 97u8, 116u8, 117u8, 114u8, 101u8, 115u8, 50u8];
    proof { assert(inner16@ =~= key_features2()); }
    push_key(&mut out, false, &inner16);
    proof {
        lemma_concat_associative(prev16, enc_next_key(key_features2()), enc_opt_features(d@.features2) + (enc_next_key(key_rust_version()) + (enc_opt_str(d@.rust_version) + (seq![125u8]))));
        assert(out@ + (enc_opt_features(d@.features2) + (enc_next_key(key_rust_version()) + (enc_opt_str(d@.rust_version) + (seq![125u8])))) == start + enc_line(d@));
    }
    let ghost prev17 = out@;
    push_opt_features(&mut out, &d.features2);
    proof {
        lemma_concat_associative(prev17, enc_opt_features(d@.features2), enc_next_key(key_rust_version()) + (enc_opt_str(d@.rust_version) + (seq![125u8])));
        assert(out@ + (enc_next_key(key_rust_version()) + (enc_opt_str(d@.rust_version) + (seq![125u8]))) == start + enc_line(d@));
    }
    let ghost prev18 = out@;
    let inner18: Vec<u8> = vec![114u8, 117u8, 115u8, 116u8, 95u8, 118u8, 101u8, 114u8, 115u8, 105u8, 111u8, 110u8];
    proof { assert(inner18@ =~= key_rust_version()); }
    push_key(&mut out, false, &inner18);
    proof {
        lemma_concat_associative(prev18, enc_next_key(key_rust_version()), enc_opt_str(d@.rust_version) + (seq![125u8]));
        assert(out@ + (enc_opt_str(d@.rust_version) + (seq![125u8])) == start + enc_line(d@));
    }
    let ghost prev19 = out@;
    push_opt_str(&mut out, &d.rust_version);
    proof {
        lemma_concat_associative(prev19, enc_opt_str(d@.rust_version), seq![125u8]);
        assert(out@ + (seq![125u8]) == start + enc_line(d@));
    }
    let ghost prev20 = out@;
    push_byte(&mut out, 125);
    proof {
        assert(out@ == start + enc_line(d@));
    }
    proof {
        assert(start =~= Seq::<u8>::empty());
        assert(out@ =~= enc_line(d@));
    }
    out
}


// ---------------------------------------------------------------------------
// Spec-level parsing
// ---------------------------------------------------------------------------

/// Whether a byte is an ASCII decimal digit.
pub open spec fn is_digit(b: u8) -> bool {
    48 <= b <= 57
}

/// Whether a byte is a lowercase hex digit.
pub open spec fn is_hex_lower(b: u8) -> bool {
    is_digit(b) || (97 <= b <= 102)
}

/// The value of a lowercase hex digit.
pub open spec fn hex_val(b: u8) -> u8 {
    if b < 97 {
        (b - 48) as u8
    } else {
        (b - 87) as u8
    }
}

/// Match an exact byte sequence at position `i`; the position after it.
pub open spec fn p_lit(s: Seq<u8>, i: int, lit: Seq<u8>) -> Option<int> {
    if 0 <= i && i + lit.len() <= s.len() && s.subrange(i, i + lit.len()) == lit {
        Option::Some(i + lit.len())
    } else {
        Option::None
    }
}

/// Parse the body of a JSON string (after the opening quote) up to and
/// including the closing quote; the unescaped bytes and the position after
/// the closing quote.
pub open spec fn p_strbody(s: Seq<u8>, i: int) -> Option<(Seq<u8>, int)>
    decreases s.len() - i,
{
    if i < 0 || i >= s.len() {
        Option::None
    } else if s[i] == 34 {
        Option::Some((Seq::empty(), i + 1))
    } else if s[i] == 92 {
        if i + 1 < s.len() && (s[i + 1] == 34 || s[i + 1] == 92) {
            match p_strbody(s, i + 2) {
                Option::Some(r) => Option::Some((seq![s[i + 1]] + r.0, r.1)),
                Option::None => Option::None,
            }
        } else if i + 5 < s.len() && s[i + 1] == 117 && s[i + 2] == 48 && s[i + 3] == 48
            && is_hex_lower(s[i + 4]) && is_hex_lower(s[i + 5]) {
            match p_strbody(s, i + 6) {
                Option::Some(r) => Option::Some(
                    (seq![(hex_val(s[i + 4]) * 16 + hex_val(s[i + 5])) as u8] + r.0, r.1),
                ),
                Option::None => Option::None,
            }
        } else {
            Option::None
        }
    } else {
        match p_strbody(s, i + 1) {
            Option::Some(r) => Option::Some((seq![s[i]] + r.0, r.1)),
            Option::None => Option::None,
        }
    }
}

/// Parse a JSON string literal.
pub open spec fn p_str(s: Seq<u8>, i: int) -> Option<(Seq<u8>, int)> {
    if 0 <= i && i < s.len() && s[i] == 34 {
        p_strbody(s, i + 1)
    } else {
        Option::None
    }
}

/// Parse `true` or `false`.
pub open spec fn p_bool(s: Seq<u8>, i: int) -> Option<(bool, int)> {
    match p_lit(s, i, enc_bool(true)) {
        Option::Some(j) => Option::Some((true, j)),
        Option::None => match p_lit(s, i, enc_bool(false)) {
            Option::Some(j) => Option::Some((false, j)),
            Option::None => Option::None,
        },
    }
}

/// Parse a run of decimal digits, folding them onto `acc`; the value and the
/// position of the first non-digit.
pub open spec fn p_digits(s: Seq<u8>, i: int, acc: nat) -> (nat, int)
    decreases s.len() - i,
{
    if 0 <= i && i < s.len() && is_digit(s[i]) {
        p_digits(s, i + 1, acc * 10 + (s[i] - 48) as nat)
    } else {
        (acc, i)
    }
}

/// Parse a JSON number as a `u32`.
pub open spec fn p_u32(s: Seq<u8>, i: int) -> Option<(u32, int)> {
    if 0 <= i && i < s.len() && is_digit(s[i]) {
        let r = p_digits(s, i, 0);
        if r.0 <= u32::MAX {
            Option::Some((r.0 as u32, r.1))
        } else {
            Option::None
        }
    } else {
        Option::None
    }
}

/// Parse `null` or a JSON string.
pub open spec fn p_opt_str(s: Seq<u8>, i: int) -> Option<(Option<Seq<u8>>, int)> {
    if 0 <= i && i < s.len() && s[i] == 110 {
        match p_lit(s, i, enc_null()) {
            Option::Some(j) => Option::Some((Option::None, j)),
            Option::None => Option::None,
        }
    } else {
        match p_str(s, i) {
            Option::Some(r) => Option::Some((Option::Some(r.0), r.1)),
            Option::None => Option::None,
        }
    }
}

/// Parse the elements of a non-empty string array, up to and including the
/// closing bracket.
pub open spec fn p_str_items(s: Seq<u8>, i: int) -> Option<(Seq<Seq<u8>>, int)>
    decreases s.len() - i,
{
    match p_str(s, i) {
        Option::None => Option::None,
        Option::Some(r) => {
            let j = r.1;
            if j < s.len() && s[j] == 44 {
                if i < j + 1 {
                    match p_str_items(s, j + 1) {
                        Option::Some(r2) => Option::Some((seq![r.0] + r2.0, r2.1)),
                        Option::None => Option::None,
                    }
                } else {
                    Option::None
                }
            } else if j < s.len() && s[j] == 93 {
                Option::Some((seq![r.0], j + 1))
            } else {
                Option::None
            }
        },
    }
}

/// Parse a JSON array of strings.
pub open spec fn p_str_arr(s: Seq<u8>, i: int) -> Option<(Seq<Seq<u8>>, int)> {
    if 0 <= i && i < s.len() && s[i] == 91 {
        if i + 1 < s.len() && s[i + 1] == 93 {
            Option::Some((Seq::empty(), i + 2))
        } else {
            p_str_items(s, i + 1)
        }
    } else {
        Option::None
    }
}

/// Parse one feature-table pair.
pub open spec fn p_feature(s: Seq<u8>, i: int) -> Option<(FeatureEntryView, int)> {
    match p_str(s, i) {
        Option::None => Option::None,
        Option::Some(rn) => {
            if rn.1 < s.len() && s[rn.1] == 58 {
                match p_str_arr(s, rn.1 + 1) {
                    Option::Some(rv) => Option::Some(
                        (FeatureEntryView { name: rn.0, values: rv.0 }, rv.1),
                    ),
                    Option::None => Option::None,
                }
            } else {
                Option::None
            }
        },
    }
}

/// Parse the pairs of a non-empty feature table, up to and including the
/// closing brace.
pub open spec fn p_feature_items(s: Seq<u8>, i: int) -> Option<(Seq<FeatureEntryView>, int)>
    decreases s.len() - i,
{
    match p_feature(s, i) {
        Option::None => Option::None,
        Option::Some(r) => {
            let j = r.1;
            if j < s.len() && s[j] == 44 {
                if i < j + 1 {
                    match p_feature_items(s, j + 1) {
                        Option::Some(r2) => Option::Some((seq![r.0] + r2.0, r2.1)),
                        Option::None => Option::None,
                    }
                } else {
                    Option::None
                }
            } else if j < s.len() && s[j] == 125 {
                Option::Some((seq![r.0], j + 1))
            } else {
                Option::None
            }
        },
    }
}

/// Parse a feature table.
pub open spec fn p_features(s: Seq<u8>, i: int) -> Option<(Seq<FeatureEntryView>, int)> {
    if 0 <= i && i < s.len() && s[i] == 123 {
        if i + 1 < s.len() && s[i + 1] == 125 {
            Option::Some((Seq::empty(), i + 2))
        } else {
            p_feature_items(s, i + 1)
        }
    } else {
        Option::None
    }
}

/// Parse `null` or a feature table.
pub open spec fn p_opt_features(s: Seq<u8>, i: int) -> Option<(Option<Seq<FeatureEntryView>>, int)> {
    if 0 <= i && i < s.len() && s[i] == 110 {
        match p_lit(s, i, enc_null()) {
            Option::Some(j) => Option::Some((Option::None, j)),
            Option::None => Option::None,
        }
    } else {
        match p_features(s, i) {
            Option::Some(r) => Option::Some((Option::Some(r.0), r.1)),
            Option::None => Option::None,
        }
    }
}

// ---------------------------------------------------------------------------
// Parsing inverts encoding
// ---------------------------------------------------------------------------

/// Splitting a known suffix `a + rest` of `s` at position `i` into its parts.
proof fn lemma_suffix_decompose(s: Seq<u8>, i: int, a: Seq<u8>, rest: Seq<u8>)
    requires
        0 <= i <= s.len(),
        s.subrange(i, s.len() as int) == a + rest,
    ensures
        i + a.len() + rest.len() == s.len(),
        s.subrange(i, i + a.len()) =~= a,
        s.subrange(i + a.len(), s.len() as int) =~= rest,
        forall|k: int| 0 <= k < a.len() ==> s[i + k] == a[k],
        a.len() > 0 ==> s[i] == a[0],
        rest.len() > 0 ==> s[i + a.len()] == rest[0],
{
    assert(s.subrange(i, s.len() as int).len() == s.len() - i);
    if a.len() > 0 {
        assert(s.subrange(i, s.len() as int)[0] == s[i]);
        assert((a + rest)[0] == a[0]);
    }
    if rest.len() > 0 {
        assert(s.subrange(i, s.len() as int)[a.len() as int] == s[i + a.len()]);
        assert((a + rest)[a.len() as int] == rest[0]);
    }
    assert forall|k: int| 0 <= k < a.len() implies s[i + k] == a[k] by {
        assert(s.subrange(i, s.len() as int)[k] == s[i + k]);
        assert((a + rest)[k] == a[k]);
    }
    assert forall|k: int| 0 <= k < rest.len() implies s[(i + a.len()) + k] == rest[k] by {
        assert(s.subrange(i, s.len() as int)[a.len() + k] == s[i + a.len() + k]);
        assert((a + rest)[a.len() + k] == rest[k]);
    }
}

/// A literal parses where its bytes stand.
proof fn lemma_p_lit_inv(s: Seq<u8>, i: int, lit: Seq<u8>, rest: Seq<u8>)
    requires
        0 <= i <= s.len(),
        s.subrange(i, s.len() as int) == lit + rest,
    ensures
        p_lit(s, i, lit) == Option::Some(i + lit.len()),
        i + lit.len() + rest.len() == s.len(),
        s.subrange(i + lit.len(), s.len() as int) == rest,
{
    lemma_suffix_decompose(s, i, lit, rest);
}

/// A string body (escaped bytes and the closing quote) parses back to the
/// bytes it encodes.
proof fn lemma_p_strbody_inv(s: Seq<u8>, i: int, v: Seq<u8>, rest: Seq<u8>)
    requires
        0 <= i <= s.len(),
        s.subrange(i, s.len() as int) == (spec_escape(v) + seq![34u8]) + rest,
    ensures
        p_strbody(s, i) == Option::Some((v, i + spec_escape(v).len() + 1)),
        i + spec_escape(v).len() + 1 + rest.len() == s.len(),
        s.subrange(i + spec_escape(v).len() + 1, s.len() as int) == rest,
    decreases v.len(),
{
    lemma_concat_associative(spec_escape(v), seq![34u8], rest);
    if v.len() == 0 {
        assert(spec_escape(v) =~= Seq::<u8>::empty());
        assert(Seq::<u8>::empty() + (seq![34u8] + rest) =~= seq![34u8] + rest);
        lemma_suffix_decompose(s, i, seq![34u8], rest);
        assert(s[i] == 34);
        assert(p_strbody(s, i) == Option::Some((Seq::<u8>::empty(), i + 1)));
        assert(v =~= Seq::<u8>::empty());
    } else {
        let b = v[0];
        let v1 = v.skip(1);
        assert(spec_escape(v) == esc_byte(b) + spec_escape(v1));
        lemma_concat_associative(esc_byte(b), spec_escape(v1), seq![34u8] + rest);
        lemma_suffix_decompose(s, i, esc_byte(b), spec_escape(v1) + (seq![34u8] + rest));
        lemma_concat_associative(spec_escape(v1), seq![34u8], rest);
        let j = i + esc_byte(b).len();
        lemma_p_strbody_inv(s, j, v1, rest);
        assert(v =~= seq![b] + v1);
        if b == 34 {
            assert(s[i] == 92);
            assert(s[i + 1] == 34);
            assert(p_strbody(s, i) == Option::Some((v, i + spec_escape(v).len() + 1)));
        } else if b == 92 {
            assert(s[i] == 92);
            assert(s[i + 1] == 92);
            assert(p_strbody(s, i) == Option::Some((v, i + spec_escape(v).len() + 1)));
        } else if b < 32 {
            assert(s[i] == 92);
            assert(s[i + 1] == 117);
            assert(s[i + 2] == 48);
            assert(s[i + 3] == 48);
            assert(s[i + 4] == spec_hex_digit(b / 16));
            assert(s[i + 5] == spec_hex_digit(b % 16));
            assert(b / 16 < 10 && is_hex_lower(spec_hex_digit(b / 16)));
            assert(is_hex_lower(spec_hex_digit(b % 16)));
            assert(hex_val(spec_hex_digit(b / 16)) == b / 16);
            assert(hex_val(spec_hex_digit(b % 16)) == b % 16);
            vstd::arithmetic::div_mod::lemma_fundamental_div_mod(b as int, 16);
            assert((hex_val(s[i + 4]) * 16 + hex_val(s[i + 5])) as u8 == b);
            assert(p_strbody(s, i) == Option::Some((v, i + spec_escape(v).len() + 1)));
        } else {
            assert(s[i] == b);
            assert(p_strbody(s, i) == Option::Some((v, i + spec_escape(v).len() + 1)));
        }
    }
}

/// A string literal parses back to the bytes it encodes.
proof fn lemma_p_str_inv(s: Seq<u8>, i: int, v: Seq<u8>, rest: Seq<u8>)
    requires
        0 <= i <= s.len(),
        s.subrange(i, s.len() as int) == enc_str(v) + rest,
    ensures
        p_str(s, i) == Option::Some((v, i + enc_str(v).len())),
        i + enc_str(v).len() + rest.len() == s.len(),
        s.subrange(i + enc_str(v).len(), s.len() as int) == rest,
        i < i + enc_str(v).len(),
{
    lemma_concat_associative(seq![34u8], spec_escape(v), seq![34u8]);
    lemma_concat_associative(seq![34u8], spec_escape(v) + seq![34u8], rest);
    lemma_suffix_decompose(s, i, seq![34u8], (spec_escape(v) + seq![34u8]) + rest);
    assert(s[i] == 34);
    lemma_p_strbody_inv(s, i + 1, v, rest);
}

/// `true` / `false` parse back to the boolean they encode.
proof fn lemma_p_bool_inv(s: Seq<u8>, i: int, b: bool, rest: Seq<u8>)
    requires
        0 <= i <= s.len(),
        s.subrange(i, s.len() as int) == enc_bool(b) + rest,
    ensures
        p_bool(s, i) == Option::Some((b, i + enc_bool(b).len())),
        i + enc_bool(b).len() + rest.len() == s.len(),
        s.subrange(i + enc_bool(b).len(), s.len() as int) == rest,
{
    lemma_p_lit_inv(s, i, enc_bool(b), rest);
    if !b {
        lemma_suffix_decompose(s, i, enc_bool(b), rest);
        assert(s[i] == 102);
        assert(p_lit(s, i, enc_bool(true)) is None) by {
            if 0 <= i && i + enc_bool(true).len() <= s.len() && s.subrange(
                i,
                i + enc_bool(true).len(),
            ) == enc_bool(true) {
                assert(s.subrange(i, i + enc_bool(true).len())[0] == s[i]);
                assert(false);
            }
        }
    }
}

/// `null` or a string literal parses back to the option it encodes.
proof fn lemma_p_opt_str_inv(s: Seq<u8>, i: int, o: Option<Seq<u8>>, rest: Seq<u8>)
    requires
        0 <= i <= s.len(),
        s.subrange(i, s.len() as int) == enc_opt_str(o) + rest,
    ensures
        p_opt_str(s, i) == Option::Some((o, i + enc_opt_str(o).len())),
        i + enc_opt_str(o).len() + rest.len() == s.len(),
        s.subrange(i + enc_opt_str(o).len(), s.len() as int) == rest,
{
    match o {
        Option::None => {
            lemma_p_lit_inv(s, i, enc_null(), rest);
            lemma_suffix_decompose(s, i, enc_null(), rest);
            assert(s[i] == 110);
        },
        Option::Some(v) => {
            lemma_p_str_inv(s, i, v, rest);
            lemma_suffix_decompose(s, i, enc_str(v), rest);
            assert(s[i] == 34);
        },
    }
}


/// Powers of ten.
pub open spec fn pow10(k: nat) -> nat
    decreases k,
{
    if k == 0 {
        1
    } else {
        10 * pow10((k - 1) as nat)
    }
}

/// The numeric value of a string of decimal digits.
pub open spec fn digits_val(ds: Seq<u8>) -> nat
    decreases ds.len(),
{
    if ds.len() == 0 {
        0
    } else {
        digits_val(ds.drop_last()) * 10 + (ds.last() - 48) as nat
    }
}

/// The decimal digits of `n` are digits and carry the value `n`.
proof fn lemma_spec_decimal_digits(n: nat)
    ensures
        spec_decimal(n).len() >= 1,
        forall|k: int| 0 <= k < spec_decimal(n).len() ==> is_digit(#[trigger] spec_decimal(n)[k]),
        digits_val(spec_decimal(n)) == n,
    decreases n,
{
    if n < 10 {
        assert(spec_decimal(n) == seq![(48 + n) as u8]);
        assert(seq![(48 + n) as u8].drop_last() =~= Seq::<u8>::empty());
        assert(digits_val(Seq::<u8>::empty()) == 0);
        assert(seq![(48 + n) as u8].last() == (48 + n) as u8);
        assert(seq![(48 + n) as u8].len() == 1);
        assert(digits_val(seq![(48 + n) as u8]) == digits_val(Seq::<u8>::empty()) * 10 + ((48
            + n) as u8 - 48) as nat);
        assert(digits_val(spec_decimal(n)) == n);
    } else {
        lemma_spec_decimal_digits(n / 10);
        let d = spec_decimal(n / 10);
        assert(spec_decimal(n) == d.push((48 + n % 10) as u8));
        assert(d.push((48 + n % 10) as u8).drop_last() =~= d);
        assert(d.push((48 + n % 10) as u8).last() == (48 + n % 10) as u8);
        vstd::arithmetic::div_mod::lemma_fundamental_div_mod(n as int, 10);
        assert(digits_val(spec_decimal(n)) == (n / 10) * 10 + n % 10);
        assert forall|k: int| 0 <= k < spec_decimal(n).len() implies is_digit(
            #[trigger] spec_decimal(n)[k],
        ) by {
            if k < d.len() {
                assert(spec_decimal(n)[k] == d[k]);
            }
        }
    }
}

/// Peeling the leading digit off a digit string.
proof fn lemma_digits_val_front(ds: Seq<u8>)
    requires
        ds.len() >= 1,
    ensures
        digits_val(ds) == (ds[0] - 48) as nat * pow10((ds.len() - 1) as nat) + digits_val(
            ds.skip(1),
        ),
    decreases ds.len(),
{
    assert(digits_val(Seq::<u8>::empty()) == 0);
    assert(pow10(0) == 1);
    if ds.len() == 1 {
        assert(ds.skip(1) =~= Seq::<u8>::empty());
        assert(ds.drop_last() =~= Seq::<u8>::empty());
        assert(ds.last() == ds[0]);
        assert(digits_val(ds) == digits_val(Seq::<u8>::empty()) * 10 + (ds.last() - 48) as nat);
        assert((ds.len() - 1) as nat == 0);
        assert(digits_val(ds) == (ds[0] - 48) as nat * 1 + 0);
    } else {
        let dl = ds.drop_last();
        lemma_digits_val_front(dl);
        assert(dl[0] == ds[0]);
        assert(dl.skip(1) =~= ds.skip(1).drop_last());
        assert(ds.skip(1).last() == ds.last());
        assert(ds.skip(1).len() >= 1);
        let a: nat = (ds[0] - 48) as nat;
        let p: nat = pow10((ds.len() - 2) as nat);
        let vtail: nat = digits_val(dl.skip(1));
        let lastd: nat = (ds.last() - 48) as nat;
        assert((dl.len() - 1) as nat == (ds.len() - 2) as nat);
        assert(digits_val(dl) == a * p + vtail);
        assert(digits_val(ds) == digits_val(dl) * 10 + lastd);
        assert(digits_val(ds.skip(1)) == digits_val(ds.skip(1).drop_last()) * 10 + lastd);
        assert(digits_val(ds.skip(1)) == vtail * 10 + lastd);
        assert(pow10((ds.len() - 1) as nat) == 10 * p);
        assert((a * p + vtail) * 10 + lastd == a * (10 * p) + (vtail * 10 + lastd))
            by (nonlinear_arith);
        assert(digits_val(ds) == a * pow10((ds.len() - 1) as nat) + digits_val(ds.skip(1)));
    }
}

/// A run of digits parses to the value it spells, folded onto `acc`.
proof fn lemma_p_digits_inv(s: Seq<u8>, i: int, ds: Seq<u8>, rest: Seq<u8>, acc: nat)
    requires
        0 <= i <= s.len(),
        s.subrange(i, s.len() as int) == ds + rest,
        ds.len() >= 1,
        forall|k: int| 0 <= k < ds.len() ==> is_digit(#[trigger] ds[k]),
        rest.len() == 0 || !is_digit(rest[0]),
    ensures
        p_digits(s, i, acc) == (acc * pow10(ds.len() as nat) + digits_val(ds), i + ds.len()),
    decreases ds.len(),
{
    lemma_suffix_decompose(s, i, ds, rest);
    let d0 = ds[0];
    assert(is_digit(d0));
    assert(s[i] == d0);
    assert(digits_val(Seq::<u8>::empty()) == 0);
    assert(pow10(0) == 1);
    if ds.len() == 1 {
        assert(ds.drop_last() =~= Seq::<u8>::empty());
        assert(ds.last() == d0);
        assert(digits_val(ds) == digits_val(Seq::<u8>::empty()) * 10 + (d0 - 48) as nat);
        assert(digits_val(ds) == (d0 - 48) as nat);
        if rest.len() > 0 {
            assert(s[i + 1] == rest[0]);
        }
        assert(p_digits(s, i + 1, acc * 10 + (d0 - 48) as nat) == (
            acc * 10 + (d0 - 48) as nat,
            i + 1,
        ));
        assert(pow10(1) == 10 * pow10(0));
        assert(p_digits(s, i, acc) == (acc * pow10(1) + digits_val(ds), i + 1));
        assert(ds.len() as nat == 1);
    } else {
        assert(ds =~= seq![d0] + ds.skip(1));
        lemma_concat_associative(seq![d0], ds.skip(1), rest);
        lemma_suffix_decompose(s, i, seq![d0], ds.skip(1) + rest);
        assert(forall|k: int| 0 <= k < ds.skip(1).len() ==> is_digit(#[trigger] ds.skip(1)[k]));
        let a2: nat = acc * 10 + (d0 - 48) as nat;
        lemma_p_digits_inv(s, i + 1, ds.skip(1), rest, a2);
        lemma_digits_val_front(ds);
        let p1: nat = pow10((ds.len() - 1) as nat);
        assert((ds.skip(1).len()) as nat == (ds.len() - 1) as nat);
        assert(p_digits(s, i + 1, a2) == (a2 * p1 + digits_val(ds.skip(1)), i + ds.len()));
        assert(pow10(ds.len() as nat) == 10 * p1);
        assert((acc * 10 + (d0 - 48) as nat) * p1 + digits_val(ds.skip(1)) == acc * (10 * p1) + (
        (d0 - 48) as nat * p1 + digits_val(ds.skip(1)))) by (nonlinear_arith);
        assert(p_digits(s, i, acc) == p_digits(s, i + 1, a2));
        assert(p_digits(s, i, acc) == (acc * pow10(ds.len() as nat) + digits_val(ds), i
            + ds.len()));
    }
}

/// A decimal number parses back to the `u32` it encodes.
proof fn lemma_p_u32_inv(s: Seq<u8>, i: int, n: u32, rest: Seq<u8>)
    requires
        0 <= i <= s.len(),
        s.subrange(i, s.len() as int) == enc_u32(n) + rest,
        rest.len() == 0 || !is_digit(rest[0]),
    ensures
        p_u32(s, i) == Option::Some((n, i + enc_u32(n).len())),
        i + enc_u32(n).len() + rest.len() == s.len(),
        s.subrange(i + enc_u32(n).len(), s.len() as int) == rest,
    decreases n,
{
    lemma_spec_decimal_digits(n as nat);
    lemma_suffix_decompose(s, i, enc_u32(n), rest);
    lemma_p_digits_inv(s, i, spec_decimal(n as nat), rest, 0);
    assert(0 * pow10(spec_decimal(n as nat).len() as nat) == 0) by (nonlinear_arith);
    assert(s[i] == spec_decimal(n as nat)[0]);
    assert(is_digit(s[i]));
    assert(p_digits(s, i, 0) == (n as nat, i + enc_u32(n).len()));
}

/// `enc_str_items_rest` is a comma followed by the items.
proof fn lemma_str_items_rest_unfold(w: Seq<Seq<u8>>)
    requires
        w.len() >= 1,
    ensures
        enc_str_items_rest(w) == seq![44u8] + enc_str_items(w),
{
    lemma_concat_associative(seq![44u8], enc_str(w[0]), enc_str_items_rest(w.skip(1)));
}

/// The items of a non-empty string array, with the closing bracket, parse
/// back to the strings they encode.
proof fn lemma_p_str_items_inv(s: Seq<u8>, i: int, vs: Seq<Seq<u8>>, rest: Seq<u8>)
    requires
        0 <= i <= s.len(),
        vs.len() >= 1,
        s.subrange(i, s.len() as int) == (enc_str_items(vs) + seq![93u8]) + rest,
    ensures
        p_str_items(s, i) == Option::Some((vs, i + enc_str_items(vs).len() + 1)),
        i + enc_str_items(vs).len() + 1 + rest.len() == s.len(),
        s.subrange(i + enc_str_items(vs).len() + 1, s.len() as int) == rest,
    decreases vs.len(),
{
    if vs.len() == 1 {
        lemma_concat_associative(enc_str(vs[0]), seq![93u8], rest);
        lemma_p_str_inv(s, i, vs[0], seq![93u8] + rest);
        let j = i + enc_str(vs[0]).len();
        lemma_suffix_decompose(s, j, seq![93u8], rest);
        assert(s[j] == 93);
        assert(seq![vs[0]] =~= vs);
        assert(p_str_items(s, i) == Option::Some((vs, i + enc_str_items(vs).len() + 1)));
    } else {
        let a = enc_str(vs[0]);
        let items1 = enc_str_items(vs.skip(1));
        assert(vs.skip(1).len() >= 1);
        lemma_str_items_rest_unfold(vs.skip(1));
        assert(enc_str_items(vs) == a + (seq![44u8] + items1));
        lemma_concat_associative(a, seq![44u8] + items1, seq![93u8]);
        lemma_concat_associative(seq![44u8], items1, seq![93u8]);
        lemma_concat_associative(a, seq![44u8] + (items1 + seq![93u8]), rest);
        lemma_concat_associative(seq![44u8], items1 + seq![93u8], rest);
        lemma_concat_associative(items1, seq![93u8], rest);
        assert((enc_str_items(vs) + seq![93u8]) + rest == a + (seq![44u8] + ((items1
            + seq![93u8]) + rest)));
        lemma_p_str_inv(s, i, vs[0], seq![44u8] + ((items1 + seq![93u8]) + rest));
        let j = i + a.len();
        lemma_suffix_decompose(s, j, seq![44u8], (items1 + seq![93u8]) + rest);
        assert(s[j] == 44);
        lemma_p_str_items_inv(s, j + 1, vs.skip(1), rest);
        assert(seq![vs[0]] + vs.skip(1) =~= vs);
        assert(p_str_items(s, i) == Option::Some((vs, i + enc_str_items(vs).len() + 1)));
    }
}

/// A string array parses back to the strings it encodes.
proof fn lemma_p_str_arr_inv(s: Seq<u8>, i: int, vs: Seq<Seq<u8>>, rest: Seq<u8>)
    requires
        0 <= i <= s.len(),
        s.subrange(i, s.len() as int) == enc_str_arr(vs) + rest,
    ensures
        p_str_arr(s, i) == Option::Some((vs, i + enc_str_arr(vs).len())),
        i + enc_str_arr(vs).len() + rest.len() == s.len(),
        s.subrange(i + enc_str_arr(vs).len(), s.len() as int) == rest,
{
    if vs.len() == 0 {
        assert(enc_str_arr(vs) =~= seq![91u8, 93u8]);
        lemma_suffix_decompose(s, i, seq![91u8, 93u8], rest);
        assert(s[i] == 91);
        assert(s[i + 1] == 93);
        assert(vs =~= Seq::<Seq<u8>>::empty());
        assert(p_str_arr(s, i) == Option::Some((vs, i + 2)));
    } else {
        let items = enc_str_items(vs);
        lemma_concat_associative(seq![91u8], items, seq![93u8]);
        lemma_concat_associative(seq![91u8], items + seq![93u8], rest);
        lemma_concat_associative(items, seq![93u8], rest);
        lemma_suffix_decompose(s, i, seq![91u8], (items + seq![93u8]) + rest);
        assert(s[i] == 91);
        lemma_p_str_items_inv(s, i + 1, vs, rest);
        assert(items[0] == enc_str(vs[0])[0]);
        assert(enc_str(vs[0])[0] == 34);
        assert(s[i + 1] == 34);
        assert(p_str_arr(s, i) == Option::Some((vs, i + enc_str_arr(vs).len())));
    }
}

/// One feature-table pair parses back to the entry it encodes.
proof fn lemma_p_feature_inv(s: Seq<u8>, i: int, f: FeatureEntryView, rest: Seq<u8>)
    requires
        0 <= i <= s.len(),
        s.subrange(i, s.len() as int) == enc_feature(f) + rest,
    ensures
        p_feature(s, i) == Option::Some((f, i + enc_feature(f).len())),
        i + enc_feature(f).len() + rest.len() == s.len(),
        s.subrange(i + enc_feature(f).len(), s.len() as int) == rest,
{
    let sname = enc_str(f.name);
    let arr = enc_str_arr(f.values);
    lemma_concat_associative(sname, seq![58u8], arr);
    lemma_concat_associative(sname, seq![58u8] + arr, rest);
    lemma_concat_associative(seq![58u8], arr, rest);
    lemma_p_str_inv(s, i, f.name, seq![58u8] + (arr + rest));
    let j = i + sname.len();
    lemma_suffix_decompose(s, j, seq![58u8], arr + rest);
    assert(s[j] == 58);
    lemma_p_str_arr_inv(s, j + 1, f.values, rest);
    assert(p_feature(s, i) == Option::Some((f, i + enc_feature(f).len())));
}

/// `enc_feature_items_rest` is a comma followed by the items.
proof fn lemma_feature_items_rest_unfold(w: Seq<FeatureEntryView>)
    requires
        w.len() >= 1,
    ensures
        enc_feature_items_rest(w) == seq![44u8] + enc_feature_items(w),
{
    lemma_concat_associative(seq![44u8], enc_feature(w[0]), enc_feature_items_rest(w.skip(1)));
}

/// The pairs of a non-empty feature table, with the closing brace, parse
/// back to the entries they encode.
proof fn lemma_p_feature_items_inv(s: Seq<u8>, i: int, fs: Seq<FeatureEntryView>, rest: Seq<u8>)
    requires
        0 <= i <= s.len(),
        fs.len() >= 1,
        s.subrange(i, s.len() as int) == (enc_feature_items(fs) + seq![125u8]) + rest,
    ensures
        p_feature_items(s, i) == Option::Some((fs, i + enc_feature_items(fs).len() + 1)),
        i + enc_feature_items(fs).len() + 1 + rest.len() == s.len(),
        s.subrange(i + enc_feature_items(fs).len() + 1, s.len() as int) == rest,
    decreases fs.len(),
{
    if fs.len() == 1 {
        lemma_concat_associative(enc_feature(fs[0]), seq![125u8], rest);
        lemma_p_feature_inv(s, i, fs[0], seq![125u8] + rest);
        let j = i + enc_feature(fs[0]).len();
        lemma_suffix_decompose(s, j, seq![125u8], rest);
        assert(s[j] == 125);
        assert(seq![fs[0]] =~= fs);
        assert(p_feature_items(s, i) == Option::Some((fs, i + enc_feature_items(fs).len()
            + 1)));
    } else {
        let a = enc_feature(fs[0]);
        let items1 = enc_feature_items(fs.skip(1));
        assert(fs.skip(1).len() >= 1);
        lemma_feature_items_rest_unfold(fs.skip(1));
        assert(enc_feature_items(fs) == a + (seq![44u8] + items1));
        lemma_concat_associative(a, seq![44u8] + items1, seq![125u8]);
        lemma_concat_associative(seq![44u8], items1, seq![125u8]);
        lemma_concat_associative(a, seq![44u8] + (items1 + seq![125u8]), rest);
        lemma_concat_associative(seq![44u8], items1 + seq![125u8], rest);
        lemma_concat_associative(items1, seq![125u8], rest);
        assert((enc_feature_items(fs) + seq![125u8]) + rest == a + (seq![44u8] + ((items1
            + seq![125u8]) + rest)));
        lemma_p_feature_inv(s, i, fs[0], seq![44u8] + ((items1 + seq![125u8]) + rest));
        let j = i + a.len();
        lemma_suffix_decompose(s, j, seq![44u8], (items1 + seq![125u8]) + rest);
        assert(s[j] == 44);
        lemma_p_feature_items_inv(s, j + 1, fs.skip(1), rest);
        assert(seq![fs[0]] + fs.skip(1) =~= fs);
        assert(p_feature_items(s, i) == Option::Some((fs, i + enc_feature_items(fs).len()
            + 1)));
    }
}

/// A feature table parses back to the entries it encodes.
proof fn lemma_p_features_inv(s: Seq<u8>, i: int, fs: Seq<FeatureEntryView>, rest: Seq<u8>)
    requires
        0 <= i <= s.len(),
        s.subrange(i, s.len() as int) == enc_features(fs) + rest,
    ensures
        p_features(s, i) == Option::Some((fs, i + enc_features(fs).len())),
        i + enc_features(fs).len() + rest.len() == s.len(),
        s.subrange(i + enc_features(fs).len(), s.len() as int) == rest,
{
    if fs.len() == 0 {
        assert(enc_features(fs) =~= seq![123u8, 125u8]);
        lemma_suffix_decompose(s, i, seq![123u8, 125u8], rest);
        assert(s[i] == 123);
        assert(s[i + 1] == 125);
        assert(fs =~= Seq::<FeatureEntryView>::empty());
        assert(p_features(s, i) == Option::Some((fs, i + 2)));
    } else {
        let items = enc_feature_items(fs);
        lemma_concat_associative(seq![123u8], items, seq![125u8]);
        lemma_concat_associative(seq![123u8], items + seq![125u8], rest);
        lemma_concat_associative(items, seq![125u8], rest);
        lemma_suffix_decompose(s, i, seq![123u8], (items + seq![125u8]) + rest);
        assert(s[i] == 123);
        lemma_p_feature_items_inv(s, i + 1, fs, rest);
        assert(items[0] == enc_feature(fs[0])[0]);
        assert(enc_feature(fs[0])[0] == enc_str(fs[0].name)[0]);
        assert(enc_str(fs[0].name)[0] == 34);
        assert(s[i + 1] == 34);
        assert(p_features(s, i) == Option::Some((fs, i + enc_features(fs).len())));
    }
}

/// `null` or a feature table parses back to the option it encodes.
proof fn lemma_p_opt_features_inv(
    s: Seq<u8>,
    i: int,
    o: Option<Seq<FeatureEntryView>>,
    rest: Seq<u8>,
)
    requires
        0 <= i <= s.len(),
        s.subrange(i, s.len() as int) == enc_opt_features(o) + rest,
    ensures
        p_opt_features(s, i) == Option::Some((o, i + enc_opt_features(o).len())),
        i + enc_opt_features(o).len() + rest.len() == s.len(),
        s.subrange(i + enc_opt_features(o).len(), s.len() as int) == rest,
{
    match o {
        Option::None => {
            lemma_p_lit_inv(s, i, enc_null(), rest);
            lemma_suffix_decompose(s, i, enc_null(), rest);
            assert(s[i] == 110);
        },
        Option::Some(fs) => {
            lemma_p_features_inv(s, i, fs, rest);
            lemma_suffix_decompose(s, i, enc_features(fs), rest);
            assert(enc_features(fs)[0] == 123);
            assert(s[i] == 123);
        },
    }
}


/// Parse the records of a non-empty dependency array, up to and including
/// the closing bracket.
pub open spec fn p_dep_items(s: Seq<u8>, i: int) -> Option<(Seq<DependencyView>, int)>
    decreases s.len() - i,
{
    match p_dep(s, i) {
        Option::None => Option::None,
        Option::Some(r) => {
            let j = r.1;
            if j < s.len() && s[j] == 44 {
                if i < j + 1 {
                    match p_dep_items(s, j + 1) {
                        Option::Some(r2) => Option::Some((seq![r.0] + r2.0, r2.1)),
                        Option::None => Option::None,
                    }
                } else {
                    Option::None
                }
            } else if j < s.len() && s[j] == 93 {
                Option::Some((seq![r.0], j + 1))
            } else {
                Option::None
            }
        },
    }
}

/// Parse a dependency array.
pub open spec fn p_deps(s: Seq<u8>, i: int) -> Option<(Seq<DependencyView>, int)> {
    if 0 <= i && i < s.len() && s[i] == 91 {
        if i + 1 < s.len() && s[i + 1] == 93 {
            Option::Some((Seq::empty(), i + 2))
        } else {
            p_dep_items(s, i + 1)
        }
    } else {
        Option::None
    }
}

// ---------------------------------------------------------------------------
// Parsers only move forward
// ---------------------------------------------------------------------------

proof fn lemma_p_strbody_pos(s: Seq<u8>, i: int)
    ensures
        p_strbody(s, i) matches Option::Some(r) ==> i < r.1 <= s.len(),
    decreases s.len() - i,
{
    if 0 <= i && i < s.len() {
        if s[i] == 92 {
            if i + 1 < s.len() && (s[i + 1] == 34 || s[i + 1] == 92) {
                lemma_p_strbody_pos(s, i + 2);
            } else if i + 5 < s.len() && s[i + 1] == 117 && s[i + 2] == 48 && s[i + 3] == 48
                && is_hex_lower(s[i + 4]) && is_hex_lower(s[i + 5]) {
                lemma_p_strbody_pos(s, i + 6);
            }
        } else if s[i] != 34 {
            lemma_p_strbody_pos(s, i + 1);
        }
    }
}

proof fn lemma_p_str_pos(s: Seq<u8>, i: int)
    ensures
        p_str(s, i) matches Option::Some(r) ==> i < r.1 <= s.len(),
{
    lemma_p_strbody_pos(s, i + 1);
}

proof fn lemma_p_bool_pos(s: Seq<u8>, i: int)
    ensures
        p_bool(s, i) matches Option::Some(r) ==> i < r.1 <= s.len(),
{
}

proof fn lemma_p_opt_str_pos(s: Seq<u8>, i: int)
    ensures
        p_opt_str(s, i) matches Option::Some(r) ==> i < r.1 <= s.len(),
{
    lemma_p_str_pos(s, i);
}

proof fn lemma_p_str_items_pos(s: Seq<u8>, i: int)
    ensures
        p_str_items(s, i) matches Option::Some(r) ==> i < r.1 <= s.len(),
    decreases s.len() - i,
{
    lemma_p_str_pos(s, i);
    match p_str(s, i) {
        Option::Some(r) => {
            let j = r.1;
            if j < s.len() && s[j] == 44 && i < j + 1 {
                lemma_p_str_items_pos(s, j + 1);
            }
        },
        Option::None => {},
    }
}

proof fn lemma_p_str_arr_pos(s: Seq<u8>, i: int)
    ensures
        p_str_arr(s, i) matches Option::Some(r) ==> i < r.1 <= s.len(),
{
    lemma_p_str_items_pos(s, i + 1);
}

proof fn lemma_p_feature_pos(s: Seq<u8>, i: int)
    ensures
        p_feature(s, i) matches Option::Some(r) ==> i < r.1 <= s.len(),
{
    lemma_p_str_pos(s, i);
    match p_str(s, i) {
        Option::Some(rn) => {
            lemma_p_str_arr_pos(s, rn.1 + 1);
        },
        Option::None => {},
    }
}

proof fn lemma_p_feature_items_pos(s: Seq<u8>, i: int)
    ensures
        p_feature_items(s, i) matches Option::Some(r) ==> i < r.1 <= s.len(),
    decreases s.len() - i,
{
    lemma_p_feature_pos(s, i);
    match p_feature(s, i) {
        Option::Some(r) => {
            let j = r.1;
            if j < s.len() && s[j] == 44 && i < j + 1 {
                lemma_p_feature_items_pos(s, j + 1);
            }
        },
        Option::None => {},
    }
}

/// Parse the earlier fields of a dependency record.
pub open spec fn p_dep_head(s: Seq<u8>, i: int) -> Option<((Seq<u8>, Seq<u8>, Seq<Seq<u8>>, bool, bool), int)> {
    match p_lit(s, i, enc_first_key(key_name())) {
        Option::None => Option::None,
        Option::Some(j0) => 
        match p_str(s, j0) {
            Option::None => Option::None,
            Option::Some(r1) => 
            match p_lit(s, r1.1, enc_next_key(key_req())) {
                Option::None => Option::None,
                Option::Some(j2) => 
                match p_str(s, j2) {
                    Option::None => Option::None,
                    Option::Some(r3) => 
                    match p_lit(s, r3.1, enc_next_key(key_features())) {
                        Option::None => Option::None,
                        Option::Some(j4) => 
                        match p_str_arr(s, j4) {
                            Option::None => Option::None,
                            Option::Some(r5) => 
                            match p_lit(s, r5.1, enc_next_key(key_optional())) {
                                Option::None => Option::None,
                                Option::Some(j6) => 
                                match p_bool(s, j6) {
                                    Option::None => Option::None,
                                    Option::Some(r7) => 
                                    match p_lit(s, r7.1, enc_next_key(key_default_features())) {
                                        Option::None => Option::None,
                                        Option::Some(j8) => 
                                        match p_bool(s, j8) {
                                            Option::None => Option::None,
                                            Option::Some(r9) => 
                                            Option::Some(((r1.0, r3.0, r5.0, r7.0, r9.0), r9.1))
                                        }
                                    }
                                }
                            }
                        }
                    }
                }
            }
        }
    }
}

/// Parse the later fields of a dependency record.
pub open spec fn p_dep_tail(s: Seq<u8>, i: int) -> Option<((Option<Seq<u8>>, Seq<u8>, Option<Seq<u8>>, Option<Seq<u8>>), int)> {
    match p_lit(s, i, enc_next_key(key_target())) {
        Option::None => Option::None,
        Option::Some(j10) => 
        match p_opt_str(s, j10) {
            Option::None => Option::None,
            Option::Some(r11) => 
            match p_lit(s, r11.1, enc_next_key(key_kind())) {
                Option::None => Option::None,
                Option::Some(j12) => 
                match p_str(s, j12) {
                    Option::None => Option::None,
                    Option::Some(r13) => 
                    match p_lit(s, r13.1, enc_next_key(key_registry())) {
                        Option::None => Option::None,
                        Option::Some(j14) => 
                        match p_opt_str(s, j14) {
                            Option::None => Option::None,
                            Option::Some(r15) => 
                            match p_lit(s, r15.1, enc_next_key(key_package())) {
                                Option::None => Option::None,
                                Option::Some(j16) => 
                                match p_opt_str(s, j16) {
                                    Option::None => Option::None,
                                    Option::Some(r17) => 
                                    match p_lit(s, r17.1, seq![125u8]) {
                                        Option::None => Option::None,
                                        Option::Some(j18) => 
                                        Option::Some(((r11.0, r13.0, r15.0, r17.0), j18))
                                    }
                                }
                            }
                        }
                    }
                }
            }
        }
    }
}

/// Parse one dependency record.
#[verifier::opaque]
pub open spec fn p_dep(s: Seq<u8>, i: int) -> Option<(DependencyView, int)> {
    match p_dep_head(s, i) {
        Option::None => Option::None,
        Option::Some(t1) => match p_dep_tail(s, t1.1) {
            Option::None => Option::None,
            Option::Some(t2) => Option::Some((DependencyView { name: t1.0.0, req: t1.0.1, features: t1.0.2, optional: t1.0.3, default_features: t1.0.4, target: t2.0.0, kind: t2.0.1, registry: t2.0.2, package: t2.0.3 }, t2.1)),
        },
    }
}

/// Parse the earlier fields of an index entry.
pub open spec fn p_line_head(s: Seq<u8>, i: int) -> Option<((Seq<u8>, Seq<u8>, Seq<DependencyView>, Seq<u8>), int)> {
    match p_lit(s, i, enc_first_key(key_name())) {
        Option::None => Option::None,
        Option::Some(j0) => 
        match p_str(s, j0) {
            Option::None => Option::None,
            Option::Some(r1) => 
            match p_lit(s, r1.1, enc_next_key(key_vers())) {
                Option::None => Option::None,
                Option::Some(j2) => 
                match p_str(s, j2) {
                    Option::None => Option::None,
                    Option::Some(r3) => 
                    match p_lit(s, r3.1, enc_next_key(key_deps())) {
                        Option::None => Option::None,
                        Option::Some(j4) => 
                        match p_deps(s, j4) {
                            Option::None => Option::None,
                            Option::Some(r5) => 
                            match p_lit(s, r5.1, enc_next_key(key_cksum())) {
                                Option::None => Option::None,
                                Option::Some(j6) => 
                                match p_str(s, j6) {
                                    Option::None => Option::None,
                                    Option::Some(r7) => 
                                    Option::Some(((r1.0, r3.0, r5.0, r7.0), r7.1))
                                }
                            }
                        }
                    }
                }
            }
        }
    }
}

/// Parse the later fields of an index entry.
pub open spec fn p_line_tail(s: Seq<u8>, i: int) -> Option<((Seq<FeatureEntryView>, bool, Option<Seq<u8>>, u32, Option<Seq<FeatureEntryView>>, Option<Seq<u8>>), int)> {
    match p_lit(s, i, enc_next_key(key_features())) {
        Option::None => Option::None,
        Option::Some(j8) => 
        match p_features(s, j8) {
            Option::None => Option::None,
            Option::Some(r9) => 
            match p_lit(s, r9.1, enc_next_key(key_yanked())) {
                Option::None => Option::None,
                Option::Some(j10) => 
                match p_bool(s, j10) {
                    Option::None => Option::None,
                    Option::Some(r11) => 
                    match p_lit(s, r11.1, enc_next_key(key_links())) {
                        Option::None => Option::None,
                        Option::Some(j12) => 
                        match p_opt_str(s, j12) {
                            Option::None => Option::None,
                            Option::Some(r13) => 
                            match p_lit(s, r13.1, enc_next_key(key_v())) {
                                Option::None => Option::None,
                                Option::Some(j14) => 
                                match p_u32(s, j14) {
                                    Option::None => Option::None,
                                    Option::Some(r15) => 
                                    match p_lit(s, r15.1, enc_next_key(key_features2())) {
                                        Option::None => Option::None,
                                        Option::Some(j16) => 
                                        match p_opt_features(s, j16) {
                                            Option::None => Option::None,
                                            Option::Some(r17) => 
                                            match p_lit(s, r17.1, enc_next_key(key_rust_version())) {
                                                Option::None => Option::None,
                                                Option::Some(j18) => 
                                                match p_opt_str(s, j18) {
                                                    Option::None => Option::None,
                                                    Option::Some(r19) => 
                                                    match p_lit(s, r19.1, seq![125u8]) {
                                                        Option::None => Option::None,
                                                        Option::Some(j20) => 
                                                        Option::Some(((r9.0, r11.0, r13.0, r15.0, r17.0, r19.0), j20))
                                                    }
                                                }
                                            }
                                        }
                                    }
                                }
                            }
                        }
                    }
                }
            }
        }
    }
}

/// Parse one whole index entry.
#[verifier::opaque]
pub open spec fn p_line(s: Seq<u8>, i: int) -> Option<(IndexDataView, int)> {
    match p_line_head(s, i) {
        Option::None => Option::None,
        Option::Some(t1) => match p_line_tail(s, t1.1) {
            Option::None => Option::None,
            Option::Some(t2) => Option::Some((IndexDataView { name: t1.0.0, vers: t1.0.1, deps: t1.0.2, cksum: t1.0.3, features: t2.0.0, yanked: t2.0.1, links: t2.0.2, v: t2.0.3, features2: t2.0.4, rust_version: t2.0.5 }, t2.1)),
        },
    }
}

/// The earlier fields of an encoded dependency record parse back.
#[verifier::rlimit(100)]
#[verifier::spinoff_prover]
proof fn lemma_p_dep_head_inv(s: Seq<u8>, i: int, d: DependencyView, rest: Seq<u8>)
    requires
        0 <= i <= s.len(),
        s.subrange(i, s.len() as int) == enc_dep(d) + rest,
    ensures
        p_dep_head(s, i) == Option::Some(((d.name, d.req, d.features, d.optional, d.default_features), i + enc_dep(d).len() - enc_dep_part2(d).len())),
        0 <= i + enc_dep(d).len() - enc_dep_part2(d).len() <= s.len(),
        s.subrange(i + enc_dep(d).len() - enc_dep_part2(d).len(), s.len() as int) == enc_dep_part2(d) + rest,
        i + enc_dep(d).len() + rest.len() == s.len(),
{
    lemma_concat_associative(enc_first_key(key_name()), enc_str(d.name) + (enc_next_key(key_req()) + (enc_str(d.req) + (enc_next_key(key_features()) + (enc_str_arr(d.features) + (enc_next_key(key_optional()) + (enc_bool(d.optional) + (enc_next_key(key_default_features()) + (enc_bool(d.default_features) + (enc_dep_part2(d)))))))))), rest);
    lemma_p_lit_inv(s, i, enc_first_key(key_name()), (enc_str(d.name) + (enc_next_key(key_req()) + (enc_str(d.req) + (enc_next_key(key_features()) + (enc_str_arr(d.features) + (enc_next_key(key_optional()) + (enc_bool(d.optional) + (enc_next_key(key_default_features()) + (enc_bool(d.default_features) + (enc_dep_part2(d))))))))))) + rest);
    let jj0 = i + enc_first_key(key_name()).len();
    lemma_concat_associative(enc_str(d.name), enc_next_key(key_req()) + (enc_str(d.req) + (enc_next_key(key_features()) + (enc_str_arr(d.features) + (enc_next_key(key_optional()) + (enc_bool(d.optional) + (enc_next_key(key_default_features()) + (enc_bool(d.default_features) + (enc_dep_part2(d))))))))), rest);
    lemma_p_str_inv(s, jj0, d.name, (enc_next_key(key_req()) + (enc_str(d.req) + (enc_next_key(key_features()) + (enc_str_arr(d.features) + (enc_next_key(key_optional()) + (enc_bool(d.optional) + (enc_next_key(key_default_features()) + (enc_bool(d.default_features) + (enc_dep_part2(d)))))))))) + rest);
    let jj1 = jj0 + enc_str(d.name).len();
    lemma_concat_associative(enc_next_key(key_req()), enc_str(d.req) + (enc_next_key(key_features()) + (enc_str_arr(d.features) + (enc_next_key(key_optional()) + (enc_bool(d.optional) + (enc_next_key(key_default_features()) + (enc_bool(d.default_features) + (enc_dep_part2(d)))))))), rest);
    lemma_p_lit_inv(s, jj1, enc_next_key(key_req()), (enc_str(d.req) + (enc_next_key(key_features()) + (enc_str_arr(d.features) + (enc_next_key(key_optional()) + (enc_bool(d.optional) + (enc_next_key(key_default_features()) + (enc_bool(d.default_features) + (enc_dep_part2(d))))))))) + rest);
    let jj2 = jj1 + enc_next_key(key_req()).len();
    lemma_concat_associative(enc_str(d.req), enc_next_key(key_features()) + (enc_str_arr(d.features) + (enc_next_key(key_optional()) + (enc_bool(d.optional) + (enc_next_key(key_default_features()) + (enc_bool(d.default_features) + (enc_dep_part2(d))))))), rest);
    lemma_p_str_inv(s, jj2, d.req, (enc_next_key(key_features()) + (enc_str_arr(d.features) + (enc_next_key(key_optional()) + (enc_bool(d.optional) + (enc_next_key(key_default_features()) + (enc_bool(d.default_features) + (enc_dep_part2(d)))))))) + rest);
    let jj3 = jj2 + enc_str(d.req).len();
    lemma_concat_associative(enc_next_key(key_features()), enc_str_arr(d.features) + (enc_next_key(key_optional()) + (enc_bool(d.optional) + (enc_next_key(key_default_features()) + (enc_bool(d.default_features) + (enc_dep_part2(d)))))), rest);
    lemma_p_lit_inv(s, jj3, enc_next_key(key_features()), (enc_str_arr(d.features) + (enc_next_key(key_optional()) + (enc_bool(d.optional) + (enc_next_key(key_default_features()) + (enc_bool(d.default_features) + (enc_dep_part2(d))))))) + rest);
    let jj4 = jj3 + enc_next_key(key_features()).len();
    lemma_concat_associative(enc_str_arr(d.features), enc_next_key(key_optional()) + (enc_bool(d.optional) + (enc_next_key(key_default_features()) + (enc_bool(d.default_features) + (enc_dep_part2(d))))), rest);
    lemma_p_str_arr_inv(s, jj4, d.features, (enc_next_key(key_optional()) + (enc_bool(d.optional) + (enc_next_key(key_default_features()) + (enc_bool(d.default_features) + (enc_dep_part2(d)))))) + rest);
    let jj5 = jj4 + enc_str_arr(d.features).len();
    lemma_concat_associative(enc_next_key(key_optional()), enc_bool(d.optional) + (enc_next_key(key_default_features()) + (enc_bool(d.default_features) + (enc_dep_part2(d)))), rest);
    lemma_p_lit_inv(s, jj5, enc_next_key(key_optional()), (enc_bool(d.optional) + (enc_next_key(key_default_features()) + (enc_bool(d.default_features) + (enc_dep_part2(d))))) + rest);
    let jj6 = jj5 + enc_next_key(key_optional()).len();
    lemma_concat_associative(enc_bool(d.optional), enc_next_key(key_default_features()) + (enc_bool(d.default_features) + (enc_dep_part2(d))), rest);
    lemma_p_bool_inv(s, jj6, d.optional, (enc_next_key(key_default_features()) + (enc_bool(d.default_features) + (enc_dep_part2(d)))) + rest);
    let jj7 = jj6 + enc_bool(d.optional).len();
    lemma_concat_associative(enc_next_key(key_default_features()), enc_bool(d.default_features) + (enc_dep_part2(d)), rest);
    lemma_p_lit_inv(s, jj7, enc_next_key(key_default_features()), (enc_bool(d.default_features) + (enc_dep_part2(d))) + rest);
    let jj8 = jj7 + enc_next_key(key_default_features()).len();
    lemma_concat_associative(enc_bool(d.default_features), enc_next_key(key_target()) + (enc_opt_str(d.target) + (enc_next_key(key_kind()) + (enc_str(d.kind) + (enc_next_key(key_registry()) + (enc_opt_str(d.registry) + (enc_next_key(key_package()) + (enc_opt_str(d.package) + (seq![125u8])))))))), rest);
    lemma_p_bool_inv(s, jj8, d.default_features, (enc_next_key(key_target()) + (enc_opt_str(d.target) + (enc_next_key(key_kind()) + (enc_str(d.kind) + (enc_next_key(key_registry()) + (enc_opt_str(d.registry) + (enc_next_key(key_package()) + (enc_opt_str(d.package) + (seq![125u8]))))))))) + rest);
    let jj9 = jj8 + enc_bool(d.default_features).len();
    assert(p_dep_head(s, i) == Option::Some(((d.name, d.req, d.features, d.optional, d.default_features), jj9)));
}

/// The later fields of an encoded dependency record parse back.
#[verifier::rlimit(100)]
#[verifier::spinoff_prover]
proof fn lemma_p_dep_tail_inv(s: Seq<u8>, i: int, d: DependencyView, rest: Seq<u8>)
    requires
        0 <= i <= s.len(),
        s.subrange(i, s.len() as int) == enc_dep_part2(d) + rest,
    ensures
        p_dep_tail(s, i) == Option::Some(((d.target, d.kind, d.registry, d.package), i + enc_dep_part2(d).len())),
        i + enc_dep_part2(d).len() + rest.len() == s.len(),
        s.subrange(i + enc_dep_part2(d).len(), s.len() as int) == rest,
{
    lemma_concat_associative(enc_next_key(key_target()), enc_opt_str(d.target) + (enc_next_key(key_kind()) + (enc_str(d.kind) + (enc_next_key(key_registry()) + (enc_opt_str(d.registry) + (enc_next_key(key_package()) + (enc_opt_str(d.package) + (seq![125u8]))))))), rest);
    lemma_p_lit_inv(s, i, enc_next_key(key_target()), (enc_opt_str(d.target) + (enc_next_key(key_kind()) + (enc_str(d.kind) + (enc_next_key(key_registry()) + (enc_opt_str(d.registry) + (enc_next_key(key_package()) + (enc_opt_str(d.package) + (seq![125u8])))))))) + rest);
    let jj10 = i + enc_next_key(key_target()).len();
    lemma_concat_associative(enc_opt_str(d.target), enc_next_key(key_kind()) + (enc_str(d.kind) + (enc_next_key(key_registry()) + (enc_opt_str(d.registry) + (enc_next_key(key_package()) + (enc_opt_str(d.package) + (seq![125u8])))))), rest);
    lemma_p_opt_str_inv(s, jj10, d.target, (enc_next_key(key_kind()) + (enc_str(d.kind) + (enc_next_key(key_registry()) + (enc_opt_str(d.registry) + (enc_next_key(key_package()) + (enc_opt_str(d.package) + (seq![125u8]))))))) + rest);
    let jj11 = jj10 + enc_opt_str(d.target).len();
    lemma_concat_associative(enc_next_key(key_kind()), enc_str(d.kind) + (enc_next_key(key_registry()) + (enc_opt_str(d.registry) + (enc_next_key(key_package()) + (enc_opt_str(d.package) + (seq![125u8]))))), rest);
    lemma_p_lit_inv(s, jj11, enc_next_key(key_kind()), (enc_str(d.kind) + (enc_next_key(key_registry()) + (enc_opt_str(d.registry) + (enc_next_key(key_package()) + (enc_opt_str(d.package) + (seq![125u8])))))) + rest);
    let jj12 = jj11 + enc_next_key(key_kind()).len();
    lemma_concat_associative(enc_str(d.kind), enc_next_key(key_registry()) + (enc_opt_str(d.registry) + (enc_next_key(key_package()) + (enc_opt_str(d.package) + (seq![125u8])))), rest);
    lemma_p_str_inv(s, jj12, d.kind, (enc_next_key(key_registry()) + (enc_opt_str(d.registry) + (enc_next_key(key_package()) + (enc_opt_str(d.package) + (seq![125u8]))))) + rest);
    let jj13 = jj12 + enc_str(d.kind).len();
    lemma_concat_associative(enc_next_key(key_registry()), enc_opt_str(d.registry) + (enc_next_key(key_package()) + (enc_opt_str(d.package) + (seq![125u8]))), rest);
    lemma_p_lit_inv(s, jj13, enc_next_key(key_registry()), (enc_opt_str(d.registry) + (enc_next_key(key_package()) + (enc_opt_str(d.package) + (seq![125u8])))) + rest);
    let jj14 = jj13 + enc_next_key(key_registry()).len();
    lemma_concat_associative(enc_opt_str(d.registry), enc_next_key(key_package()) + (enc_opt_str(d.package) + (seq![125u8])), rest);
    lemma_p_opt_str_inv(s, jj14, d.registry, (enc_next_key(key_package()) + (enc_opt_str(d.package) + (seq![125u8]))) + rest);
    let jj15 = jj14 + enc_opt_str(d.registry).len();
    lemma_concat_associative(enc_next_key(key_package()), enc_opt_str(d.package) + (seq![125u8]), rest);
    lemma_p_lit_inv(s, jj15, enc_next_key(key_package()), (enc_opt_str(d.package) + (seq![125u8])) + rest);
    let jj16 = jj15 + enc_next_key(key_package()).len();
    lemma_concat_associative(enc_opt_str(d.package), seq![125u8], rest);
    lemma_p_opt_str_inv(s, jj16, d.package, (seq![125u8]) + rest);
    let jj17 = jj16 + enc_opt_str(d.package).len();
    lemma_p_lit_inv(s, jj17, seq![125u8], rest);
    let jj18 = jj17 + 1;
    assert(p_dep_tail(s, i) == Option::Some(((d.target, d.kind, d.registry, d.package), jj18)));
}

/// A dependency record parses back to the value it encodes.
#[verifier::rlimit(100)]
#[verifier::spinoff_prover]
proof fn lemma_p_dep_inv(s: Seq<u8>, i: int, d: DependencyView, rest: Seq<u8>)
    requires
        0 <= i <= s.len(),
        s.subrange(i, s.len() as int) == enc_dep(d) + rest,
    ensures
        p_dep(s, i) == Option::Some((d, i + enc_dep(d).len())),
        i + enc_dep(d).len() + rest.len() == s.len(),
        s.subrange(i + enc_dep(d).len(), s.len() as int) == rest,
{
    reveal(p_dep);
    lemma_p_dep_head_inv(s, i, d, rest);
    lemma_p_dep_tail_inv(s, i + enc_dep(d).len() - enc_dep_part2(d).len(), d, rest);
}

/// The earlier fields of an encoded index line parse back.
#[verifier::rlimit(100)]
#[verifier::spinoff_prover]
proof fn lemma_p_line_head_inv(s: Seq<u8>, i: int, d: IndexDataView, rest: Seq<u8>)
    requires
        0 <= i <= s.len(),
        s.subrange(i, s.len() as int) == enc_line(d) + rest,
    ensures
        p_line_head(s, i) == Option::Some(((d.name, d.vers, d.deps, d.cksum), i + enc_line(d).len() - enc_line_part2(d).len())),
        0 <= i + enc_line(d).len() - enc_line_part2(d).len() <= s.len(),
        s.subrange(i + enc_line(d).len() - enc_line_part2(d).len(), s.len() as int) == enc_line_part2(d) + rest,
        i + enc_line(d).len() + rest.len() == s.len(),
{
    lemma_concat_associative(enc_first_key(key_name()), enc_str(d.name) + (enc_next_key(key_vers()) + (enc_str(d.vers) + (enc_next_key(key_deps()) + (enc_deps(d.deps) + (enc_next_key(key_cksum()) + (enc_str(d.cksum) + (enc_line_part2(d)))))))), rest);
    lemma_p_lit_inv(s, i, enc_first_key(key_name()), (enc_str(d.name) + (enc_next_key(key_vers()) + (enc_str(d.vers) + (enc_next_key(key_deps()) + (enc_deps(d.deps) + (enc_next_key(key_cksum()) + (enc_str(d.cksum) + (enc_line_part2(d))))))))) + rest);
    let jj0 = i + enc_first_key(key_name()).len();
    lemma_concat_associative(enc_str(d.name), enc_next_key(key_vers()) + (enc_str(d.vers) + (enc_next_key(key_deps()) + (enc_deps(d.deps) + (enc_next_key(key_cksum()) + (enc_str(d.cksum) + (enc_line_part2(d))))))), rest);
    lemma_p_str_inv(s, jj0, d.name, (enc_next_key(key_vers()) + (enc_str(d.vers) + (enc_next_key(key_deps()) + (enc_deps(d.deps) + (enc_next_key(key_cksum()) + (enc_str(d.cksum) + (enc_line_part2(d)))))))) + rest);
    let jj1 = jj0 + enc_str(d.name).len();
    lemma_concat_associative(enc_next_key(key_vers()), enc_str(d.vers) + (enc_next_key(key_deps()) + (enc_deps(d.deps) + (enc_next_key(key_cksum()) + (enc_str(d.cksum) + (enc_line_part2(d)))))), rest);
    lemma_p_lit_inv(s, jj1, enc_next_key(key_vers()), (enc_str(d.vers) + (enc_next_key(key_deps()) + (enc_deps(d.deps) + (enc_next_key(key_cksum()) + (enc_str(d.cksum) + (enc_line_part2(d))))))) + rest);
    let jj2 = jj1 + enc_next_key(key_vers()).len();
    lemma_concat_associative(enc_str(d.vers), enc_next_key(key_deps()) + (enc_deps(d.deps) + (enc_next_key(key_cksum()) + (enc_str(d.cksum) + (enc_line_part2(d))))), rest);
    lemma_p_str_inv(s, jj2, d.vers, (enc_next_key(key_deps()) + (enc_deps(d.deps) + (enc_next_key(key_cksum()) + (enc_str(d.cksum) + (enc_line_part2(d)))))) + rest);
    let jj3 = jj2 + enc_str(d.vers).len();
    lemma_concat_associative(enc_next_key(key_deps()), enc_deps(d.deps) + (enc_next_key(key_cksum()) + (enc_str(d.cksum) + (enc_line_part2(d)))), rest);
    lemma_p_lit_inv(s, jj3, enc_next_key(key_deps()), (enc_deps(d.deps) + (enc_next_key(key_cksum()) + (enc_str(d.cksum) + (enc_line_part2(d))))) + rest);
    let jj4 = jj3 + enc_next_key(key_deps()).len();
    lemma_concat_associative(enc_deps(d.deps), enc_next_key(key_cksum()) + (enc_str(d.cksum) + (enc_line_part2(d))), rest);
    lemma_p_deps_inv(s, jj4, d.deps, (enc_next_key(key_cksum()) + (enc_str(d.cksum) + (enc_line_part2(d)))) + rest);
    let jj5 = jj4 + enc_deps(d.deps).len();
    lemma_concat_associative(enc_next_key(key_cksum()), enc_str(d.cksum) + (enc_line_part2(d)), rest);
    lemma_p_lit_inv(s, jj5, enc_next_key(key_cksum()), (enc_str(d.cksum) + (enc_line_part2(d))) + rest);
    let jj6 = jj5 + enc_next_key(key_cksum()).len();
    lemma_concat_associative(enc_str(d.cksum), enc_next_key(key_features()) + (enc_features(d.features) + (enc_next_key(key_yanked()) + (enc_bool(d.yanked) + (enc_next_key(key_links()) + (enc_opt_str(d.links) + (enc_next_key(key_v()) + (enc_u32(d.v) + (enc_next_key(key_features2()) + (enc_opt_features(d.features2) + (enc_next_key(key_rust_version()) + (enc_opt_str(d.rust_version) + (seq![125u8])))))))))))), rest);
    lemma_p_str_inv(s, jj6, d.cksum, (enc_next_key(key_features()) + (enc_features(d.features) + (enc_next_key(key_yanked()) + (enc_bool(d.yanked) + (enc_next_key(key_links()) + (enc_opt_str(d.links) + (enc_next_key(key_v()) + (enc_u32(d.v) + (enc_next_key(key_features2()) + (enc_opt_features(d.features2) + (enc_next_key(key_rust_version()) + (enc_opt_str(d.rust_version) + (seq![125u8]))))))))))))) + rest);
    let jj7 = jj6 + enc_str(d.cksum).len();
    assert(p_line_head(s, i) == Option::Some(((d.name, d.vers, d.deps, d.cksum), jj7)));
}

/// The later fields of an encoded index line parse back.
#[verifier::rlimit(100)]
#[verifier::spinoff_prover]
proof fn lemma_p_line_tail_inv(s: Seq<u8>, i: int, d: IndexDataView, rest: Seq<u8>)
    requires
        0 <= i <= s.len(),
        s.subrange(i, s.len() as int) == enc_line_part2(d) + rest,
    ensures
        p_line_tail(s, i) == Option::Some(((d.features, d.yanked, d.links, d.v, d.features2, d.rust_version), i + enc_line_part2(d).len())),
        i + enc_line_part2(d).len() + rest.len() == s.len(),
        s.subrange(i + enc_line_part2(d).len(), s.len() as int) == rest,
{
    lemma_concat_associative(enc_next_key(key_features()), enc_features(d.features) + (enc_next_key(key_yanked()) + (enc_bool(d.yanked) + (enc_next_key(key_links()) + (enc_opt_str(d.links) + (enc_next_key(key_v()) + (enc_u32(d.v) + (enc_next_key(key_features2()) + (enc_opt_features(d.features2) + (enc_next_key(key_rust_version()) + (enc_opt_str(d.rust_version) + (seq![125u8]))))))))))), rest);
    lemma_p_lit_inv(s, i, enc_next_key(key_features()), (enc_features(d.features) + (enc_next_key(key_yanked()) + (enc_bool(d.yanked) + (enc_next_key(key_links()) + (enc_opt_str(d.links) + (enc_next_key(key_v()) + (enc_u32(d.v) + (enc_next_key(key_features2()) + (enc_opt_features(d.features2) + (enc_next_key(key_rust_version()) + (enc_opt_str(d.rust_version) + (seq![125u8])))))))))))) + rest);
    let jj8 = i + enc_next_key(key_features()).len();
    lemma_concat_associative(enc_features(d.features), enc_next_key(key_yanked()) + (enc_bool(d.yanked) + (enc_next_key(key_links()) + (enc_opt_str(d.links) + (enc_next_key(key_v()) + (enc_u32(d.v) + (enc_next_key(key_features2()) + (enc_opt_features(d.features2) + (enc_next_key(key_rust_version()) + (enc_opt_str(d.rust_version) + (seq![125u8])))))))))), rest);
    lemma_p_features_inv(s, jj8, d.features, (enc_next_key(key_yanked()) + (enc_bool(d.yanked) + (enc_next_key(key_links()) + (enc_opt_str(d.links) + (enc_next_key(key_v()) + (enc_u32(d.v) + (enc_next_key(key_features2()) + (enc_opt_features(d.features2) + (enc_next_key(key_rust_version()) + (enc_opt_str(d.rust_version) + (seq![125u8]))))))))))) + rest);
    let jj9 = jj8 + enc_features(d.features).len();
    lemma_concat_associative(enc_next_key(key_yanked()), enc_bool(d.yanked) + (enc_next_key(key_links()) + (enc_opt_str(d.links) + (enc_next_key(key_v()) + (enc_u32(d.v) + (enc_next_key(key_features2()) + (enc_opt_features(d.features2) + (enc_next_key(key_rust_version()) + (enc_opt_str(d.rust_version) + (seq![125u8]))))))))), rest);
    lemma_p_lit_inv(s, jj9, enc_next_key(key_yanked()), (enc_bool(d.yanked) + (enc_next_key(key_links()) + (enc_opt_str(d.links) + (enc_next_key(key_v()) + (enc_u32(d.v) + (enc_next_key(key_features2()) + (enc_opt_features(d.features2) + (enc_next_key(key_rust_version()) + (enc_opt_str(d.rust_version) + (seq![125u8])))))))))) + rest);
    let jj10 = jj9 + enc_next_key(key_yanked()).len();
    lemma_concat_associative(enc_bool(d.yanked), enc_next_key(key_links()) + (enc_opt_str(d.links) + (enc_next_key(key_v()) + (enc_u32(d.v) + (enc_next_key(key_features2()) + (enc_opt_features(d.features2) + (enc_next_key(key_rust_version()) + (enc_opt_str(d.rust_version) + (seq![125u8])))))))), rest);
    lemma_p_bool_inv(s, jj10, d.yanked, (enc_next_key(key_links()) + (enc_opt_str(d.links) + (enc_next_key(key_v()) + (enc_u32(d.v) + (enc_next_key(key_features2()) + (enc_opt_features(d.features2) + (enc_next_key(key_rust_version()) + (enc_opt_str(d.rust_version) + (seq![125u8]))))))))) + rest);
    let jj11 = jj10 + enc_bool(d.yanked).len();
    lemma_concat_associative(enc_next_key(key_links()), enc_opt_str(d.links) + (enc_next_key(key_v()) + (enc_u32(d.v) + (enc_next_key(key_features2()) + (enc_opt_features(d.features2) + (enc_next_key(key_rust_version()) + (enc_opt_str(d.rust_version) + (seq![125u8]))))))), rest);
    lemma_p_lit_inv(s, jj11, enc_next_key(key_links()), (enc_opt_str(d.links) + (enc_next_key(key_v()) + (enc_u32(d.v) + (enc_next_key(key_features2()) + (enc_opt_features(d.features2) + (enc_next_key(key_rust_version()) + (enc_opt_str(d.rust_version) + (seq![125u8])))))))) + rest);
    let jj12 = jj11 + enc_next_key(key_links()).len();
    lemma_concat_associative(enc_opt_str(d.links), enc_next_key(key_v()) + (enc_u32(d.v) + (enc_next_key(key_features2()) + (enc_opt_features(d.features2) + (enc_next_key(key_rust_version()) + (enc_opt_str(d.rust_version) + (seq![125u8])))))), rest);
    lemma_p_opt_str_inv(s, jj12, d.links, (enc_next_key(key_v()) + (enc_u32(d.v) + (enc_next_key(key_features2()) + (enc_opt_features(d.features2) + (enc_next_key(key_rust_version()) + (enc_opt_str(d.rust_version) + (seq![125u8]))))))) + rest);
    let jj13 = jj12 + enc_opt_str(d.links).len();
    lemma_concat_associative(enc_next_key(key_v()), enc_u32(d.v) + (enc_next_key(key_features2()) + (enc_opt_features(d.features2) + (enc_next_key(key_rust_version()) + (enc_opt_str(d.rust_version) + (seq![125u8]))))), rest);
    lemma_p_lit_inv(s, jj13, enc_next_key(key_v()), (enc_u32(d.v) + (enc_next_key(key_features2()) + (enc_opt_features(d.features2) + (enc_next_key(key_rust_version()) + (enc_opt_str(d.rust_version) + (seq![125u8])))))) + rest);
    let jj14 = jj13 + enc_next_key(key_v()).len();
    lemma_concat_associative(enc_u32(d.v), enc_next_key(key_features2()) + (enc_opt_features(d.features2) + (enc_next_key(key_rust_version()) + (enc_opt_str(d.rust_version) + (seq![125u8])))), rest);
    assert(((enc_next_key(key_features2()) + (enc_opt_features(d.features2) + (enc_next_key(key_rust_version()) + (enc_opt_str(d.rust_version) + (seq![125u8]))))) + rest)[0] == 44) by {
        assert((seq![44u8, 34u8] + key_features2())[0] == 44);
        assert(enc_next_key(key_features2())[0] == 44);
        assert((enc_next_key(key_features2()) + (enc_opt_features(d.features2) + (enc_next_key(key_rust_version()) + (enc_opt_str(d.rust_version) + (seq![125u8])))))[0] == 44);
    }
    lemma_p_u32_inv(s, jj14, d.v, (enc_next_key(key_features2()) + (enc_opt_features(d.features2) + (enc_next_key(key_rust_version()) + (enc_opt_str(d.rust_version) + (seq![125u8]))))) + rest);
    let jj15 = jj14 + enc_u32(d.v).len();
    lemma_concat_associative(enc_next_key(key_features2()), enc_opt_features(d.features2) + (enc_next_key(key_rust_version()) + (enc_opt_str(d.rust_version) + (seq![125u8]))), rest);
    lemma_p_lit_inv(s, jj15, enc_next_key(key_features2()), (enc_opt_features(d.features2) + (enc_next_key(key_rust_version()) + (enc_opt_str(d.rust_version) + (seq![125u8])))) + rest);
    let jj16 = jj15 + enc_next_key(key_features2()).len();
    lemma_concat_associative(enc_opt_features(d.features2), enc_next_key(key_rust_version()) + (enc_opt_str(d.rust_version) + (seq![125u8])), rest);
    lemma_p_opt_features_inv(s, jj16, d.features2, (enc_next_key(key_rust_version()) + (enc_opt_str(d.rust_version) + (seq![125u8]))) + rest);
    let jj17 = jj16 + enc_opt_features(d.features2).len();
    lemma_concat_associative(enc_next_key(key_rust_version()), enc_opt_str(d.rust_version) + (seq![125u8]), rest);
    lemma_p_lit_inv(s, jj17, enc_next_key(key_rust_version()), (enc_opt_str(d.rust_version) + (seq![125u8])) + rest);
    let jj18 = jj17 + enc_next_key(key_rust_version()).len();
    lemma_concat_associative(enc_opt_str(d.rust_version), seq![125u8], rest);
    lemma_p_opt_str_inv(s, jj18, d.rust_version, (seq![125u8]) + rest);
    let jj19 = jj18 + enc_opt_str(d.rust_version).len();
    lemma_p_lit_inv(s, jj19, seq![125u8], rest);
    let jj20 = jj19 + 1;
    assert(p_line_tail(s, i) == Option::Some(((d.features, d.yanked, d.links, d.v, d.features2, d.rust_version), jj20)));
}

/// An index line parses back to the entry it encodes.
#[verifier::rlimit(100)]
#[verifier::spinoff_prover]
proof fn lemma_p_line_inv(s: Seq<u8>, i: int, d: IndexDataView, rest: Seq<u8>)
    requires
        0 <= i <= s.len(),
        s.subrange(i, s.len() as int) == enc_line(d) + rest,
    ensures
        p_line(s, i) == Option::Some((d, i + enc_line(d).len())),
        i + enc_line(d).len() + rest.len() == s.len(),
        s.subrange(i + enc_line(d).len(), s.len() as int) == rest,
{
    reveal(p_line);
    lemma_p_line_head_inv(s, i, d, rest);
    lemma_p_line_tail_inv(s, i + enc_line(d).len() - enc_line_part2(d).len(), d, rest);
}

// ---------------------------------------------------------------------------
// Executable parsing
// ---------------------------------------------------------------------------

/// The value of a lowercase hex digit.
fn hex_value(b: u8) -> (r: u8)
    requires
        is_hex_lower(b),
    ensures
        r == hex_val(b),
        r <= 15,
{
    if b < 97 {
        b - 48
    } else {
        b - 87
    }
}

/// Match an exact byte sequence at a position.
fn expect_lit(s: &Vec<u8>, i: usize, lit: &Vec<u8>) -> (r: Option<usize>)
    requires
        i <= s@.len(),
    ensures
        r is Some <==> p_lit(s@, i as int, lit@) is Some,
        r matches Option::Some(j) ==> p_lit(s@, i as int, lit@) == Option::Some(j as int) && j
            <= s@.len(),
{
    if lit.len() > s.len() - i {
        return Option::None;
    }
    let mut k: usize = 0;
    while k < lit.len()
        invariant
            i + lit@.len() <= s@.len(),
            s@.len() <= usize::MAX,
            k <= lit@.len(),
            forall|m: int| 0 <= m < k ==> s@[i + m] == lit@[m],
        decreases lit@.len() - k,
    {
        if s[i + k] != lit[k] {
            proof {
                assert(p_lit(s@, i as int, lit@) is None) by {
                    if s@.subrange(i as int, i + lit@.len()) == lit@ {
                        assert(s@.subrange(i as int, i + lit@.len())[k as int] == s@[i + k]);
                    }
                }
            }
            return Option::None;
        }
        k = k + 1;
    }
    proof {
        assert(s@.subrange(i as int, i + lit@.len()) =~= lit@);
    }
    Option::Some(i + lit.len())
}

/// Parse a string body after the opening quote.
fn parse_strbody(s: &Vec<u8>, i: usize) -> (r: Option<(Vec<u8>, usize)>)
    requires
        i <= s@.len(),
    ensures
        r is Some <==> p_strbody(s@, i as int) is Some,
        r matches Option::Some(p) ==> p_strbody(s@, i as int) == Option::Some((p.0@, p.1 as int))
            && p.1 <= s@.len(),
{
    let mut out: Vec<u8> = Vec::new();
    let mut cur: usize = i;
    proof {
        lemma_p_strbody_pos(s@, i as int);
    }
    loop
        invariant
            i <= cur <= s@.len(),
            (match p_strbody(s@, cur as int) {
                Option::Some(t) => p_strbody(s@, i as int) == Option::Some((out@ + t.0, t.1))
                    && t.1 <= s@.len(),
                Option::None => p_strbody(s@, i as int) is None,
            }),
        decreases s@.len() - cur,
    {
        proof {
            lemma_p_strbody_pos(s@, cur as int);
        }
        if cur >= s.len() {
            return Option::None;
        }
        let b = s[cur];
        if b == 34 {
            proof {
                assert(out@ + Seq::<u8>::empty() =~= out@);
            }
            return Option::Some((out, cur + 1));
        } else if b == 92 {
            if cur + 1 >= s.len() {
                return Option::None;
            }
            let e = s[cur + 1];
            if e == 34 || e == 92 {
                let ghost pre = out@;
                out.push(e);
                proof {
                    assert(out@ =~= pre + seq![e]);
                    let ot = p_strbody(s@, cur + 2);
                    if ot is Some {
                        lemma_concat_associative(pre, seq![e], ot.unwrap().0);
                    }
                }
                cur = cur + 2;
            } else if e == 117 {
                if s.len() - cur < 6 {
                    return Option::None;
                }
                let h1 = s[cur + 4];
                let h2 = s[cur + 5];
                if s[cur + 2] == 48 && s[cur + 3] == 48 && (48 <= h1 && h1 <= 57 || 97 <= h1
                    && h1 <= 102) && (48 <= h2 && h2 <= 57 || 97 <= h2 && h2 <= 102) {
                    let v = hex_value(h1) * 16 + hex_value(h2);
                    let ghost pre = out@;
                    out.push(v);
                    proof {
                        assert(out@ =~= pre + seq![v]);
                        let ot = p_strbody(s@, cur + 6);
                        if ot is Some {
                            lemma_concat_associative(pre, seq![v], ot.unwrap().0);
                        }
                    }
                    cur = cur + 6;
                } else {
                    return Option::None;
                }
            } else {
                return Option::None;
            }
        } else {
            let ghost pre = out@;
            out.push(b);
            proof {
                assert(out@ =~= pre + seq![b]);
                let ot = p_strbody(s@, cur + 1);
                if ot is Some {
                    lemma_concat_associative(pre, seq![b], ot.unwrap().0);
                }
            }
            cur = cur + 1;
        }
    }
}

/// Parse a JSON string literal at a position.
fn parse_str(s: &Vec<u8>, i: usize) -> (r: Option<(Vec<u8>, usize)>)
    requires
        i <= s@.len(),
    ensures
        r is Some <==> p_str(s@, i as int) is Some,
        r matches Option::Some(p) ==> p_str(s@, i as int) == Option::Some((p.0@, p.1 as int))
            && i < p.1 <= s@.len(),
{
    proof {
        lemma_p_str_pos(s@, i as int);
    }
    if i < s.len() && s[i] == 34 {
        parse_strbody(s, i + 1)
    } else {
        Option::None
    }
}

/// Parse `true` or `false` at a position.
fn parse_bool(s: &Vec<u8>, i: usize) -> (r: Option<(bool, usize)>)
    requires
        i <= s@.len(),
    ensures
        r is Some <==> p_bool(s@, i as int) is Some,
        r matches Option::Some(p) ==> p_bool(s@, i as int) == Option::Some((p.0, p.1 as int))
            && p.1 <= s@.len(),
{
    let tlit: Vec<u8> = vec![116u8, 114u8, 117u8, 101u8];
    proof {
        assert(tlit@ =~= enc_bool(true));
    }
    match expect_lit(s, i, &tlit) {
        Option::Some(j) => Option::Some((true, j)),
        Option::None => {
            let flit: Vec<u8> = vec![102u8, 97u8, 108u8, 115u8, 101u8];
            proof {
                assert(flit@ =~= enc_bool(false));
            }
            match expect_lit(s, i, &flit) {
                Option::Some(j) => Option::Some((false, j)),
                Option::None => Option::None,
            }
        },
    }
}

/// Parser results only grow with a larger accumulator.
proof fn lemma_p_digits_ge_acc(s: Seq<u8>, i: int, acc: nat)
    ensures
        p_digits(s, i, acc).0 >= acc,
    decreases s.len() - i,
{
    if 0 <= i && i < s.len() && is_digit(s[i]) {
        lemma_p_digits_ge_acc(s, i + 1, acc * 10 + (s[i] - 48) as nat);
    }
}

/// Parse a decimal number as a `u32` at a position.
fn parse_u32(s: &Vec<u8>, i: usize) -> (r: Option<(u32, usize)>)
    requires
        i <= s@.len(),
    ensures
        r is Some <==> p_u32(s@, i as int) is Some,
        r matches Option::Some(p) ==> p_u32(s@, i as int) == Option::Some((p.0, p.1 as int))
            && p.1 <= s@.len(),
{
    if !(i < s.len() && 48 <= s[i] && s[i] <= 57) {
        return Option::None;
    }
    let mut acc: u64 = 0;
    let mut cur: usize = i;
    while cur < s.len() && 48 <= s[cur] && s[cur] <= 57
        invariant
            i <= cur <= s@.len(),
            acc <= 0xFFFF_FFFFu64 * 10 + 9,
            p_digits(s@, i as int, 0) == p_digits(s@, cur as int, acc as nat),
        decreases s@.len() - cur,
    {
        if acc > 0xFFFF_FFFF {
            proof {
                lemma_p_digits_ge_acc(s@, cur as int, acc as nat);
            }
            return Option::None;
        }
        let d = s[cur] - 48;
        acc = acc * 10 + d as u64;
        cur = cur + 1;
    }
    if acc > 0xFFFF_FFFF {
        return Option::None;
    }
    Option::Some((acc as u32, cur))
}

/// Parse `null` or a string at a position.
fn parse_opt_str(s: &Vec<u8>, i: usize) -> (r: Option<(Option<Vec<u8>>, usize)>)
    requires
        i <= s@.len(),
    ensures
        r is Some <==> p_opt_str(s@, i as int) is Some,
        r matches Option::Some(p) ==> p_opt_str(s@, i as int) == Option::Some(
            (crate::index::opt_bytes_view(p.0), p.1 as int),
        ) && p.1 <= s@.len(),
{
    if i < s.len() && s[i] == 110 {
        let nlit: Vec<u8> = vec![110u8, 117u8, 108u8, 108u8];
        proof {
            assert(nlit@ =~= enc_null());
        }
        match expect_lit(s, i, &nlit) {
            Option::Some(j) => Option::Some((Option::None, j)),
            Option::None => Option::None,
        }
    } else {
        match parse_str(s, i) {
            Option::Some(p) => Option::Some((Option::Some(p.0), p.1)),
            Option::None => Option::None,
        }
    }
}

/// Parse a JSON array of strings at a position.
fn parse_str_arr(s: &Vec<u8>, i: usize) -> (r: Option<(Vec<Vec<u8>>, usize)>)
    requires
        i <= s@.len(),
    ensures
        r is Some <==> p_str_arr(s@, i as int) is Some,
        r matches Option::Some(p) ==> p_str_arr(s@, i as int) == Option::Some(
            (bytes_seq_view(p.0@), p.1 as int),
        ) && p.1 <= s@.len(),
{
    if !(i < s.len() && s[i] == 91) {
        return Option::None;
    }
    if i + 1 < s.len() && s[i + 1] == 93 {
        let empty: Vec<Vec<u8>> = Vec::new();
        proof {
            assert(bytes_seq_view(empty@) =~= Seq::<Seq<u8>>::empty());
        }
        return Option::Some((empty, i + 2));
    }
    let mut out: Vec<Vec<u8>> = Vec::new();
    let mut cur: usize = i + 1;
    proof {
        assert(bytes_seq_view(out@) =~= Seq::<Seq<u8>>::empty());
        let ot = p_str_items(s@, i + 1);
        if ot is Some {
            assert(bytes_seq_view(out@) + ot.unwrap().0 =~= ot.unwrap().0);
            lemma_p_str_items_pos(s@, i + 1);
        }
    }
    loop
        invariant
            i + 1 <= cur <= s@.len(),
            i < s@.len(),
            s@[i as int] == 91,
            !(i + 1 < s@.len() && s@[i + 1] == 93),
            (match p_str_items(s@, cur as int) {
                Option::Some(t) => p_str_items(s@, i + 1) == Option::Some(
                    (bytes_seq_view(out@) + t.0, t.1),
                ) && t.1 <= s@.len(),
                Option::None => p_str_items(s@, i + 1) is None,
            }),
        decreases s@.len() - cur,
    {
        proof {
            lemma_p_str_items_pos(s@, cur as int);
        }
        match parse_str(s, cur) {
            Option::None => {
                return Option::None;
            },
            Option::Some((v, j)) => {
                let ghost pre = out@;
                out.push(v);
                proof {
                    assert(bytes_seq_view(out@) =~= bytes_seq_view(pre) + seq![v@]);
                }
                if j < s.len() && s[j] == 44 {
                    proof {
                        let ot = p_str_items(s@, j + 1);
                        if ot is Some {
                            lemma_concat_associative(bytes_seq_view(pre), seq![v@],
                                ot.unwrap().0);
                            lemma_p_str_items_pos(s@, j + 1);
                        }
                    }
                    cur = j + 1;
                } else if j < s.len() && s[j] == 93 {
                    return Option::Some((out, j + 1));
                } else {
                    return Option::None;
                }
            },
        }
    }
}

/// Parse one feature-table pair at a position.
fn parse_feature(s: &Vec<u8>, i: usize) -> (r: Option<(FeatureEntry, usize)>)
    requires
        i <= s@.len(),
    ensures
        r is Some <==> p_feature(s@, i as int) is Some,
        r matches Option::Some(p) ==> p_feature(s@, i as int) == Option::Some(
            (p.0@, p.1 as int),
        ) && i < p.1 <= s@.len(),
{
    proof {
        lemma_p_feature_pos(s@, i as int);
    }
    match parse_str(s, i) {
        Option::None => Option::None,
        Option::Some((name, j)) => {
            if j < s.len() && s[j] == 58 {
                match parse_str_arr(s, j + 1) {
                    Option::Some((values, j2)) => Option::Some(
                        (FeatureEntry { name, values }, j2),
                    ),
                    Option::None => Option::None,
                }
            } else {
                Option::None
            }
        },
    }
}

/// Parse a feature table at a position.
fn parse_features(s: &Vec<u8>, i: usize) -> (r: Option<(Vec<FeatureEntry>, usize)>)
    requires
        i <= s@.len(),
    ensures
        r is Some <==> p_features(s@, i as int) is Some,
        r matches Option::Some(p) ==> p_features(s@, i as int) == Option::Some(
            (features_view(p.0@), p.1 as int),
        ) && p.1 <= s@.len(),
{
    if !(i < s.len() && s[i] == 123) {
        return Option::None;
    }
    if i + 1 < s.len() && s[i + 1] == 125 {
        let empty: Vec<FeatureEntry> = Vec::new();
        proof {
            assert(features_view(empty@) =~= Seq::<FeatureEntryView>::empty());
        }
        return Option::Some((empty, i + 2));
    }
    let mut out: Vec<FeatureEntry> = Vec::new();
    let mut cur: usize = i + 1;
    proof {
        assert(features_view(out@) =~= Seq::<FeatureEntryView>::empty());
        let ot = p_feature_items(s@, i + 1);
        if ot is Some {
            assert(features_view(out@) + ot.unwrap().0 =~= ot.unwrap().0);
            lemma_p_feature_items_pos(s@, i + 1);
        }
    }
    loop
        invariant
            i + 1 <= cur <= s@.len(),
            i < s@.len(),
            s@[i as int] == 123,
            !(i + 1 < s@.len() && s@[i + 1] == 125),
            (match p_feature_items(s@, cur as int) {
                Option::Some(t) => p_feature_items(s@, i + 1) == Option::Some(
                    (features_view(out@) + t.0, t.1),
                ) && t.1 <= s@.len(),
                Option::None => p_feature_items(s@, i + 1) is None,
            }),
        decreases s@.len() - cur,
    {
        proof {
            lemma_p_feature_items_pos(s@, cur as int);
        }
        match parse_feature(s, cur) {
            Option::None => {
                return Option::None;
            },
            Option::Some((f, j)) => {
                let ghost pre = out@;
                out.push(f);
                proof {
                    assert(features_view(out@) =~= features_view(pre) + seq![f@]);
                }
                if j < s.len() && s[j] == 44 {
                    proof {
                        let ot = p_feature_items(s@, j + 1);
                        if ot is Some {
                            lemma_concat_associative(features_view(pre), seq![f@],
                                ot.unwrap().0);
                            lemma_p_feature_items_pos(s@, j + 1);
                        }
                    }
                    cur = j + 1;
                } else if j < s.len() && s[j] == 125 {
                    return Option::Some((out, j + 1));
                } else {
                    return Option::None;
                }
            },
        }
    }
}

/// Parse `null` or a feature table at a position.
fn parse_opt_features(s: &Vec<u8>, i: usize) -> (r: Option<(Option<Vec<FeatureEntry>>, usize)>)
    requires
        i <= s@.len(),
    ensures
        r is Some <==> p_opt_features(s@, i as int) is Some,
        r matches Option::Some(p) ==> p_opt_features(s@, i as int) == Option::Some(
            (crate::index::opt_features_view(p.0), p.1 as int),
        ) && p.1 <= s@.len(),
{
    if i < s.len() && s[i] == 110 {
        let nlit: Vec<u8> = vec![110u8, 117u8, 108u8, 108u8];
        proof {
            assert(nlit@ =~= enc_null());
        }
        match expect_lit(s, i, &nlit) {
            Option::Some(j) => Option::Some((Option::None, j)),
            Option::None => Option::None,
        }
    } else {
        match parse_features(s, i) {
            Option::Some(p) => Option::Some((Option::Some(p.0), p.1)),
            Option::None => Option::None,
        }
    }
}

/// Parse the earlier fields of a dependency record at a position.
#[verifier::rlimit(100)]
#[verifier::spinoff_prover]
fn parse_dep_head(s: &Vec<u8>, i: usize) -> (r: Option<((Vec<u8>, Vec<u8>, Vec<Vec<u8>>, bool, bool), usize)>)
    requires
        i <= s@.len(),
    ensures
        r is Some <==> p_dep_head(s@, i as int) is Some,
        r matches Option::Some(p) ==> p_dep_head(s@, i as int) == Option::Some(((p.0.0@, p.0.1@, bytes_seq_view(p.0.2@), p.0.3, p.0.4), p.1 as int)) && p.1 <= s@.len(),
{
    let lit0: Vec<u8> = vec![123u8, 34u8, 110u8, 97u8, 109u8, 101u8, 34u8, 58u8];
    proof { assert(lit0@ =~= enc_first_key(key_name())); }
    let j0 = match expect_lit(s, i, &lit0) {
        Option::Some(j) => j,
        Option::None => { return Option::None; },
    };
    let (v1, j1) = match parse_str(s, j0) {
        Option::Some(p) => p,
        Option::None => { return Option::None; },
    };
    let lit2: Vec<u8> = vec![44u8, 34u8, 114u8, 101u8, 113u8, 34u8, 58u8];
    proof { assert(lit2@ =~= enc_next_key(key_req())); }
    let j2 = match expect_lit(s, j1, &lit2) {
        Option::Some(j) => j,
        Option::None => { return Option::None; },
    };
    let (v3, j3) = match parse_str(s, j2) {
        Option::Some(p) => p,
        Option::None => { return Option::None; },
    };
    let lit4: Vec<u8> = vec![44u8, 34u8, 102u8, 101u8, 97u8, 116u8, 117u8, 114u8, 101u8, 115u8, 34u8, 58u8];
    proof { assert(lit4@ =~= enc_next_key(key_features())); }
    let j4 = match expect_lit(s, j3, &lit4) {
        Option::Some(j) => j,
        Option::None => { return Option::None; },
    };
    let (v5, j5) = match parse_str_arr(s, j4) {
        Option::Some(p) => p,
        Option::None => { return Option::None; },
    };
    let lit6: Vec<u8> = vec![44u8, 34u8, 111u8, 112u8, 116u8, 105u8, 111u8, 110u8, 97u8, 108u8, 34u8, 58u8];
    proof { assert(lit6@ =~= enc_next_key(key_optional())); }
    let j6 = match expect_lit(s, j5, &lit6) {
        Option::Some(j) => j,
        Option::None => { return Option::None; },
    };
    let (v7, j7) = match parse_bool(s, j6) {
        Option::Some(p) => p,
        Option::None => { return Option::None; },
    };
    let lit8: Vec<u8> = vec![44u8, 34u8, 100u8, 101u8, 102u8, 97u8, 117u8, 108u8, 116u8, 95u8, 102u8, 101u8, 97u8, 116u8, 117u8, 114u8, 101u8, 115u8, 34u8, 58u8];
    proof { assert(lit8@ =~= enc_next_key(key_default_features())); }
    let j8 = match expect_lit(s, j7, &lit8) {
        Option::Some(j) => j,
        Option::None => { return Option::None; },
    };
    let (v9, j9) = match parse_bool(s, j8) {
        Option::Some(p) => p,
        Option::None => { return Option::None; },
    };
    Option::Some(((v1, v3, v5, v7, v9), j9))
}

/// Parse the later fields of a dependency record at a position.
#[verifier::rlimit(100)]
#[verifier::spinoff_prover]
fn parse_dep_tail(s: &Vec<u8>, i: usize) -> (r: Option<((Option<Vec<u8>>, Vec<u8>, Option<Vec<u8>>, Option<Vec<u8>>), usize)>)
    requires
        i <= s@.len(),
    ensures
        r is Some <==> p_dep_tail(s@, i as int) is Some,
        r matches Option::Some(p) ==> p_dep_tail(s@, i as int) == Option::Some(((crate::index::opt_bytes_view(p.0.0), p.0.1@, crate::index::opt_bytes_view(p.0.2), crate::index::opt_bytes_view(p.0.3)), p.1 as int)) && p.1 <= s@.len(),
{
    let lit10: Vec<u8> = vec![44u8, 34u8, 116u8, 97u8, 114u8, 103u8, 101u8, 116u8, 34u8, 58u8];
    proof { assert(lit10@ =~= enc_next_key(key_target())); }
    let j10 = match expect_lit(s, i, &lit10) {
        Option::Some(j) => j,
        Option::None => { return Option::None; },
    };
    let (v11, j11) = match parse_opt_str(s, j10) {
        Option::Some(p) => p,
        Option::None => { return Option::None; },
    };
    let lit12: Vec<u8> = vec![44u8, 34u8, 107u8, 105u8, 110u8, 100u8, 34u8, 58u8];
    proof { assert(lit12@ =~= enc_next_key(key_kind())); }
    let j12 = match expect_lit(s, j11, &lit12) {
        Option::Some(j) => j,
        Option::None => { return Option::None; },
    };
    let (v13, j13) = match parse_str(s, j12) {
        Option::Some(p) => p,
        Option::None => { return Option::None; },
    };
    let lit14: Vec<u8> = vec![44u8, 34u8, 114u8, 101u8, 103u8, 105u8, 115u8, 116u8, 114u8, 121u8, 34u8, 58u8];
    proof { assert(lit14@ =~= enc_next_key(key_registry())); }
    let j14 = match expect_lit(s, j13, &lit14) {
        Option::Some(j) => j,
        Option::None => { return Option::None; },
    };
    let (v15, j15) = match parse_opt_str(s, j14) {
        Option::Some(p) => p,
        Option::None => { return Option::None; },
    };
    let lit16: Vec<u8> = vec![44u8, 34u8, 112u8, 97u8, 99u8, 107u8, 97u8, 103u8, 101u8, 34u8, 58u8];
    proof { assert(lit16@ =~= enc_next_key(key_package())); }
    let j16 = match expect_lit(s, j15, &lit16) {
        Option::Some(j) => j,
        Option::None => { return Option::None; },
    };
    let (v17, j17) = match parse_opt_str(s, j16) {
        Option::Some(p) => p,
        Option::None => { return Option::None; },
    };
    let lit18: Vec<u8> = vec![125u8];
    proof { assert(lit18@ =~= seq![125u8]); }
    let j18 = match expect_lit(s, j17, &lit18) {
        Option::Some(j) => j,
        Option::None => { return Option::None; },
    };
    Option::Some(((v11, v13, v15, v17), j18))
}

/// Parse one dependency record at a position.
fn parse_dep(s: &Vec<u8>, i: usize) -> (r: Option<(Dependency, usize)>)
    requires
        i <= s@.len(),
    ensures
        r is Some <==> p_dep(s@, i as int) is Some,
        r matches Option::Some(p) ==> p_dep(s@, i as int) == Option::Some((p.0@, p.1 as int)) && p.1 <= s@.len(),
{
    proof {
        reveal(p_dep);
    }
    match parse_dep_head(s, i) {
        Option::None => Option::None,
        Option::Some((t1, j1)) => match parse_dep_tail(s, j1) {
            Option::None => Option::None,
            Option::Some((t2, j2)) => Option::Some((Dependency { name: t1.0, req: t1.1, features: t1.2, optional: t1.3, default_features: t1.4, target: t2.0, kind: t2.1, registry: t2.2, package: t2.3 }, j2)),
        },
    }
}

/// Parse the earlier fields of an index entry at a position.
#[verifier::rlimit(100)]
#[verifier::spinoff_prover]
fn parse_line_head(s: &Vec<u8>, i: usize) -> (r: Option<((Vec<u8>, Vec<u8>, Vec<Dependency>, Vec<u8>), usize)>)
    requires
        i <= s@.len(),
    ensures
        r is Some <==> p_line_head(s@, i as int) is Some,
        r matches Option::Some(p) ==> p_line_head(s@, i as int) == Option::Some(((p.0.0@, p.0.1@, deps_view(p.0.2@), p.0.3@), p.1 as int)) && p.1 <= s@.len(),
{
    let lit0: Vec<u8> = vec![123u8, 34u8, 110u8, 97u8, 109u8, 101u8, 34u8, 58u8];
    proof { assert(lit0@ =~= enc_first_key(key_name())); }
    let j0 = match expect_lit(s, i, &lit0) {
        Option::Some(j) => j,
        Option::None => { return Option::None; },
    };
    let (v1, j1) = match parse_str(s, j0) {
        Option::Some(p) => p,
        Option::None => { return Option::None; },
    };
    let lit2: Vec<u8> = vec![44u8, 34u8, 118u8, 101u8, 114u8, 115u8, 34u8, 58u8];
    proof { assert(lit2@ =~= enc_next_key(key_vers())); }
    let j2 = match expect_lit(s, j1, &lit2) {
        Option::Some(j) => j,
        Option::None => { return Option::None; },
    };
    let (v3, j3) = match parse_str(s, j2) {
        Option::Some(p) => p,
        Option::None => { return Option::None; },
    };
    let lit4: Vec<u8> = vec![44u8, 34u8, 100u8, 101u8, 112u8, 115u8, 34u8, 58u8];
    proof { assert(lit4@ =~= enc_next_key(key_deps())); }
    let j4 = match expect_lit(s, j3, &lit4) {
        Option::Some(j) => j,
        Option::None => { return Option::None; },
    };
    let (v5, j5) = match parse_deps(s, j4) {
        Option::Some(p) => p,
        Option::None => { return Option::None; },
    };
    let lit6: Vec<u8> = vec![44u8, 34u8, 99u8, 107u8, 115u8, 117u8, 109u8, 34u8, 58u8];
    proof { assert(lit6@ =~= enc_next_key(key_cksum())); }
    let j6 = match expect_lit(s, j5, &lit6) {
        Option::Some(j) => j,
        Option::None => { return Option::None; },
    };
    let (v7, j7) = match parse_str(s, j6) {
        Option::Some(p) => p,
        Option::None => { return Option::None; },
    };
    Option::Some(((v1, v3, v5, v7), j7))
}

/// Parse the later fields of an index entry at a position.
#[verifier::rlimit(100)]
#[verifier::spinoff_prover]
fn parse_line_tail(s: &Vec<u8>, i: usize) -> (r: Option<((Vec<FeatureEntry>, bool, Option<Vec<u8>>, u32, Option<Vec<FeatureEntry>>, Option<Vec<u8>>), usize)>)
    requires
        i <= s@.len(),
    ensures
        r is Some <==> p_line_tail(s@, i as int) is Some,
        r matches Option::Some(p) ==> p_line_tail(s@, i as int) == Option::Some(((features_view(p.0.0@), p.0.1, crate::index::opt_bytes_view(p.0.2), p.0.3, crate::index::opt_features_view(p.0.4), crate::index::opt_bytes_view(p.0.5)), p.1 as int)) && p.1 <= s@.len(),
{
    let lit8: Vec<u8> = vec![44u8, 34u8, 102u8, 101u8, 97u8, 116u8, 117u8, 114u8, 101u8, 115u8, 34u8, 58u8];
    proof { assert(lit8@ =~= enc_next_key(key_features())); }
    let j8 = match expect_lit(s, i, &lit8) {
        Option::Some(j) => j,
        Option::None => { return Option::None; },
    };
    let (v9, j9) = match parse_features(s, j8) {
        Option::Some(p) => p,
        Option::None => { return Option::None; },
    };
    let lit10: Vec<u8> = vec![44u8, 34u8, 121u8, 97u8, 110u8, 107u8, 101u8, 100u8, 34u8, 58u8];
    proof { assert(lit10@ =~= enc_next_key(key_yanked())); }
    let j10 = match expect_lit(s, j9, &lit10) {
        Option::Some(j) => j,
        Option::None => { return Option::None; },
    };
    let (v11, j11) = match parse_bool(s, j10) {
        Option::Some(p) => p,
        Option::None => { return Option::None; },
    };
    let lit12: Vec<u8> = vec![44u8, 34u8, 108u8, 105u8, 110u8, 107u8, 115u8, 34u8, 58u8];
    proof { assert(lit12@ =~= enc_next_key(key_links())); }
    let j12 = match expect_lit(s, j11, &lit12) {
        Option::Some(j) => j,
        Option::None => { return Option::None; },
    };
    let (v13, j13) = match parse_opt_str(s, j12) {
        Option::Some(p) => p,
        Option::None => { return Option::None; },
    };
    let lit14: Vec<u8> = vec![44u8, 34u8, 118u8, 34u8, 58u8];
    proof { assert(lit14@ =~= enc_next_key(key_v())); }
    let j14 = match expect_lit(s, j13, &lit14) {
        Option::Some(j) => j,
        Option::None => { return Option::None; },
    };
    let (v15, j15) = match parse_u32(s, j14) {
        Option::Some(p) => p,
        Option::None => { return Option::None; },
    };
    let lit16: Vec<u8> = vec![44u8, 34u8, 102u8, 101u8, 97u8, 116u8, 117u8, 114u8, 101u8, 115u8, 50u8, 34u8, 58u8];
    proof { assert(lit16@ =~= enc_next_key(key_features2())); }
    let j16 = match expect_lit(s, j15, &lit16) {
        Option::Some(j) => j,
        Option::None => { return Option::None; },
    };
    let (v17, j17) = match parse_opt_features(s, j16) {
        Option::Some(p) => p,
        Option::None => { return Option::None; },
    };
    let lit18: Vec<u8> = vec![44u8, 34u8, 114u8, 117u8, 115u8, 116u8, 95u8, 118u8, 101u8, 114u8, 115u8, 105u8, 111u8, 110u8, 34u8, 58u8];
    proof { assert(lit18@ =~= enc_next_key(key_rust_version())); }
    let j18 = match expect_lit(s, j17, &lit18) {
        Option::Some(j) => j,
        Option::None => { return Option::None; },
    };
    let (v19, j19) = match parse_opt_str(s, j18) {
        Option::Some(p) => p,
        Option::None => { return Option::None; },
    };
    let lit20: Vec<u8> = vec![125u8];
    proof { assert(lit20@ =~= seq![125u8]); }
    let j20 = match expect_lit(s, j19, &lit20) {
        Option::Some(j) => j,
        Option::None => { return Option::None; },
    };
    Option::Some(((v9, v11, v13, v15, v17, v19), j20))
}

/// Parse one index entry at a position.
fn parse_line(s: &Vec<u8>, i: usize) -> (r: Option<(IndexData, usize)>)
    requires
        i <= s@.len(),
    ensures
        r is Some <==> p_line(s@, i as int) is Some,
        r matches Option::Some(p) ==> p_line(s@, i as int) == Option::Some((p.0@, p.1 as int)) && p.1 <= s@.len(),
{
    proof {
        reveal(p_line);
    }
    match parse_line_head(s, i) {
        Option::None => Option::None,
        Option::Some((t1, j1)) => match parse_line_tail(s, j1) {
            Option::None => Option::None,
            Option::Some((t2, j2)) => Option::Some((IndexData { name: t1.0, vers: t1.1, deps: t1.2, cksum: t1.3, features: t2.0, yanked: t2.1, links: t2.2, v: t2.3, features2: t2.4, rust_version: t2.5 }, j2)),
        },
    }
}

/// `enc_dep_items_rest` is a comma followed by the items.
proof fn lemma_dep_items_rest_unfold(w: Seq<DependencyView>)
    requires
        w.len() >= 1,
    ensures
        enc_dep_items_rest(w) == seq![44u8] + enc_dep_items(w),
{
    lemma_concat_associative(seq![44u8], enc_dep(w[0]), enc_dep_items_rest(w.skip(1)));
}

/// The first byte of an encoded dependency record is an opening brace.
proof fn lemma_enc_dep_first_byte(d: DependencyView)
    ensures
        enc_dep(d).len() > 0,
        enc_dep(d)[0] == 123,
{
    assert((seq![123u8, 34u8] + seq![110u8, 97u8, 109u8, 101u8])[0] == 123);
    assert(enc_first_key(seq![110u8, 97u8, 109u8, 101u8])[0] == 123);
}

proof fn lemma_p_dep_head_pos(s: Seq<u8>, i: int)
    ensures
        p_dep_head(s, i) matches Option::Some(r) ==> i < r.1 <= s.len(),
{
    match p_lit(s, i, enc_first_key(key_name())) {
        Option::None => {},
        Option::Some(j0) => {
            lemma_p_str_pos(s, j0);
            match p_str(s, j0) {
                Option::None => {},
                Option::Some(r1) => {
                    match p_lit(s, r1.1, enc_next_key(key_req())) {
                        Option::None => {},
                        Option::Some(j2) => {
                            lemma_p_str_pos(s, j2);
                            match p_str(s, j2) {
                                Option::None => {},
                                Option::Some(r3) => {
                                    match p_lit(s, r3.1, enc_next_key(key_features())) {
                                        Option::None => {},
                                        Option::Some(j4) => {
                                            lemma_p_str_arr_pos(s, j4);
                                            match p_str_arr(s, j4) {
                                                Option::None => {},
                                                Option::Some(r5) => {
                                                    match p_lit(s, r5.1, enc_next_key(key_optional())) {
                                                        Option::None => {},
                                                        Option::Some(j6) => {
                                                            lemma_p_bool_pos(s, j6);
                                                            match p_bool(s, j6) {
                                                                Option::None => {},
                                                                Option::Some(r7) => {
                                                                    match p_lit(s, r7.1, enc_next_key(key_default_features())) {
                                                                        Option::None => {},
                                                                        Option::Some(j8) => {
                                                                            lemma_p_bool_pos(s, j8);
                                                                            match p_bool(s, j8) {
                                                                                Option::None => {},
                                                                                Option::Some(r9) => {
                                                                                },
                                                                            }
                                                                        },
                                                                    }
                                                                },
                                                            }
                                                        },
                                                    }
                                                },
                                            }
                                        },
                                    }
                                },
                            }
                        },
                    }
                },
            }
        },
    }
}

proof fn lemma_p_dep_tail_pos(s: Seq<u8>, i: int)
    ensures
        p_dep_tail(s, i) matches Option::Some(r) ==> i < r.1 <= s.len(),
{
    match p_lit(s, i, enc_next_key(key_target())) {
        Option::None => {},
        Option::Some(j10) => {
            lemma_p_opt_str_pos(s, j10);
            match p_opt_str(s, j10) {
                Option::None => {},
                Option::Some(r11) => {
                    match p_lit(s, r11.1, enc_next_key(key_kind())) {
                        Option::None => {},
                        Option::Some(j12) => {
                            lemma_p_str_pos(s, j12);
                            match p_str(s, j12) {
                                Option::None => {},
                                Option::Some(r13) => {
                                    match p_lit(s, r13.1, enc_next_key(key_registry())) {
                                        Option::None => {},
                                        Option::Some(j14) => {
                                            lemma_p_opt_str_pos(s, j14);
                                            match p_opt_str(s, j14) {
                                                Option::None => {},
                                                Option::Some(r15) => {
                                                    match p_lit(s, r15.1, enc_next_key(key_package())) {
                                                        Option::None => {},
                                                        Option::Some(j16) => {
                                                            lemma_p_opt_str_pos(s, j16);
                                                            match p_opt_str(s, j16) {
                                                                Option::None => {},
                                                                Option::Some(r17) => {
                                                                    match p_lit(s, r17.1, seq![125u8]) {
                                                                        Option::None => {},
                                                                        Option::Some(j18) => {
                                                                        },
                                                                    }
                                                                },
                                                            }
                                                        },
                                                    }
                                                },
                                            }
                                        },
                                    }
                                },
                            }
                        },
                    }
                },
            }
        },
    }
}

proof fn lemma_p_dep_pos(s: Seq<u8>, i: int)
    ensures
        p_dep(s, i) matches Option::Some(r) ==> i < r.1 <= s.len(),
{
    reveal(p_dep);
    lemma_p_dep_head_pos(s, i);
    match p_dep_head(s, i) {
        Option::Some(t1) => {
            lemma_p_dep_tail_pos(s, t1.1);
        },
        Option::None => {},
    }
}

proof fn lemma_p_dep_items_pos(s: Seq<u8>, i: int)
    ensures
        p_dep_items(s, i) matches Option::Some(r) ==> i < r.1 <= s.len(),
    decreases s.len() - i,
{
    lemma_p_dep_pos(s, i);
    match p_dep(s, i) {
        Option::Some(r) => {
            let j = r.1;
            if j < s.len() && s[j] == 44 && i < j + 1 {
                lemma_p_dep_items_pos(s, j + 1);
            }
        },
        Option::None => {},
    }
}

/// The records of a non-empty dependency array, with the closing bracket,
/// parse back to the records they encode.
#[verifier::rlimit(100)]
#[verifier::spinoff_prover]
proof fn lemma_p_dep_items_inv(s: Seq<u8>, i: int, ds: Seq<DependencyView>, rest: Seq<u8>)
    requires
        0 <= i <= s.len(),
        ds.len() >= 1,
        s.subrange(i, s.len() as int) == (enc_dep_items(ds) + seq![93u8]) + rest,
    ensures
        p_dep_items(s, i) == Option::Some((ds, i + enc_dep_items(ds).len() + 1)),
        i + enc_dep_items(ds).len() + 1 + rest.len() == s.len(),
        s.subrange(i + enc_dep_items(ds).len() + 1, s.len() as int) == rest,
    decreases ds.len(),
{
    if ds.len() == 1 {
        lemma_concat_associative(enc_dep(ds[0]), seq![93u8], rest);
        lemma_p_dep_inv(s, i, ds[0], seq![93u8] + rest);
        let j = i + enc_dep(ds[0]).len();
        lemma_suffix_decompose(s, j, seq![93u8], rest);
        assert(s[j] == 93);
        assert(seq![ds[0]] =~= ds);
        assert(p_dep_items(s, i) == Option::Some((ds, i + enc_dep_items(ds).len() + 1)));
    } else {
        let a = enc_dep(ds[0]);
        let items1 = enc_dep_items(ds.skip(1));
        assert(ds.skip(1).len() >= 1);
        lemma_dep_items_rest_unfold(ds.skip(1));
        assert(enc_dep_items(ds) == a + (seq![44u8] + items1));
        lemma_concat_associative(a, seq![44u8] + items1, seq![93u8]);
        lemma_concat_associative(seq![44u8], items1, seq![93u8]);
        lemma_concat_associative(a, seq![44u8] + (items1 + seq![93u8]), rest);
        lemma_concat_associative(seq![44u8], items1 + seq![93u8], rest);
        lemma_concat_associative(items1, seq![93u8], rest);
        assert((enc_dep_items(ds) + seq![93u8]) + rest == a + (seq![44u8] + ((items1
            + seq![93u8]) + rest)));
        lemma_p_dep_inv(s, i, ds[0], seq![44u8] + ((items1 + seq![93u8]) + rest));
        let j = i + a.len();
        lemma_suffix_decompose(s, j, seq![44u8], (items1 + seq![93u8]) + rest);
        assert(s[j] == 44);
        lemma_p_dep_items_inv(s, j + 1, ds.skip(1), rest);
        assert(seq![ds[0]] + ds.skip(1) =~= ds);
        assert(p_dep_items(s, i) == Option::Some((ds, i + enc_dep_items(ds).len() + 1)));
    }
}

/// A dependency array parses back to the records it encodes.
#[verifier::rlimit(100)]
#[verifier::spinoff_prover]
proof fn lemma_p_deps_inv(s: Seq<u8>, i: int, ds: Seq<DependencyView>, rest: Seq<u8>)
    requires
        0 <= i <= s.len(),
        s.subrange(i, s.len() as int) == enc_deps(ds) + rest,
    ensures
        p_deps(s, i) == Option::Some((ds, i + enc_deps(ds).len())),
        i + enc_deps(ds).len() + rest.len() == s.len(),
        s.subrange(i + enc_deps(ds).len(), s.len() as int) == rest,
{
    if ds.len() == 0 {
        assert(enc_deps(ds) =~= seq![91u8, 93u8]);
        lemma_suffix_decompose(s, i, seq![91u8, 93u8], rest);
        assert(s[i] == 91);
        assert(s[i + 1] == 93);
        assert(ds =~= Seq::<DependencyView>::empty());
        assert(p_deps(s, i) == Option::Some((ds, i + 2)));
    } else {
        let items = enc_dep_items(ds);
        lemma_concat_associative(seq![91u8], items, seq![93u8]);
        lemma_concat_associative(seq![91u8], items + seq![93u8], rest);
        lemma_concat_associative(items, seq![93u8], rest);
        lemma_suffix_decompose(s, i, seq![91u8], (items + seq![93u8]) + rest);
        assert(s[i] == 91);
        lemma_p_dep_items_inv(s, i + 1, ds, rest);
        lemma_enc_dep_first_byte(ds[0]);
        assert(items[0] == enc_dep(ds[0])[0]);
        assert(s[i + 1] == 123);
        assert(p_deps(s, i) == Option::Some((ds, i + enc_deps(ds).len())));
    }
}

/// Parse a dependency array at a position.
fn parse_deps(s: &Vec<u8>, i: usize) -> (r: Option<(Vec<Dependency>, usize)>)
    requires
        i <= s@.len(),
    ensures
        r is Some <==> p_deps(s@, i as int) is Some,
        r matches Option::Some(p) ==> p_deps(s@, i as int) == Option::Some(
            (deps_view(p.0@), p.1 as int),
        ) && p.1 <= s@.len(),
{
    if !(i < s.len() && s[i] == 91) {
        return Option::None;
    }
    if i + 1 < s.len() && s[i + 1] == 93 {
        let empty: Vec<Dependency> = Vec::new();
        proof {
            assert(deps_view(empty@) =~= Seq::<DependencyView>::empty());
        }
        return Option::Some((empty, i + 2));
    }
    let mut out: Vec<Dependency> = Vec::new();
    let mut cur: usize = i + 1;
    proof {
        assert(deps_view(out@) =~= Seq::<DependencyView>::empty());
        let ot = p_dep_items(s@, i + 1);
        if ot is Some {
            assert(deps_view(out@) + ot.unwrap().0 =~= ot.unwrap().0);
            lemma_p_dep_items_pos(s@, i + 1);
        }
    }
    loop
        invariant
            i + 1 <= cur <= s@.len(),
            i < s@.len(),
            s@[i as int] == 91,
            !(i + 1 < s@.len() && s@[i + 1] == 93),
            (match p_dep_items(s@, cur as int) {
                Option::Some(t) => p_dep_items(s@, i + 1) == Option::Some(
                    (deps_view(out@) + t.0, t.1),
                ) && t.1 <= s@.len(),
                Option::None => p_dep_items(s@, i + 1) is None,
            }),
        decreases s@.len() - cur,
    {
        proof {
            lemma_p_dep_items_pos(s@, cur as int);
            lemma_p_dep_pos(s@, cur as int);
        }
        match parse_dep(s, cur) {
            Option::None => {
                return Option::None;
            },
            Option::Some((d, j)) => {
                let ghost pre = out@;
                out.push(d);
                proof {
                    assert(deps_view(out@) =~= deps_view(pre) + seq![d@]);
                }
                if j < s.len() && s[j] == 44 {
                    proof {
                        let ot = p_dep_items(s@, j + 1);
                        if ot is Some {
                            lemma_concat_associative(deps_view(pre), seq![d@], ot.unwrap().0);
                            lemma_p_dep_items_pos(s@, j + 1);
                        }
                    }
                    cur = j + 1;
                } else if j < s.len() && s[j] == 93 {
                    return Option::Some((out, j + 1));
                } else {
                    return Option::None;
                }
            },
        }
    }
}

/// Parse one whole index line; `None` unless the entire input is one
/// well-formed entry.
pub fn parse_index_line(s: &Vec<u8>) -> (r: Option<IndexData>)
    ensures
        r is Some <==> (p_line(s@, 0) matches Option::Some(t) && t.1 == s@.len()),
        r matches Option::Some(d) ==> p_line(s@, 0) == Option::Some((d@, s@.len() as int)),
{
    match parse_line(s, 0) {
        Option::Some((d, j)) => {
            if j == s.len() {
                Option::Some(d)
            } else {
                Option::None
            }
        },
        Option::None => Option::None,
    }
}

/// Round-trip: parsing an encoded index line yields the original entry and
/// consumes the whole line.
pub proof fn lemma_index_line_round_trip(d: IndexDataView)
    ensures
        p_line(enc_line(d), 0) == Option::Some((d, enc_line(d).len() as int)),
{
    let s = enc_line(d);
    assert(s.subrange(0, s.len() as int) =~= s);
    assert(enc_line(d) + Seq::<u8>::empty() =~= enc_line(d));
    lemma_p_line_inv(s, 0, d, Seq::<u8>::empty());
}

} // verus!
