//! The sparse index's standard sharding rule, mapping a package name to the
//! relative path of its index file: one- and two-character names live under
//! the fixed prefixes `1/` and `2/`, three-character names under
//! `3/<first character>/`, and longer names under
//! `<first two>/<next two>/`.

use vstd::prelude::*;

verus! {

/// The relative index-file path for a package name.
pub open spec fn spec_crate_index_path(name: Seq<u8>) -> Seq<u8> {
    if name.len() == 0 {
        Seq::empty()
    } else if name.len() == 1 {
        seq![49u8, 47u8] + name
    } else if name.len() == 2 {
        seq![50u8, 47u8] + name
    } else if name.len() == 3 {
        seq![51u8, 47u8, name[0], 47u8] + name
    } else {
        seq![name[0], name[1], 47u8, name[2], name[3], 47u8] + name
    }
}

/// Compute the relative index-file path for a package name.
pub fn crate_name_to_index(name: &Vec<u8>) -> (r: Vec<u8>)
    requires
        name@.len() >= 1,
    ensures
        r@ == spec_crate_index_path(name@),
{
    let mut out: Vec<u8> = Vec::new();
    if name.len() == 1 {
        out.push(49);
        out.push(47);
    } else if name.len() == 2 {
        out.push(50);
        out.push(47);
    } else if name.len() == 3 {
        out.push(51);
        out.push(47);
        out.push(name[0]);
        out.push(47);
    } else {
        out.push(name[0]);
        out.push(name[1]);
        out.push(47);
        out.push(name[2]);
        out.push(name[3]);
        out.push(47);
    }
    out.extend_from_slice(name.as_slice());
    proof {
        assert(out@ =~= spec_crate_index_path(name@));
    }
    out
}

} // verus!
