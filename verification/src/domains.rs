//! Pre-defined hash domain-separation tags.
//!
//! Every protocol hash appends one of these fixed byte strings to its message
//! before hashing; the tags are part of the wire contract and must match the
//! ASCII bytes given in each function's documentation bit-exactly.

use vstd::prelude::*;

verus! {

/// The tag `key_img`, as ASCII bytes.
pub open spec fn spec_signature_key_image() -> Seq<u8> {
    seq![107u8, 101u8, 121u8, 95u8, 105u8, 109u8, 103u8]
}

/// The tag `key_img`, as ASCII bytes.
pub fn signature_key_image() -> (r: Vec<u8>)
    ensures
        r@ == spec_signature_key_image(),
{
    let v: Vec<u8> = vec![107u8, 101u8, 121u8, 95u8, 105u8, 109u8, 103u8];
    proof {
        assert(v@ =~= spec_signature_key_image());
    }
    v
}

/// The tag `clsag_link`, as ASCII bytes.
pub open spec fn spec_clsag_linking() -> Seq<u8> {
    seq![99u8, 108u8, 115u8, 97u8, 103u8, 95u8, 108u8, 105u8, 110u8, 107u8]
}

/// The tag `clsag_link`, as ASCII bytes.
pub fn clsag_linking() -> (r: Vec<u8>)
    ensures
        r@ == spec_clsag_linking(),
{
    let v: Vec<u8> = vec![99u8, 108u8, 115u8, 97u8, 103u8, 95u8, 108u8, 105u8, 110u8, 107u8];
    proof {
        assert(v@ =~= spec_clsag_linking());
    }
    v
}

/// The tag `clsag_aux`, as ASCII bytes.
pub open spec fn spec_clsag_auxiliary() -> Seq<u8> {
    seq![99u8, 108u8, 115u8, 97u8, 103u8, 95u8, 97u8, 117u8, 120u8]
}

/// The tag `clsag_aux`, as ASCII bytes.
pub fn clsag_auxiliary() -> (r: Vec<u8>)
    ensures
        r@ == spec_clsag_auxiliary(),
{
    let v: Vec<u8> = vec![99u8, 108u8, 115u8, 97u8, 103u8, 95u8, 97u8, 117u8, 120u8];
    proof {
        assert(v@ =~= spec_clsag_auxiliary());
    }
    v
}

/// The tag `clsag_com`, as ASCII bytes.
pub open spec fn spec_clsag_commitment() -> Seq<u8> {
    seq![99u8, 108u8, 115u8, 97u8, 103u8, 95u8, 99u8, 111u8, 109u8]
}

/// The tag `clsag_com`, as ASCII bytes.
pub fn clsag_commitment() -> (r: Vec<u8>)
    ensures
        r@ == spec_clsag_commitment(),
{
    let v: Vec<u8> = vec![99u8, 108u8, 115u8, 97u8, 103u8, 95u8, 99u8, 111u8, 109u8];
    proof {
        assert(v@ =~= spec_clsag_commitment());
    }
    v
}

/// The tag `ecdh_tag`, as ASCII bytes.
pub open spec fn spec_ecdh_view_tag() -> Seq<u8> {
    seq![101u8, 99u8, 100u8, 104u8, 95u8, 116u8, 97u8, 103u8]
}

/// The tag `ecdh_tag`, as ASCII bytes.
pub fn ecdh_view_tag() -> (r: Vec<u8>)
    ensures
        r@ == spec_ecdh_view_tag(),
{
    let v: Vec<u8> = vec![101u8, 99u8, 100u8, 104u8, 95u8, 116u8, 97u8, 103u8];
    proof {
        assert(v@ =~= spec_ecdh_view_tag());
    }
    v
}

/// The tag `ecdh_enc`, as ASCII bytes.
pub open spec fn spec_ecdh_encryption_key() -> Seq<u8> {
    seq![101u8, 99u8, 100u8, 104u8, 95u8, 101u8, 110u8, 99u8]
}

/// The tag `ecdh_enc`, as ASCII bytes.
pub fn ecdh_encryption_key() -> (r: Vec<u8>)
    ensures
        r@ == spec_ecdh_encryption_key(),
{
    let v: Vec<u8> = vec![101u8, 99u8, 100u8, 104u8, 95u8, 101u8, 110u8, 99u8];
    proof {
        assert(v@ =~= spec_ecdh_encryption_key());
    }
    v
}

/// The tag `ecdh_priv`, as ASCII bytes.
pub open spec fn spec_ecdh_private_key() -> Seq<u8> {
    seq![101u8, 99u8, 100u8, 104u8, 95u8, 112u8, 114u8, 105u8, 118u8]
}

/// The tag `ecdh_priv`, as ASCII bytes.
pub fn ecdh_private_key() -> (r: Vec<u8>)
    ensures
        r@ == spec_ecdh_private_key(),
{
    let v: Vec<u8> = vec![101u8, 99u8, 100u8, 104u8, 95u8, 112u8, 114u8, 105u8, 118u8];
    proof {
        assert(v@ =~= spec_ecdh_private_key());
    }
    v
}

/// The tag `cn_view`, as ASCII bytes.
pub open spec fn spec_cryptonote_private_view() -> Seq<u8> {
    seq![99u8, 110u8, 95u8, 118u8, 105u8, 101u8, 119u8]
}

/// The tag `cn_view`, as ASCII bytes.
pub fn cryptonote_private_view() -> (r: Vec<u8>)
    ensures
        r@ == spec_cryptonote_private_view(),
{
    let v: Vec<u8> = vec![99u8, 110u8, 95u8, 118u8, 105u8, 101u8, 119u8];
    proof {
        assert(v@ =~= spec_cryptonote_private_view());
    }
    v
}

/// The tag `cn_spend`, as ASCII bytes.
pub open spec fn spec_cryptonote_private_spend() -> Seq<u8> {
    seq![99u8, 110u8, 95u8, 115u8, 112u8, 101u8, 110u8, 100u8]
}

/// The tag `cn_spend`, as ASCII bytes.
pub fn cryptonote_private_spend() -> (r: Vec<u8>)
    ensures
        r@ == spec_cryptonote_private_spend(),
{
    let v: Vec<u8> = vec![99u8, 110u8, 95u8, 115u8, 112u8, 101u8, 110u8, 100u8];
    proof {
        assert(v@ =~= spec_cryptonote_private_spend());
    }
    v
}

/// The tag `subaddr_mv`, as ASCII bytes.
pub open spec fn spec_subaddress_master_private_view() -> Seq<u8> {
    seq![115u8, 117u8, 98u8, 97u8, 100u8, 100u8, 114u8, 95u8, 109u8, 118u8]
}

/// The tag `subaddr_mv`, as ASCII bytes.
pub fn subaddress_master_private_view() -> (r: Vec<u8>)
    ensures
        r@ == spec_subaddress_master_private_view(),
{
    let v: Vec<u8> = vec![115u8, 117u8, 98u8, 97u8, 100u8, 100u8, 114u8, 95u8, 109u8, 118u8];
    proof {
        assert(v@ =~= spec_subaddress_master_private_view());
    }
    v
}

/// The tag `subaddr_ms`, as ASCII bytes.
pub open spec fn spec_subaddress_master_private_spend() -> Seq<u8> {
    seq![115u8, 117u8, 98u8, 97u8, 100u8, 100u8, 114u8, 95u8, 109u8, 115u8]
}

/// The tag `subaddr_ms`, as ASCII bytes.
pub fn subaddress_master_private_spend() -> (r: Vec<u8>)
    ensures
        r@ == spec_subaddress_master_private_spend(),
{
    let v: Vec<u8> = vec![115u8, 117u8, 98u8, 97u8, 100u8, 100u8, 114u8, 95u8, 109u8, 115u8];
    proof {
        assert(v@ =~= spec_subaddress_master_private_spend());
    }
    v
}

/// The tag `subaddr_ss`, as ASCII bytes.
pub open spec fn spec_subaddress_sub_private_spend() -> Seq<u8> {
    seq![115u8, 117u8, 98u8, 97u8, 100u8, 100u8, 114u8, 95u8, 115u8, 115u8]
}

/// The tag `subaddr_ss`, as ASCII bytes.
pub fn subaddress_sub_private_spend() -> (r: Vec<u8>)
    ensures
        r@ == spec_subaddress_sub_private_spend(),
{
    let v: Vec<u8> = vec![115u8, 117u8, 98u8, 97u8, 100u8, 100u8, 114u8, 95u8, 115u8, 115u8];
    proof {
        assert(v@ =~= spec_subaddress_sub_private_spend());
    }
    v
}

} // verus!
