//! The pre-session authentication record: 32 bytes of SHA-256 over the
//! password, a big-endian 16-bit padding length, then that many padding
//! bytes.

use vstd::prelude::*;
use crate::frame::{spec_u16_from_be_bytes, spec_u16_to_be_bytes, push_u16_be, read_u16_be};
use crate::padding::{PaddingFactory, PlanEntry};
use crate::session::{plan_ok_for, ProxyError};

verus! {

/// The SHA-256 digest (32 bytes) of a byte string.
pub uninterp spec fn sha256_of(data: Seq<u8>) -> Seq<u8>;

/// Relies on sha2::Sha256::digest: 32 bytes, a function of the input
/// bytes alone.
#[verifier::external_body]
pub(crate) fn sha256_bytes(data: &[u8]) -> (r: Vec<u8>)
    ensures
        r@ == sha256_of(data@),
        r@.len() == 32,
{
    <sha2::Sha256 as sha2::Digest>::digest(data).to_vec()
}

/// The fixed part of the record: the digest and the length field.
pub const AUTH_HEADER_LEN: usize = 34;

/// The padding length the client picks from a packet-0 plan: the first
/// entry's size when the plan starts with one (held to the 16-bit length
/// field), otherwise zero.
pub open spec fn spec_auth_pad_len(plan: Seq<PlanEntry>) -> int {
    if plan.len() == 0 {
        0
    } else {
        match plan[0] {
            PlanEntry::Check => 0,
            PlanEntry::Size(s) => if s > 65535 {
                65535
            } else {
                s as int
            },
        }
    }
}

/// Build the client's authentication record for `password`, padding it by
/// the first size of a packet-0 plan drawn from the active scheme.
pub fn build_auth_request(password: &[u8], padding: &PaddingFactory) -> (r: Vec<u8>)
    ensures
        exists|plan: Seq<PlanEntry>|
            #[trigger] plan_ok_for(*padding, 0, plan) && ({
                let p = spec_auth_pad_len(plan);
                &&& r@.len() == AUTH_HEADER_LEN + p
                &&& r@.take(32) == sha256_of(password@)
                &&& r@.subrange(32, 34) == spec_u16_to_be_bytes(p as u16)
            }),
{
    let plan = padding.generate_record_payload_sizes(0);
    let pad_len: u16 = if plan.len() == 0 {
        0
    } else {
        match *vstd::slice::slice_index_get(plan.as_slice(), 0) {
            PlanEntry::Check => 0,
            PlanEntry::Size(s) => if s > 65535 {
                65535
            } else {
                s as u16
            },
        }
    };
    proof {
        assert(pad_len as int == spec_auth_pad_len(plan@));
        assert(plan_ok_for(*padding, 0, plan@));
    }
    let mut r = sha256_bytes(password);
    push_u16_be(&mut r, pad_len);
    let pad = padding.rng_vec(pad_len as usize);
    r.extend_from_slice(pad.as_slice());
    proof {
        crate::frame::lemma_u16_be_round_trip(pad_len);
        assert(r@.take(32) =~= sha256_of(password@));
        assert(r@.subrange(32, 34) =~= spec_u16_to_be_bytes(pad_len));
    }
    r
}

/// Check the record's fixed part against the expected password digest.
/// On success the caller still owes the transport a read of the returned
/// number of padding bytes.
pub fn check_auth(auth: &[u8], expected_hash: &[u8]) -> (r: Result<u16, ProxyError>)
    requires
        expected_hash@.len() == 32,
    ensures
        auth@.len() < AUTH_HEADER_LEN ==> r == Result::<u16, ProxyError>::Err(
            ProxyError::ProtocolError,
        ),
        auth@.len() >= AUTH_HEADER_LEN && auth@.take(32) != expected_hash@ ==> r == Result::<
            u16,
            ProxyError,
        >::Err(ProxyError::AuthFailed),
        auth@.len() >= AUTH_HEADER_LEN && auth@.take(32) == expected_hash@ ==> r == Result::<
            u16,
            ProxyError,
        >::Ok(spec_u16_from_be_bytes(auth@.subrange(32, 34))),
{
    if auth.len() < AUTH_HEADER_LEN {
        return Err(ProxyError::ProtocolError);
    }
    let given = vstd::slice::slice_subrange(auth, 0, 32);
    if !crate::bytestr::bytes_eq(given, expected_hash) {
        proof {
            assert(auth@.take(32) =~= given@);
        }
        return Err(ProxyError::AuthFailed);
    }
    proof {
        assert(auth@.take(32) =~= given@);
    }
    Ok(read_u16_be(auth, 32))
}

} // verus!
