//! The secret buffer that carries a password: `secstr`'s byte vector, which
//! locks its memory and scrubs it on drop, so that the credential is never
//! left behind in freed memory and never shows up in diagnostics.

use vstd::prelude::*;

verus! {

#[verifier::external_type_specification]
#[verifier::external_body]
#[verifier::reject_recursive_types(T)]
pub struct ExSecVec<T: Copy>(secstr::SecVec<T>);

/// The bytes a secret buffer holds.
pub uninterp spec fn sec_bytes(s: secstr::SecVec<u8>) -> Seq<u8>;

/// Relies on secstr::SecVec::new: the buffer stores exactly the bytes
/// handed in (after locking the pages they sit on).
#[verifier::external_body]
pub fn secstr_new(bytes: Vec<u8>) -> (r: secstr::SecVec<u8>)
    ensures
        sec_bytes(r) == bytes@,
{
    secstr::SecStr::new(bytes)
}

/// Relies on secstr::SecVec::unsecure: borrows the stored bytes.
#[verifier::external_body]
pub fn secstr_unsecure(s: &secstr::SecVec<u8>) -> (r: &[u8])
    ensures
        r@ == sec_bytes(*s),
{
    s.unsecure()
}

} // verus!
