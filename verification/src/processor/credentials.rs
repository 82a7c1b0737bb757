//! The key that stands for a long-term credential.

use vstd::prelude::*;

verus! {

/// The key of the long-term credential of `username` with `password` in
/// `realm`: the MD5 digest of the three, joined by colons with the realm in
/// the middle.
pub uninterp spec fn long_key_of(username: Seq<char>, password: Seq<char>, realm: Seq<char>)
    -> [u8; 16];

/// `faster_stun::util::long_key`: the key of a long-term credential, which
/// depends on the three strings alone.
#[verifier::external_body]
pub(crate) fn derive_key(username: &str, password: &str, realm: &str) -> (key: [u8; 16])
    ensures
        key == long_key_of(username@, password@, realm@),
{
    faster_stun::util::long_key(username, password, realm)
}

} // verus!
