//! The PLAIN mechanism of SASL, as the `sasl` crate computes it.

use sasl::client::mechanisms::Plain;
use sasl::client::Mechanism;
use vstd::prelude::*;
use vstd::utf8::encode_utf8;

verus! {

/// The initial response of PLAIN: an empty authorization identity, then
/// the user name and the password, each behind a zero byte.
pub open spec fn plain_response(username: Seq<u8>, password: Seq<u8>) -> Seq<u8> {
    seq![0u8] + username + seq![0u8] + password
}

/// Calls `Plain::new` with the user name and the password, then
/// `Mechanism::initial` on the mechanism.
///
/// Believed, not proved: the initial response is a zero byte, the UTF-8
/// bytes of the user name, a zero byte and the UTF-8 bytes of the
/// password.
#[verifier::external_body]
pub(crate) fn plain_initial(username: &str, password: &str) -> (response: Vec<u8>)
    ensures
        response@ == plain_response(encode_utf8(username@), encode_utf8(password@)),
{
    Plain::new(username, password).initial()
}

} // verus!
