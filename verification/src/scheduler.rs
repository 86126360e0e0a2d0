//! Pure parts of the scheduler client: registration and recovery
//! post-processing.

use vstd::prelude::*;

verus! {

/// The lowercase hexadecimal digit for a value below 16.
pub open spec fn hex_digit(v: u8) -> char {
    if v < 10 { (('0' as u8) + v) as char } else { (('a' as u8) + (v - 10)) as char }
}

/// Lowercase hexadecimal encoding: two digits per byte, high nibble first.
pub open spec fn spec_hex_encode(data: Seq<u8>) -> Seq<char>
    decreases data.len(),
{
    if data.len() == 0 {
        Seq::empty()
    } else {
        seq![hex_digit(data[0] / 16), hex_digit(data[0] % 16)] + spec_hex_encode(data.drop_first())
    }
}

/// Calls `hex::encode`, which renders each byte as two lowercase
/// hexadecimal digits, high nibble first.
#[verifier::external_body]
fn hex_encode(data: &[u8]) -> (s: String)
    ensures
        s@ == spec_hex_encode(data@),
{
    hex::encode(data)
}

/// The device name used when recovering a node: `recovered-` followed by
/// the hex encoding of the first eight bytes of the scheduler challenge.
pub fn recovery_device_name(challenge: &[u8]) -> (name: String)
    requires
        challenge@.len() >= 8,
    ensures
        name@ == "recovered-"@ + spec_hex_encode(challenge@.subrange(0, 8)),
{
    let prefix = &challenge[0..8];
    let hex = hex_encode(prefix);
    let name = String::from_str("recovered-");
    name.concat(hex.as_str())
}


/// The invite code sent with a registration: the given one, or the empty
/// code when none is given.
pub fn invite_code_or_default(invite_code: Option<String>) -> (code: String)
    ensures
        code@ == (match invite_code {
            Some(c) => c@,
            None => Seq::<char>::empty(),
        }),
{
    match invite_code {
        Some(c) => c,
        None => String::new(),
    }
}

/// The device key handed back after registration or recovery. When the
/// scheduler returns a device key of its own, it did not sign our
/// certificate request and its key is used as it is. When it returns
/// none, it signed our request and the key is the private key generated
/// on this device, which never left it.
pub fn device_key_for_response(response_key: String, local_key: String) -> (key: String)
    ensures
        key@ == (if response_key@.len() == 0 { local_key@ } else { response_key@ }),
{
    if response_key.as_str().unicode_len() == 0 {
        local_key
    } else {
        response_key
    }
}

}
