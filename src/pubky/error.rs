use vstd::prelude::*;

verus! {

/// The error of `hex::decode`, carried through unread.
#[verifier::external_type_specification]
#[verifier::external_body]
pub struct ExFromHexError(hex::FromHexError);

/// Why a secret key could not be read.
#[derive(Debug)]
pub enum PubkyError {
    /// The key text has the wrong shape.
    InvalidSecretKey(&'static str),
    /// The key text is not hexadecimal.
    HexDecode(hex::FromHexError),
}

} // verus!
