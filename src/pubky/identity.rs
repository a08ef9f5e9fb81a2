use vstd::prelude::*;
use crate::pubky::error::PubkyError;
use vstd::string::StringSliceAdditionalSpecFns;

verus! {

/// A key pair of `pkarr`, carried through unread.
#[verifier::external_type_specification]
#[verifier::external_body]
pub struct ExKeypair(pkarr::Keypair);

/// Length of a secret key in hex digits.
pub const SECRET_KEY_HEX_LEN: usize = 64;

/// An ASCII hex digit, either case.
pub open spec fn is_hex_digit(b: u8) -> bool {
    (0x30 <= b && b <= 0x39) || (0x61 <= b && b <= 0x66) || (0x41 <= b && b <= 0x46)
}

/// The value of an ASCII hex digit.
pub open spec fn hex_value(b: u8) -> int {
    if 0x30 <= b && b <= 0x39 {
        b - 0x30
    } else if 0x61 <= b && b <= 0x66 {
        b - 0x61 + 10
    } else {
        b - 0x41 + 10
    }
}

/// `t` is an even number of hex digits.
pub open spec fn is_hex_text(t: Seq<u8>) -> bool {
    t.len() % 2 == 0 && forall|i: int| 0 <= i < t.len() ==> is_hex_digit(#[trigger] t[i])
}

/// Relies on `hex::decode`: it succeeds exactly on an even number of hex
/// digits of either case, and gives one byte for each pair, high digit first.
#[verifier::external_body]
fn decode_hex(s: &str) -> (r: Result<Vec<u8>, hex::FromHexError>)
    ensures
        r is Ok <==> is_hex_text(s.spec_bytes()),
        r matches Ok(v) ==> v@.len() * 2 == s.spec_bytes().len() && forall|i: int|
            0 <= i < v@.len() ==> #[trigger] v@[i] == 16 * hex_value(s.spec_bytes()[2 * i])
                + hex_value(s.spec_bytes()[2 * i + 1]),
{
    hex::decode(s)
}

/// Relies on `pkarr::Keypair::from_secret_key`: the key pair of a 32-byte secret.
#[verifier::external_body]
fn keypair_from_secret(secret: &[u8; 32]) -> pkarr::Keypair {
    pkarr::Keypair::from_secret_key(secret)
}

/// Relies on `pkarr::Keypair::random`: a fresh key pair from the system's
/// random source.
#[verifier::external_body]
fn random_keypair() -> pkarr::Keypair {
    pkarr::Keypair::random()
}

/// The server's key pair: read from 64 hex digits when a secret is given,
/// freshly made otherwise.
pub fn generate_or_load_keypair(secret_key_hex: Option<&str>) -> (r: Result<
    pkarr::Keypair,
    PubkyError,
>)
    ensures
        secret_key_hex is None ==> r is Ok,
        secret_key_hex matches Some(h) && h.spec_bytes().len() != SECRET_KEY_HEX_LEN ==> r matches Err(
            PubkyError::InvalidSecretKey(_),
        ),
        secret_key_hex matches Some(h) && h.spec_bytes().len() == SECRET_KEY_HEX_LEN
            && is_hex_text(h.spec_bytes()) ==> r is Ok,
        secret_key_hex matches Some(h) && h.spec_bytes().len() == SECRET_KEY_HEX_LEN
            && !is_hex_text(h.spec_bytes()) ==> r matches Err(PubkyError::HexDecode(_)),
{
    match secret_key_hex {
        Some(hex_str) => {
            if hex_str.as_bytes().len() != SECRET_KEY_HEX_LEN {
                return Err(
                    PubkyError::InvalidSecretKey("hex string must be 64 characters (32 bytes)"),
                );
            }
            let bytes = match decode_hex(hex_str) {
                Ok(b) => b,
                Err(e) => {
                    return Err(PubkyError::HexDecode(e));
                },
            };
            let mut key_bytes = [0u8; 32];
            let mut i: usize = 0;
            while i < 32
                invariant
                    bytes@.len() == 32,
                decreases 32 - i,
            {
                key_bytes.set(i, bytes[i]);
                i = i + 1;
            }
            Ok(keypair_from_secret(&key_bytes))
        },
        None => Ok(random_keypair()),
    }
}

} // verus!
