//! The node's secret key, in its stored text form: 32 bytes as base32
//! without padding.

use vstd::prelude::*;

use crate::ascii::{all_ascii, ascii_chars_of, ascii_to_string};
use crate::errors::Error;
use crate::ticket::{b32_decode, b32_encode, b32_of, is_b32_byte};

verus! {

use vstd::string::StringExecFns;
use vstd::utf8::encode_utf8;

/// Relies on iroh's `SecretKey::generate` and `to_bytes`: 32 freshly
/// drawn secret key bytes.  The value is random; only its length is
/// promised.
#[verifier::external_body]
fn generate_key_bytes() -> (r: Vec<u8>)
    ensures
        r@.len() == 32,
{
    iroh::SecretKey::generate().to_bytes().to_vec()
}

/// The stored text form of a secret key: base32 without padding.
pub fn encode_secret(key: &Vec<u8>) -> (r: String)
    ensures
        r@ == ascii_chars_of(b32_of(key@)),
        encode_utf8(r@) == b32_of(key@),
{
    let tok = b32_encode(key);
    proof {
        assert(all_ascii(tok@)) by {
            assert(forall|i: int| 0 <= i < tok@.len() ==> is_b32_byte(#[trigger] tok@[i]));
        }
        crate::ascii::lemma_ascii_chars_encode(tok@);
    }
    ascii_to_string(tok)
}

/// A fresh secret key in its stored text form.
pub fn create_secret() -> (r: String)
    ensures
        exists|key: Seq<u8>| key.len() == 32 && r@ == ascii_chars_of(#[trigger] b32_of(key)),
{
    let key = generate_key_bytes();
    let r = encode_secret(&key);
    proof {
        assert(key@.len() == 32 && r@ == ascii_chars_of(b32_of(key@)));
    }
    r
}

/// Decode a stored secret back to its 32 key bytes.  Fails exactly when
/// the text is not the encoding of a 32-byte key.
pub fn decode_secret(s: &str) -> (r: Result<Vec<u8>, Error>)
    ensures
        r matches Ok(v) ==> v@.len() == 32 && encode_utf8(s@) == b32_of(v@),
        r is Err ==> (forall|key: Seq<u8>| key.len() == 32 ==> encode_utf8(s@) != #[trigger] b32_of(
            key,
        )),
{
    let bytes = s.as_bytes();
    let owned = crate::ascii::copy_range(bytes, 0, bytes.len());
    proof {
        assert(owned@ =~= encode_utf8(s@));
    }
    match b32_decode(&owned) {
        Some(v) => {
            if v.len() == 32 {
                Ok(v)
            } else {
                proof {
                    assert forall|key: Seq<u8>| key.len() == 32 implies encode_utf8(s@)
                        != #[trigger] b32_of(key) by {
                        if encode_utf8(s@) == b32_of(key) {
                            assert(key == v@);
                        }
                    }
                }
                Err(Error::EncodeDecode(String::from_str("secret must decode to 32 bytes")))
            }
        },
        None => {
            Err(Error::EncodeDecode(String::from_str("secret is not base32 without padding")))
        },
    }
}

} // verus!
