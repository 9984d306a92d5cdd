//! The frame that a protected value is stored in: `dpapi:` and the protected
//! bytes as base64. A value without the prefix is plain text that has not been
//! protected yet. Protecting and unprotecting are the operating system's work.

use base64::Engine;
use vstd::prelude::*;
#[allow(unused_imports)]
use vstd::string::*;

use crate::text::{occurs_at, starts_with_text, strip_prefix_text};

verus! {

/// Bytes as standard base64, with padding.
pub uninterp spec fn base64_text(bytes: Seq<u8>) -> Seq<char>;

/// The bytes that a text is the standard base64 of, where it is one.
pub uninterp spec fn base64_bytes(text: Seq<char>) -> Option<Seq<u8>>;

/// `base64::engine::general_purpose::STANDARD.encode`. The text that comes out
/// decodes to the bytes that went in.
#[verifier::external_body]
fn base64_encode(bytes: &Vec<u8>) -> (r: String)
    ensures
        r@ == base64_text(bytes@),
        base64_bytes(r@) == Some(bytes@),
{
    base64::engine::general_purpose::STANDARD.encode(bytes)
}

/// `base64::engine::general_purpose::STANDARD.decode`. Which error stopped it is
/// not kept.
#[verifier::external_body]
fn base64_decode(text: &str) -> (r: Option<Vec<u8>>)
    ensures
        crate::name_map::view_opt(r) == base64_bytes(text@),
{
    base64::engine::general_purpose::STANDARD.decode(text).ok()
}

/// `String::from_utf8`: the text that the bytes encode, where they are UTF-8.
#[verifier::external_body]
fn utf8_text(bytes: Vec<u8>) -> (r: Option<String>)
    ensures
        r is Some <==> vstd::utf8::valid_utf8(bytes@),
        r matches Some(t) ==> t@ == vstd::utf8::decode_utf8(bytes@),
{
    String::from_utf8(bytes).ok()
}

/// Whether a value is protected already.
pub open spec fn is_sealed(value: Seq<char>) -> bool {
    occurs_at(value, "dpapi:"@, 0)
}

/// The bytes that a protected value holds.
pub open spec fn payload(value: Seq<char>) -> Option<Seq<u8>> {
    if is_sealed(value) {
        base64_bytes(value.subrange("dpapi:"@.len() as int, value.len() as int))
    } else {
        None
    }
}

/// A value with its protected bytes in its place.
pub open spec fn sealed(bytes: Seq<u8>) -> Seq<char> {
    "dpapi:"@ + base64_text(bytes)
}

/// A value as it is used, where `bytes` is what unprotecting its payload gave:
/// plain text as it stands, and a protected value as the text that was
/// protected. What cannot be unprotected is empty.
pub open spec fn opened(value: Seq<char>, bytes: Option<Seq<u8>>) -> Seq<char> {
    if !is_sealed(value) {
        value
    } else {
        match bytes {
            Some(b) => if payload(value) is Some && vstd::utf8::valid_utf8(b) {
                vstd::utf8::decode_utf8(b)
            } else {
                Seq::empty()
            },
            None => Seq::empty(),
        }
    }
}

/// Whether a value is protected already.
pub fn is_encrypted(value: &str) -> (r: bool)
    ensures
        r == is_sealed(value@),
{
    starts_with_text(value, "dpapi:")
}

/// Put the protected bytes of a value into the frame. `protected` is what
/// protecting the value gave. An empty value stays empty.
pub fn encrypt_field(value: &str, protected: Result<Vec<u8>, String>) -> (r: Result<String, String>)
    ensures
        value@.len() == 0 ==> (r matches Ok(t) && t@ == Seq::<char>::empty()),
        value@.len() > 0 ==> match protected {
            Ok(bytes) => {
                &&& r matches Ok(t) && t@ == sealed(bytes@) && is_sealed(t@) && payload(t@) == Some(bytes@)
            },
            Err(e) => r matches Err(f) && f@ == e@,
        },
{
    if value.is_empty() {
        return Ok(String::new());
    }
    match protected {
        Ok(bytes) => {
            let mut s = "dpapi:".to_owned();
            let text = base64_encode(&bytes);
            s.append(text.as_str());
            proof {
                assert(s@.subrange(0, "dpapi:"@.len() as int) =~= "dpapi:"@);
                assert(s@.subrange("dpapi:"@.len() as int, s@.len() as int) =~= text@);
            }
            Ok(s)
        },
        Err(e) => Err(e),
    }
}

/// The bytes of a protected value that are to be unprotected.
pub fn protected_bytes(value: &str) -> (r: Option<Vec<u8>>)
    ensures
        crate::name_map::view_opt(r) == payload(value@),
{
    match strip_prefix_text(value, "dpapi:") {
        Some(rest) => {
            assert(value@.subrange("dpapi:"@.len() as int, value@.len() as int) =~= rest@);
            base64_decode(rest.as_str())
        },
        None => None,
    }
}

/// The value as it is used. `unprotected` is what unprotecting its bytes gave.
pub fn decrypt_field(value: &str, unprotected: Option<Vec<u8>>) -> (r: String)
    ensures
        r@ == opened(value@, crate::name_map::view_opt(unprotected)),
{
    if !is_encrypted(value) {
        return value.to_owned();
    }
    match unprotected {
        Some(bytes) => {
            if protected_bytes(value).is_none() {
                return String::new();
            }
            match utf8_text(bytes) {
                Some(t) => t,
                None => String::new(),
            }
        },
        None => String::new(),
    }
}

/// A value that was protected comes back as it was, where unprotecting its
/// bytes gives back the bytes of the value.
pub proof fn opening_undoes_sealing(value: Seq<char>, stored: Seq<char>, bytes: Seq<u8>)
    requires
        is_sealed(stored),
        payload(stored) == Some(bytes),
    ensures
        opened(stored, Some(vstd::utf8::encode_utf8(value))) == value,
{
    vstd::utf8::encode_utf8_valid_utf8(value);
    vstd::utf8::encode_utf8_decode_utf8(value);
}

} // verus!
