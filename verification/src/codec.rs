//! The byte codec of keys and values.
//!
//! A type that can be stored implements [`Codec`]: it says, as two spec
//! functions over its view, which bytes encode a value and which value a byte
//! string decodes to, and offers the two executable conversions. Integers
//! and strings are encoded by `bincode` in its default configuration
//! (fixed-width little-endian integers, `u64` length prefixes, trailing bytes
//! ignored when decoding). The unit type encodes to nothing, and a byte
//! string, which stands for a value that arrives already serialized, encodes
//! to itself.

use crate::bytes::clone_bytes;
use vstd::bytes::{
    lemma_auto_spec_u64_to_from_le_bytes, spec_u64_from_le_bytes, spec_u64_to_le_bytes,
};
use vstd::prelude::*;
use vstd::utf8::{
    decode_utf8, encode_utf8, encode_utf8_decode_utf8, encode_utf8_valid_utf8, valid_utf8,
};

verus! {

/// A type with a byte encoding.
pub trait Codec: View + Sized {
    /// The bytes that encode a value, or `None` where it has no encoding.
    spec fn encoding(value: Self::V) -> Option<Seq<u8>>;

    /// The value that a byte string decodes to, or `None` where it decodes to
    /// nothing.
    spec fn decoding(bytes: Seq<u8>) -> Option<Self::V>;

    /// Encodes the value.
    fn encode(&self) -> (r: Option<Vec<u8>>)
        ensures
            match r {
                Some(b) => Self::encoding(self@) == Some(b@),
                None => Self::encoding(self@) is None,
            },
    ;

    /// Decodes a value from the front of `bytes`.
    fn decode(bytes: &[u8]) -> (r: Option<Self>)
        ensures
            match r {
                Some(v) => Self::decoding(bytes@) == Some(v@),
                None => Self::decoding(bytes@) is None,
            },
    ;

    /// Decoding the encoding of a value gives the value back.
    proof fn lemma_round_trip(value: Self::V)
        requires
            Self::encoding(value) is Some,
        ensures
            Self::decoding(Self::encoding(value).unwrap()) == Some(value),
    ;
}

/// Makes `bincode::ErrorKind`, in which `bincode` reports a failure, known as
/// an opaque type.
#[verifier::external_type_specification]
#[verifier::external_body]
pub struct ExBincodeErrorKind(bincode::ErrorKind);

/// The encoding of an unsigned 64-bit integer: its eight bytes, least
/// significant first.
pub open spec fn u64_encoding(value: u64) -> Seq<u8> {
    spec_u64_to_le_bytes(value)
}

/// The integer that a byte string decodes to: the one that its first eight
/// bytes spell, where it has eight bytes.
pub open spec fn u64_decoding(bytes: Seq<u8>) -> Option<u64> {
    if bytes.len() >= 8 {
        Some(spec_u64_from_le_bytes(bytes.take(8)))
    } else {
        None
    }
}

/// The encoding of a string: the number of its UTF-8 bytes as a `u64`, then
/// those bytes.
pub open spec fn string_encoding(value: Seq<char>) -> Seq<u8> {
    u64_encoding(encode_utf8(value).len() as u64) + encode_utf8(value)
}

/// The string that a byte string decodes to: the length prefix must be
/// there, the announced bytes must follow it, and they must be UTF-8.
pub open spec fn string_decoding(bytes: Seq<u8>) -> Option<Seq<char>> {
    match u64_decoding(bytes) {
        Some(n) => {
            let body = bytes.subrange(8, 8 + n);
            if n <= usize::MAX && 8 + n <= bytes.len() && valid_utf8(body) {
                Some(decode_utf8(body))
            } else {
                None
            }
        },
        None => None,
    }
}

/// Wraps `bincode::serialize` at `u64`. With the default configuration an
/// integer is written at fixed width, least significant byte first, into a
/// fresh vector, which cannot fail.
#[verifier::external_body]
fn bincode_serialize_u64(value: &u64) -> (r: Result<Vec<u8>, Box<bincode::ErrorKind>>)
    ensures
        r is Ok,
        r->Ok_0@ == u64_encoding(*value),
{
    bincode::serialize(value)
}

/// Wraps `bincode::deserialize` at `u64`. It reads eight bytes from the
/// front of the slice, fails where there are fewer, and ignores the rest.
#[verifier::external_body]
fn bincode_deserialize_u64(bytes: &[u8]) -> (r: Result<u64, Box<bincode::ErrorKind>>)
    ensures
        match r {
            Ok(v) => u64_decoding(bytes@) == Some(v),
            Err(_) => u64_decoding(bytes@) is None,
        },
{
    bincode::deserialize(bytes)
}

/// Wraps `bincode::serialize` at `String`. A string is written as the
/// number of its bytes, as a `u64`, followed by the bytes themselves; into a
/// fresh vector this cannot fail.
#[verifier::external_body]
fn bincode_serialize_string(value: &String) -> (r: Result<Vec<u8>, Box<bincode::ErrorKind>>)
    ensures
        r is Ok,
        r->Ok_0@ == string_encoding(value@),
{
    bincode::serialize(value)
}

/// Wraps `bincode::deserialize` at `String`. It reads the length prefix,
/// takes that many bytes, and fails where the slice is too short, the length
/// does not fit a `usize`, or the bytes are not UTF-8. Trailing bytes are
/// ignored.
#[verifier::external_body]
fn bincode_deserialize_string(bytes: &[u8]) -> (r: Result<String, Box<bincode::ErrorKind>>)
    ensures
        match r {
            Ok(s) => string_decoding(bytes@) == Some(s@),
            Err(_) => string_decoding(bytes@) is None,
        },
{
    bincode::deserialize(bytes)
}

impl Codec for u64 {
    open spec fn encoding(value: u64) -> Option<Seq<u8>> {
        Some(u64_encoding(value))
    }

    open spec fn decoding(bytes: Seq<u8>) -> Option<u64> {
        u64_decoding(bytes)
    }

    fn encode(&self) -> (r: Option<Vec<u8>>) {
        match bincode_serialize_u64(self) {
            Ok(b) => Some(b),
            Err(_) => None,
        }
    }

    fn decode(bytes: &[u8]) -> (r: Option<u64>) {
        match bincode_deserialize_u64(bytes) {
            Ok(v) => Some(v),
            Err(_) => None,
        }
    }

    proof fn lemma_round_trip(value: u64) {
        lemma_auto_spec_u64_to_from_le_bytes();
        assert(u64_encoding(value).take(8) =~= u64_encoding(value));
    }
}

impl Codec for String {
    open spec fn encoding(value: Seq<char>) -> Option<Seq<u8>> {
        if encode_utf8(value).len() <= usize::MAX {
            Some(string_encoding(value))
        } else {
            None
        }
    }

    open spec fn decoding(bytes: Seq<u8>) -> Option<Seq<char>> {
        string_decoding(bytes)
    }

    fn encode(&self) -> (r: Option<Vec<u8>>) {
        match bincode_serialize_string(self) {
            Ok(b) => {
                let total: usize = b.len();
                proof {
                    lemma_auto_spec_u64_to_from_le_bytes();
                    let n = encode_utf8(self@).len();
                    assert(u64_encoding(n as u64).len() == 8);
                    assert(total == 8 + n);
                }
                Some(b)
            },
            Err(_) => None,
        }
    }

    fn decode(bytes: &[u8]) -> (r: Option<String>) {
        match bincode_deserialize_string(bytes) {
            Ok(v) => Some(v),
            Err(_) => None,
        }
    }

    proof fn lemma_round_trip(value: Seq<char>) {
        lemma_auto_spec_u64_to_from_le_bytes();
        encode_utf8_valid_utf8(value);
        encode_utf8_decode_utf8(value);
        let body = encode_utf8(value);
        let bytes = string_encoding(value);
        let n = body.len() as u64;
        assert(u64_encoding(n).len() == 8);
        assert(bytes.take(8) =~= u64_encoding(n));
        assert(spec_u64_from_le_bytes(u64_encoding(n)) == n);
        assert(bytes.subrange(8, 8 + n) =~= body);
    }
}

impl Codec for usize {
    open spec fn encoding(value: usize) -> Option<Seq<u8>> {
        Some(u64_encoding(value as u64))
    }

    open spec fn decoding(bytes: Seq<u8>) -> Option<usize> {
        match u64_decoding(bytes) {
            Some(n) => if n <= usize::MAX {
                Some(n as usize)
            } else {
                None
            },
            None => None,
        }
    }

    fn encode(&self) -> (r: Option<Vec<u8>>) {
        let wide: u64 = *self as u64;
        wide.encode()
    }

    fn decode(bytes: &[u8]) -> (r: Option<usize>) {
        match u64::decode(bytes) {
            Some(n) => if n <= usize::MAX as u64 {
                Some(n as usize)
            } else {
                None
            },
            None => None,
        }
    }

    proof fn lemma_round_trip(value: usize) {
        u64::lemma_round_trip(value as u64);
    }
}

impl Codec for () {
    open spec fn encoding(value: ()) -> Option<Seq<u8>> {
        Some(Seq::empty())
    }

    open spec fn decoding(bytes: Seq<u8>) -> Option<()> {
        Some(())
    }

    fn encode(&self) -> (r: Option<Vec<u8>>) {
        Some(Vec::new())
    }

    fn decode(bytes: &[u8]) -> (r: Option<()>) {
        Some(())
    }

    proof fn lemma_round_trip(value: ()) {
    }
}

impl Codec for Vec<u8> {
    open spec fn encoding(value: Seq<u8>) -> Option<Seq<u8>> {
        Some(value)
    }

    open spec fn decoding(bytes: Seq<u8>) -> Option<Seq<u8>> {
        Some(bytes)
    }

    fn encode(&self) -> (r: Option<Vec<u8>>) {
        Some(clone_bytes(self.as_slice()))
    }

    fn decode(bytes: &[u8]) -> (r: Option<Vec<u8>>) {
        Some(clone_bytes(bytes))
    }

    proof fn lemma_round_trip(value: Seq<u8>) {
    }
}

} // verus!
