//! The leaf encoder: canonical byte encodings for leaf values.

use vstd::prelude::*;

verus! {

/// A leaf value with a canonical, deterministic byte encoding. `encodable`
/// says whether the value has an encoding at all; `encoding` is that
/// encoding. `encode` produces it, failing exactly on values without one.
pub trait Encodable: Sized {
    /// Whether this value has a canonical byte encoding.
    spec fn encodable(&self) -> bool;

    /// The canonical byte encoding of this value.
    spec fn encoding(&self) -> Seq<u8>;

    /// Produce the canonical byte encoding, or `None` when there is none.
    fn encode(&self) -> (r: Option<Vec<u8>>)
        ensures
            match r {
                Some(bytes) => self.encodable() && bytes@ == self.encoding(),
                None => !self.encodable(),
            },
    ;
}

/// The UTF-8 byte sequence of a string: a pure function of its characters
/// alone, left uninterpreted here.
pub uninterp spec fn utf8_of(s: Seq<char>) -> Seq<u8>;

/// Relies on bytevec's `ByteEncodable` impl for `str` with the `u8` size
/// type: it returns exactly the string's UTF-8 bytes when their number fits
/// the size type's maximum of 255, and an overflow error otherwise.
#[verifier::external_body]
fn bytevec_encode_str(s: &str) -> (r: Option<Vec<u8>>)
    ensures
        match r {
            Some(bytes) => utf8_of(s@).len() <= 255 && bytes@ == utf8_of(s@),
            None => utf8_of(s@).len() > 255,
        },
{
    match <str as bytevec::ByteEncodable>::encode::<u8>(s) {
        Ok(bytes) => Some(bytes),
        Err(_) => None,
    }
}

impl Encodable for String {
    open spec fn encodable(&self) -> bool {
        utf8_of(self@).len() <= 255
    }

    open spec fn encoding(&self) -> Seq<u8> {
        utf8_of(self@)
    }

    fn encode(&self) -> (r: Option<Vec<u8>>) {
        bytevec_encode_str(self.as_str())
    }
}

} // verus!
