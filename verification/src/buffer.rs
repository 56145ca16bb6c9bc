//! Bytes handed across the ABI: allocated here, read by the caller, handed back to be freed.
//!
//! The library holds a buffer as the bytes it owns; turning one into the `(ptr, len)` pair the C
//! ABI sees, and freeing that pair, is the boundary layer's job.

use vstd::prelude::*;

verus! {

/// A byte buffer this crate allocated. Empty means "nothing to report", the same convention a
/// configuration uses for "not set".
#[allow(non_camel_case_types)]
pub struct ak_bytes {
    bytes: Vec<u8>,
}

impl View for ak_bytes {
    type V = Seq<u8>;

    closed spec fn view(&self) -> Seq<u8> {
        self.bytes@
    }
}

/// `Box<[u8]>::into_vec`.
#[verifier::external_body]
fn boxed_into_vec(bytes: Box<[u8]>) -> (v: Vec<u8>)
    ensures
        v@ == bytes@,
{
    bytes.into_vec()
}

impl ak_bytes {
    /// The empty buffer: what every entry point returns in an out-parameter it has nothing to
    /// write.
    pub fn empty() -> (out: Self)
        ensures
            out@ == Seq::<u8>::empty(),
    {
        ak_bytes { bytes: Vec::new() }
    }

    /// Takes ownership of `bytes`.
    pub fn from_boxed(bytes: Box<[u8]>) -> (out: Self)
        ensures
            out@ == bytes@,
    {
        if bytes.len() == 0 {
            let out = Self::empty();
            assert(out@ =~= bytes@);
            return out;
        }
        ak_bytes { bytes: boxed_into_vec(bytes) }
    }

    /// Takes ownership of `bytes`.
    pub fn from_vec(bytes: Vec<u8>) -> (out: Self)
        ensures
            out@ == bytes@,
    {
        if bytes.len() == 0 {
            let out = Self::empty();
            assert(out@ =~= bytes@);
            return out;
        }
        ak_bytes { bytes }
    }

    /// The UTF-8 encoding of `text`.
    pub fn from_string(text: String) -> (out: Self)
        ensures
            out@ == vstd::utf8::encode_utf8(text@),
    {
        let bytes = vstd::slice::slice_to_vec(text.as_str().as_bytes());
        Self::from_vec(bytes)
    }

    pub fn len(&self) -> (n: usize)
        ensures
            n == self@.len(),
    {
        self.bytes.len()
    }

    pub fn is_empty(&self) -> (b: bool)
        ensures
            b == (self@.len() == 0),
    {
        self.bytes.len() == 0
    }

    pub fn as_slice(&self) -> (s: &[u8])
        ensures
            s@ == self@,
    {
        self.bytes.as_slice()
    }

    /// The bytes, handed back.
    pub fn into_vec(self) -> (v: Vec<u8>)
        ensures
            v@ == self@,
    {
        self.bytes
    }
}

} // verus!
