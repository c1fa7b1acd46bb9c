//! Primitive data carriers handed across the library's boundary.

use vstd::prelude::*;
use vstd::slice::slice_to_vec;
use vstd::string::StringSliceAdditionalSpecFns;

verus! {

/// An owned copy of payload bytes, with its size.
pub struct BytesBuffer {
    /// Size of the data in bytes.
    pub size: u64,
    /// The data.
    pub bytes: Vec<u8>,
}

/// An owned copy of a log's whole buffer, handed to the drawing layer.
pub struct MutBytesBuffer {
    /// Size of the data in bytes.
    pub size: u64,
    /// The data.
    pub bytes: Vec<u8>,
}

impl BytesBuffer {
    /// A buffer holding a copy of the given bytes.
    pub fn new(values: &[u8]) -> (r: Self)
        ensures
            r.bytes@ == values@,
            r.size == values@.len(),
    {
        let bytes = slice_to_vec(values);
        let size = bytes.len() as u64;
        BytesBuffer { size, bytes }
    }

    /// A buffer holding a copy of the string's bytes.
    pub fn from_str(text: &str) -> (r: Self)
        ensures
            r.bytes@ == text.spec_bytes(),
            r.size == text.spec_bytes().len(),
    {
        BytesBuffer::new(text.as_bytes())
    }

    /// A buffer holding a copy of the string's bytes.
    pub fn from_string(text: &String) -> (r: Self)
        ensures
            r.bytes@ == vstd::utf8::encode_utf8(text@),
            r.size == vstd::utf8::encode_utf8(text@).len(),
    {
        BytesBuffer::from_str(text.as_str())
    }
}

} // verus!
