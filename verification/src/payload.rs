//! The reference-counted buffers in which media data travels.

use vstd::prelude::*;

verus! {

/// `bytes::Bytes`, carried through as it is. What it holds is spoken of through
/// `bytes_content` only.
#[verifier::external_type_specification]
#[verifier::external_body]
pub struct ExBytes(bytes::Bytes);

/// The bytes that a buffer of the `bytes` crate holds.
pub uninterp spec fn bytes_content(buffer: bytes::Bytes) -> Seq<u8>;

/// `Bytes::copy_from_slice` makes a buffer that holds a copy of the slice.
pub assume_specification[ bytes::Bytes::copy_from_slice ](data: &[u8]) -> (buffer: bytes::Bytes)
    ensures
        bytes_content(buffer) == data@,
;

/// `Bytes::from` on a vector makes a buffer that holds the vector's bytes.
#[verifier::external_body]
pub(crate) fn bytes_from_vec(data: Vec<u8>) -> (buffer: bytes::Bytes)
    ensures
        bytes_content(buffer) == data@,
{
    bytes::Bytes::from(data)
}

/// One RTP packet on its way from the camera to the browsers.
pub struct RtpPacket {
    pub data: bytes::Bytes,
}

} // verus!
