//! The parameters of an H.264 source.

use vstd::prelude::*;

verus! {

/// What a WebRTC peer has to know of an H.264 source.
#[derive(Debug)]
pub struct H264CodecInfo {
    pub payload_type: u8,
    pub sps: Vec<u8>,
    pub pps: Vec<u8>,
}

/// An `H264CodecInfo` with its parameter sets as sequences.
pub struct CodecView {
    pub payload_type: u8,
    pub sps: Seq<u8>,
    pub pps: Seq<u8>,
}

impl View for H264CodecInfo {
    type V = CodecView;

    open spec fn view(&self) -> CodecView {
        CodecView { payload_type: self.payload_type, sps: self.sps@, pps: self.pps@ }
    }
}

impl Clone for H264CodecInfo {
    fn clone(&self) -> (copy: H264CodecInfo)
        ensures
            copy@ == self@,
            copy.payload_type == self.payload_type,
            copy.sps@ == self.sps@,
            copy.pps@ == self.pps@,
    {
        H264CodecInfo {
            payload_type: self.payload_type,
            sps: self.sps.clone(),
            pps: self.pps.clone(),
        }
    }
}

/// The view of codec parameters tells the payload type and both parameter sets,
/// each in its own place: parameters with the same view are the same.
pub proof fn law_codec_view_tells_all(a: H264CodecInfo, b: H264CodecInfo)
    ensures
        a@.payload_type == a.payload_type && a@.sps == a.sps@ && a@.pps == a.pps@,
        a@ == b@ <==> a.payload_type == b.payload_type && a.sps@ == b.sps@ && a.pps@ == b.pps@,
{
}

} // verus!
