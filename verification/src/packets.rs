use vstd::prelude::*;
use crate::sample::{decode_samples_vec, decoded_samples};

verus! {

/// One audio packet as delivered by the framed transport: an opaque
/// payload holding a whole number of canonical s16 little-endian
/// frames, and a flag saying whether the gap before this packet lost
/// one or more packets.
pub struct AudioPacket {
    /// The wire bytes of this packet.
    pub payload: Vec<u8>,
    /// True when the transport observed a gap before this packet.
    pub had_packet_loss: bool,
}

impl AudioPacket {
    /// The receive-side decode: every two payload bytes become one
    /// canonical sample. The loss flag is handed onward to the jitter
    /// buffer update, never embedded in the samples.
    pub fn decode(&self) -> (r: Vec<i16>)
        ensures
            r@ == decoded_samples(self.payload@),
    {
        decode_samples_vec(&self.payload)
    }
}

/// Reply of the streaming server to a client handshake.
#[derive(Clone, Copy, Debug, PartialEq, Eq, Structural)]
pub enum ServerHandshakePacket {
    /// The client is not on the trusted list.
    ClientUntrusted,
    /// Client and server versions cannot stream to each other.
    IncompatibleVersions,
}

/// Header of one video frame packet on the legacy stream.
#[derive(Clone, Copy, Debug, PartialEq, Eq, Structural)]
pub struct VideoFrameHeaderPacket {
    pub packet_counter: u32,
    pub tracking_frame_index: u64,
    pub video_frame_index: u64,
    pub sent_time: u64,
    pub frame_byte_size: u32,
    pub fec_index: u32,
    pub fec_percentage: u16,
}

} // verus!
