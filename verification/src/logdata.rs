//! The per-packet record handed to the pipeline by the packet source, and
//! the classification that decides which packets feed the counters.

use vstd::prelude::*;

verus! {

/// One observed packet, with its composite key already rendered.
pub struct LogData {
    pub source: String,
    pub destination: String,
    pub ja3: String,
    pub packet_size: usize,
    pub is_handshake: bool,
    pub ethernet_frame_size: usize,
    pub is_syn: bool,
    pub is_fin: bool,
    pub is_rst: bool,
}

impl LogData {
    /// A packet feeds the counters when it is a TLS handshake or any of
    /// the SYN, FIN, RST control frames; everything else is ignored.
    pub fn is_interesting(&self) -> (r: bool)
        ensures
            r == (self.is_fin || self.is_rst || self.is_syn || self.is_handshake),
    {
        self.is_fin || self.is_rst || self.is_syn || self.is_handshake
    }
}

} // verus!
