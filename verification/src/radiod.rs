//! The side of ka9q-radio's `radiod`: control packets and sample packets.

pub mod control;
pub mod multicast;
pub mod rtp;
pub mod tlv;
