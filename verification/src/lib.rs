//! Control-plane message handling for a 5G NR data-plane terminal:
//! UDP control frames, NAS PDU session modification decoding, QoS rule
//! decoding and uplink QoS-flow selection.

pub mod route_helper;
pub mod ctrl_helper;
pub mod msg;
pub mod pdu_helper;
