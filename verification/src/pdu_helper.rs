pub mod pdu_modify;
pub mod qos_rules;
pub mod session_header;
