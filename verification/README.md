# nr_dataplane

Control-plane message handling for a 5G NR data-plane test terminal, verified with Verus.

- `src/ctrl_helper.rs`: control frames exchanged with the host (tag, 16-bit length, payload)
  and the controller's decision for each frame.
- `src/pdu_helper/qos_rules.rs`: decoding of the authorized QoS rules information element and
  reflective QoS (mapping an uplink packet to a QoS flow).
- `src/pdu_helper/pdu_modify.rs`: decoding of the PDU session modification command, extended
  protocol configuration options, DNNs and PDU addresses.
- `src/pdu_helper/session_header.rs`, `src/msg.rs`, `src/route_helper.rs`: message header
  types, worker tags and routing commands.
- `app/`: the executable: configuration, logging, UDP sockets and worker threads.
