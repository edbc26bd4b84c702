//! Per-connection MQTT session: terminates MQTT on the client side and
//! originates a corresponding session toward the backend broker.
//!
//! Packet identifiers pass through unchanged because each client session owns
//! exactly one broker-side connection, so the broker's QoS acknowledgements
//! chain end-to-end.

pub mod conduct;
pub mod forward;
pub mod handshake;
pub mod keepalive;
pub mod laws;
pub mod outage;
pub mod subscriptions;
