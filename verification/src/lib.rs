//! traffic-director: MQTT reverse proxy with zero-downtime self-restart.

pub mod args;
pub mod codec;
pub mod error;
pub mod frame;
pub mod init;
pub mod migrate;
pub mod packet;
pub mod registry;
pub mod server;
pub mod session;
pub mod types;
pub mod v3;
pub mod v5;
pub mod window;

pub use packet::MqttPacket;
