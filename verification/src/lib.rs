//! MQTT 3.1.1 control-packet codec and broker-side session state.
//!
//! The crate has two halves: the packet codec (fixed header, remaining
//! length, variable header and payload layouts for the fourteen packet
//! kinds) and the session table that interprets a stream of decoded
//! packets per connection.

pub mod serde;
pub mod qos;
pub mod connack;
pub mod control;
pub mod remaining_length;
pub mod fixed_header;
pub mod will;
pub mod variable_header;
pub mod payload;
pub mod message;
pub mod session;
pub mod roundtrip;
