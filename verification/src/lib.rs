//! Core of a networked weather station.
//!
//! - [`codec`], [`varint`], [`float_bits`]: readings in fixed point and their
//!   compact encoding;
//! - [`datagram`], [`recv_window`], [`crypto`], [`bytes`]: encrypted datagrams and
//!   acknowledgements;
//! - [`uplink`], [`server`]: both ends of the datagram protocol;
//! - [`wire`], [`backlog`], [`sender`], [`logger`]: the stream protocol;
//! - [`sensor_cycle`], [`clock`], [`supervisor`], [`wifi_pick`], [`led_color`],
//!   [`led_status`]: the tasks of the station;
//! - [`config`], [`text`]: build configuration;
//! - [`time`]: lengths of time.

pub mod backlog;
pub mod bytes;
pub mod clock;
pub mod codec;
pub mod config;
pub mod crypto;
pub mod datagram;
pub mod float_bits;
pub mod led_color;
pub mod led_status;
pub mod logger;
pub mod recv_window;
pub mod sender;
pub mod sensor_cycle;
pub mod server;
pub mod supervisor;
pub mod text;
pub mod time;
pub mod uplink;
pub mod varint;
pub mod wifi_pick;
pub mod wire;
