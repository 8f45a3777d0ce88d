//! Discovery-record decoding and a clock-synchronized UDP control plane for
//! networked audio receivers.
//!
//! The crate decodes advertised capability bitmasks into a typed device
//! model, keeps a monotonic clock reference anchored to the NTP epoch, and
//! encodes/decodes the fixed-layout timing and control datagrams exchanged
//! with a sender.

pub mod device;
pub mod hosts;
pub mod mask;
pub mod ntp;
pub mod packets;
pub mod strutil;
