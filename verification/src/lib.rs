//! EternalMonitor host logic: the protocol-v2 wire codecs, fragment
//! reassembly, send pacing and repair, input mapping, pairing and the
//! Apple device-service framing, each with a machine-checked contract.

pub mod wire;
pub mod media;
pub mod reassembly;
pub mod pacer;
pub mod hid;
pub mod input;
pub mod relay;
pub mod probe_guard;
pub mod recorder;
pub mod apple_usb;
pub mod text;
pub mod ui;
pub mod retransmit;
pub mod link;
pub mod control;
pub mod pairing;
pub mod session;
pub mod usbmuxd;
pub mod audio;
pub mod encoder_input;
pub mod sender;
pub mod logging;
pub mod updates;
pub mod fault;
pub mod tunnels;
pub mod inject_plan;
