//! Verified core of an audio device I/O layer: the Open Sound Control wire
//! format and the device-selection and stream-negotiation rules.
pub mod osc_types;
pub mod osc_wire;
pub mod osc_decode;
pub mod osc_lemmas;
pub mod osc_encode;
pub mod osc_laws;
pub mod osc_byte_order;
pub mod core_types;
pub mod text;
pub mod error;
pub mod host;
pub mod negotiate;
pub mod stream_plan;
pub mod devices;
