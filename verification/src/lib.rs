//! Client-side protocol layer for a virtual hardware bus exposed as a duplex
//! character device.
//!
//! The heart of the crate is the wire codec: every message travels as a
//! NUL-delimited JSON envelope, outbound frames are capped at a hard byte
//! limit, and bulk results can be decoded element by element without
//! buffering the whole payload.  All of that logic lives here, specified and
//! verified; the thin I/O shell that owns the device handle sits outside the
//! library and only moves bytes.

pub mod json;
pub mod ser;
pub mod parse;
pub mod types;
pub mod frame;
pub mod roundtrip;
pub mod codec;
pub mod stream;

pub use json::JsonValue;
pub use json::JVal;
pub use types::Empty;
pub use types::HLAPIDeviceDescriptor;
pub use types::HLAPIDeviceHandle;
pub use types::HLAPIError;
pub use types::HLAPIMethod;
pub use types::HLAPIReceive;
pub use types::HLAPISend;
pub use types::HLAPIType;
pub use types::Never;
