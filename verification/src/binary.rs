//! The binary form of a WebIDL bindings section: the wire-format description,
//! the encoder, the decoder, and the proof that decoding inverts encoding.

pub mod error;
pub mod leb;
pub mod wire;
pub mod encode;
pub mod decode;
pub mod roundtrip;

pub use self::decode::decode;
pub use self::encode::encode;
pub use self::encode::is_encodable;
