/// Opaque text payloads.
pub mod body;
/// Ordered key/value header pairs.
pub mod header;
/// The closed method vocabulary.
pub mod method;
/// The closed status-code registry.
pub mod status;
/// HTTP version recognition.
pub mod version;

pub use body::Body;
pub use header::Header;
pub use method::Method;
pub use status::{StatusCode, StatusCodeInt};
pub use version::Version;
