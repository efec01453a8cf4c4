//! Inject settings into the requests an unmodified program makes through the
//! curl library.
//!
//! A launcher encodes a list of typed options into a single environment
//! string and arranges for a small interception module to be loaded ahead of
//! the real library; on load that module decodes the list and applies every
//! option, in order, to each request handle before delegating to the original
//! entry point.  This crate holds the verified core of that protocol: the
//! option registry, the text codec, the launcher's ordering and preload-chain
//! rules, and the interception module's decision logic.

pub mod codec;
pub mod config;
pub mod error;
pub mod install;
pub mod launch;
pub mod options;
pub mod preload;
pub mod shim;
pub mod url_encode;
pub mod urlencode;

pub use codec::parse_options;
pub use codec::serialize_options;
pub use error::DecodeError;
pub use options::Kind;
pub use options::Meta;
pub use options::SetOption;
pub use options::Value;
