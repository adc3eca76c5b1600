//! Resolution of a module requirement `host/owner/name@version` into the tree
//! of the modules it depends on.
//!
//! The library decides and computes; it performs no input or output. Whoever
//! drives it fetches what a [`builder::Request`] names and hands the outcome
//! back as a [`builder::Event`].

pub mod builder;
pub mod error;
pub mod identifiers;
pub mod manifest;
pub mod package;
pub mod text;
pub mod world;

pub use builder::{Event, Request, TreeBuilder};
pub use error::{BuildError, FormatFault};
pub use identifiers::check_arg_format;
pub use manifest::parse_manifest;
pub use package::Package;
