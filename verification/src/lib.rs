//! A strict decoder and rule evaluator for game-launch version manifests.
//!
//! The manifest arrives as a generic structured tree ([`raw::Raw`]); the
//! decoder turns it into a typed, immutable [`version::Version`], rejecting
//! unknown and repeated keys and enforcing required fields. Conditional
//! entries carry ordered condition lists; [`rule::evaluate`] decides, for a
//! runtime [`rule::Context`], whether an entry is included, and the
//! selectors filter argument and dependency lists without reordering them.
//! Every decoder and selector is specified against a mathematical model of
//! the wire format, and encoding is proved to round-trip: decoding what
//! [`version::encode_version`] writes gives back the manifest unchanged.

pub mod error;
pub mod library;
pub mod logging;
pub mod raw;
pub mod rule;
pub mod version;

pub use error::DecodeError;
pub use library::{Artifact, Library, Natives};
pub use raw::Raw;
pub use rule::{Context, OsCriteria, Rule, RuleAction};
pub use version::{Argument, Arguments, AssetIndex, Download, JavaVersion, Version, VersionKind};
