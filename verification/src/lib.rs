//! Discovery, ordering and resolution of release versions of a software
//! distribution, together with the naming of the downloadable artifact for a
//! resolved version.
//!
//! The library models a version identifier as a string `v<major>.<minor>.<patch>`
//! over non-negative integers. It parses such identifiers out of an HTML
//! directory listing, orders them by their numeric triple, validates a
//! requested version against the discovered set, and derives the download URL
//! of the artifact for a resolved version.

pub mod error;
pub mod namer;
pub mod parser;
pub mod resolver;
pub mod version;
