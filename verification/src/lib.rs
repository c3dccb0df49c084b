//! `nya` ("Not Yet APT"): the logic of a minimal APT-like package manager.
//!
//! - [`parser`] reads the DEB822 list of repositories;
//! - [`url`] turns download addresses into flat file names;
//! - [`signature`] checks the OpenPGP signature of a release file;
//! - [`package_info`] finds a package index in a release file's SHA256 section;
//! - [`commands::update`] decides, mirror by mirror, what to download and
//!   what to keep;
//! - [`types`] and [`configuration`] hold the values passed between them.
pub mod commands;
pub mod configuration;
pub mod integrity;
pub mod package_info;
pub mod parser;
pub mod signature;
pub mod text;
pub mod types;
pub mod url;
