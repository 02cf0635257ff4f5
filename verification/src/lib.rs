//! Verified core of the Lumia image viewer.
use vstd::prelude::*;

pub mod association_formats;
pub mod cli;
pub mod colors;
pub mod community;
pub mod decode_route;
pub mod digest;
pub mod editing;
pub mod file_association_state;
pub mod formats;
pub mod large_image;
pub mod load_state;
pub mod package_archive;
pub mod package_checks;
pub mod platform_open;
pub mod plugin_catalog;
pub mod plugin_management;
pub mod persistence;
pub mod plugin_package;
pub mod plugin_registry;
pub mod plugin_session;
pub mod preview_cache;
pub mod professional_preview;
pub mod registration;
pub mod text;
pub mod versions;
pub mod windows_paths;
