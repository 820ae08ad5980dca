//! Metadata of locally installed game addons.
//!
//! An addon is a directory that holds a descriptor, a line-oriented text file
//! named after the directory. This library reads descriptors, resolves the
//! loosely written versions that they declare, and selects, orders and
//! describes addons. It performs no input or output: the caller lists the
//! root directory and reads the files, and hands over what it found.
//!
//! - [`text`]: character sequences.
//! - [`tag`]: the tag that a line of a descriptor declares.
//! - [`version`]: versions and their lenient reading.
//! - [`toc`]: descriptors.
//! - [`addon`]: entries of the root directory, addons, listing and lookup.
//! - [`error`]: the failures that are reported.

pub mod addon;
pub mod error;
pub mod tag;
pub mod text;
pub mod toc;
pub mod version;
