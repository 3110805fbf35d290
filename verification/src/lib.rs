//! Mounting of packed WAD archives as navigable virtual directory trees.
//!
//! An archive is parsed into its chunk table ([`archive`]). Each chunk is known by the
//! hash of its path; a table of known paths ([`resolver`]) gives the hashes their
//! paths back, and [`path`] says how a path falls into segments. From the chunks and
//! their paths a tree of files and directories is built ([`tree`]), whose shape is
//! described in [`layout`]. Mounted archives are kept in a registry ([`registry`]),
//! each under an identity of its own ([`ident`]). What is selected in a tree can be
//! extracted, chunk by chunk ([`extract`]). The operations that callers use are in
//! [`commands`].

pub mod archive;
pub mod commands;
pub mod extract;
pub mod ident;
pub mod layout;
pub mod path;
pub mod registry;
pub mod resolver;
pub mod tree;
