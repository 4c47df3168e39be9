//! Decision logic of a root-management daemon: which binaries to unpack, how a
//! policy patch is read and driven against the kernel, which package signer
//! vouches for the manager, how modules move through their lifecycle, and how
//! the enabled modules stack into an overlay.
//!
//! Everything here works on plain values. Reading files, mounting and talking
//! to the kernel are left to the caller, who hands the results back in.
pub mod assets;
pub mod boot;
pub mod bytes;
pub mod cli;
pub mod grant;
pub mod module;
pub mod namespace;
pub mod overlay;
pub mod package;
pub mod patch;
pub mod profile;
pub mod registry;
pub mod sepolicy;
pub mod trust;
