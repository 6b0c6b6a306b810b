//! Core of a deduplicating, encrypted, content-addressed backup repository:
//! identifiers, authenticated encryption, key files, the pack file format and
//! the packer that assembles pack files from blobs.

pub mod blob;
pub mod crypto;
pub mod error;
pub mod id;
pub mod index;
pub mod packfile;
pub mod repo;
