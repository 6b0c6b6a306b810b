//! Files of the repository other than packs.

pub mod keyfile;
