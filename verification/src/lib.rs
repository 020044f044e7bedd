//! A file-watch-driven execution supervisor and an npm-style
//! lockfile/cache resolver.
//!
//! The watch side turns raw file-system notifications into coalesced
//! change batches (`debounce`), tracks the set of watched roots
//! (`watched`), and drives the restart state machine for the supervised
//! subcommand (`scheduler`).
//!
//! The resolution side reconciles requested package specifiers, a
//! persisted lockfile snapshot, an on-disk package cache and registry
//! metadata into one consistent dependency snapshot (`semver`,
//! `lockfile`, `cache`, `registry`, `resolver`).

pub mod strutil;
pub mod semver;
pub mod lockfile;
pub mod cache;
pub mod registry;
pub mod specifier;
pub mod resolver;
pub mod debounce;
pub mod scheduler;
pub mod watched;
pub mod web;
pub mod broadcast_channel;
pub mod netops;
pub mod noderuntime;
pub mod subcommand;
