//! A content-addressable static-asset versioning engine, verified with
//! Verus.
//!
//! Given a snapshot of a file tree, the engine fingerprints each asset by
//! its content, places a fingerprinted copy beside it, rewrites every
//! stylesheet and markup reference that points at it, and deletes the
//! stale copies earlier runs left behind — and it is safe to re-run: an
//! unchanged tree is never touched again.  The engine works on an explicit
//! snapshot (`fs_model::Directory`) and records every mutation it makes,
//! so a thin caller can load a real tree, run the engine, and replay the
//! recorded mutations.
//!
//! The crate also carries a small line searcher (`grep`, `search`) over
//! the same verified text utilities.

pub mod codec;
pub mod css;
pub mod fs_model;
pub mod grep;
pub mod hashing;
pub mod html;
pub mod manager;
pub mod paths;
pub mod pipeline;
pub mod registry;
pub mod search;
pub mod text;
pub mod versioner;
