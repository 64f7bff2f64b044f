//! Rewrites relative import paths of script sources into a root-alias form.
//!
//! The library holds the whole decision logic: which entries of a tree are
//! scanned, how deep a file sits below its `src` directory, how many parent
//! segments an import climbs, and how a line is rewritten.
use vstd::prelude::*;

pub mod text;
pub mod path;
pub mod rewrite;
