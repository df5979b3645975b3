//! Parsing of the corpus source tables. Each submodule takes the rows of one
//! tab-separated file, already split into plain string fields, and builds the
//! crate's data model; reading the files themselves is left to the caller.

/// The glyph-pronunciation table and the glyph types.
pub mod char_pronunciation;

/// The contraction table: multi-glyph runs realized as a single syllable.
pub mod contraction;

/// The vocabulary: dictionary entries keyed by a normalized identity.
pub mod vocab;

/// The phrase corpus: one sentence per row.
pub mod phrase;

/// The glyph-dismantling table: a stack-machine notation for how a glyph
/// decomposes into sub-components.
pub mod linzklar_dismantling;
