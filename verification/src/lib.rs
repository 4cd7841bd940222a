//! A verified document-export engine.
//!
//! The library turns rich-text markup produced by a block-style editor into
//! two portable document forms: a flow document (a zipped word-processing
//! package) and a paginated page description.  The markup is parsed into a
//! small block/inline model by a tolerant scanner and parser; two renderers
//! map the model onto the output forms.  A small signing module provides the
//! request-signing helpers used when publishing to external platforms.

pub mod blocks;
pub mod docx;
pub mod inline;
pub mod pdf;
pub mod records;
pub mod scan;
pub mod sign;
pub mod text;
