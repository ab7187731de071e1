//! Verified core of an OpenType layout rule engine.
//!
//! The crate decodes raw GSUB/GPOS table bytes into cached lookup metadata,
//! classifies subtables (resolving one level of extension indirection),
//! aggregates per-subtable coverage into approximate glyph-set digests, and
//! matches chained-context rules against a glyph run.

pub mod classdef;
pub mod contextual;
pub mod coverage;
pub mod digest;
pub mod lookup_cache;
pub mod matching;
pub mod raw;
pub mod subtable;
