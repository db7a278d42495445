//! Build metadata, object-generation helpers for an S3 load generator, and the
//! decision logic of a timestamp-compaction check, each with verified contracts.
use vstd::prelude::*;

pub mod build_info;
pub mod decimal;
pub mod datagen;
pub mod compaction;
