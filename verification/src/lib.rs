pub mod cli;
pub mod cyclonedx;
pub mod error;
pub mod strutil;
pub mod material;
pub mod tsv;
pub mod spdx;
pub mod tagcheck;
pub mod json;
pub mod xml;
pub mod evaluate;
