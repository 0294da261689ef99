//! bijjou: a post-processor for `jj log` output. The graph prefix of each
//! line is restyled, commit rows framed as NUL/RS records are re-rendered
//! through a small template language with elastic-tab column alignment, and
//! hydra stacks are recognised from their bookmark names.

pub mod bytes;
pub mod text;
pub mod ansi;
pub mod map;
pub mod config;
pub mod dsl;
pub mod render;
pub mod rows;
pub mod hydra;
pub mod measure;
pub mod stream;
pub mod toml_config;
pub mod output;
