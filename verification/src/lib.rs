//! A byte-oriented dump and reverse engine.
//!
//! A buffer is cut into groups of sixteen bytes, each group is rendered as a
//! line of hexadecimal digits with an optional address column and ASCII
//! gutter, and hex text is decoded back into the bytes it stands for.

pub mod chunk;
pub mod config;
pub mod parse;
pub mod render;
pub mod roundtrip;
pub mod transform;

pub use chunk::Chunker;
pub use config::{Config, ConfigError, LogLevel, Mode};
pub use parse::{parse_bytes, ScanState};
pub use render::{format_hex, format_text, render, render_lines};
pub use transform::transform;
