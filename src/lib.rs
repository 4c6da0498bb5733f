//! Readable rendering of captured call stacks: demangling of generic and
//! suspend-state symbol names, include/exclude frame filters, and the
//! short/full truncation policy driven by marker frames.
pub mod text;
pub mod name;
pub mod filter;
pub mod config;
pub mod trace;
pub mod render;

pub use config::{BacktraceConfig, BacktraceStyle};
pub use filter::{ConfigError, Filter, FilterClause, Pattern};
pub use name::{Context, format_frame_name, format_helper, is_async, split_brackets};
pub use render::{format_backtrace, render_backtrace};
pub use trace::{Backtrace, FrameInfo, SymbolInfo, collect_backtrace};
