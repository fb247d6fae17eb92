//! A small line-oriented substring search library: scan a text for lines
//! containing a query (case-sensitively or after lowercase folding) and
//! render matched lines with the occurrences wrapped in emphasis markers.

pub mod config;
pub mod highlighter;
pub mod matcher;
pub mod text;

pub use config::Config;
pub use highlighter::ansi_bold;
pub use highlighter::ansi_reset;
pub use highlighter::highlight_case_insensitive;
pub use highlighter::highlight_case_sensitive;
pub use highlighter::highlight_line;
pub use matcher::search;
pub use matcher::search_case_insensitive;
pub use matcher::search_with_config;
pub use matcher::Match;
