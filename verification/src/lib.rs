//! A small line-search library: split a text buffer into lines, find the
//! lines that contain a needle (case-sensitively or case-insensitively),
//! and render each hit as `"<1-based line number>: <line text>"`.

mod config;
mod fold;
mod matcher;
mod render;
mod text;

pub use config::{Config, ConfigError, Param};
pub use fold::lower_of;
pub use matcher::{
    lemma_case_insensitive_superset, lemma_empty_needle_matches_all, lemma_search_sensitive_exact,
    line_matches, match_records_from, run, search, search_case_insensitive, search_spec,
    MatchRecord,
};
pub use render::{dec_digits, digit_char, render_matches, render_spec};
pub use text::{contains_at, contains_seq, contains_substring, split_lines};
