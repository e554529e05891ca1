//! Content processing core of a personal blog and book-catalog site:
//! HTML sanitization, code-block presentation, text metrics (reading
//! time, excerpts, meta descriptions), and grouped, searchable book
//! catalog views.

pub mod blog;
pub mod books;
pub mod catalog;
pub mod config;
pub mod dates;
pub mod enhance;
pub mod ids;
pub mod markdown;
pub mod sanitize;
pub mod strutil;
pub mod text;

pub use text::truncate_text;
