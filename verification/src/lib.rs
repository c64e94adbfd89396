//! Text extraction for one novel's "all episodes" page: literal substring
//! search over borrowed text, a forward-only episode scanner built on it, and
//! the scraper that assembles title, author and episodes.

pub mod book;
pub mod encoding;
pub mod naming;
pub mod novel;
pub mod scanner;
pub mod scrape;
pub mod search;
pub mod text;
