//! A file-backed cache of syndicated articles.
//!
//! The library decides what every file of the cache holds and what each
//! operation returns; its caller reads and writes the files, fetches feeds and
//! drives the terminal.
//!
//! - `record`, `time`: articles and feeds, and UTC instants as plain values.
//! - `codec`, `roundtrip`: the article file format, and reading it back.
//! - `store`, `order`, `laws`: the article store's operations, newest-first
//!   ordering, and properties of the store as a whole.
//! - `feed`: turning a fetched feed document into articles.
//! - `schedule`: which feed to fetch next, with a bound on fetches in flight.
//! - `scanner`: feed URLs tagged in notes, and domains to probe for feeds.
//! - `viewer`: scrolling and the texts of the article viewer.
//! - `text`: character-sequence helpers.

pub mod codec;
pub mod feed;
pub mod laws;
pub mod order;
pub mod record;
pub mod roundtrip;
pub mod scanner;
pub mod schedule;
pub mod store;
pub mod text;
pub mod time;
pub mod viewer;
