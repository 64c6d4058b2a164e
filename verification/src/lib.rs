//! Verified core of an r/place scraper: the packed diff format, its byte
//! encoding, the CSV reader that produces it, text helpers, and the
//! decisions the websocket scraper and the archiver take.
pub mod diff;
pub mod bytes;
pub mod text;
pub mod encode;
pub mod decode;
pub mod json;
pub mod scrape;
pub mod session;
pub mod archive;
