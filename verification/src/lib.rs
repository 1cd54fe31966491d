//! A small verified library behind a file-backed book service.
//!
//! A book has a name, an author and a publication date. Books are stored one
//! per file, as JSON, under a fixed directory; the file name is derived from
//! the book's name by a simple sanitizer. This crate holds everything that
//! can be stated and proved: the date model, the JSON encoding and decoding
//! of a book, the sanitizer and path construction, an in-memory model of the
//! store, and the route and error mapping of the HTTP layer. The surrounding
//! binary does the actual network and file I/O and calls into this crate for
//! every decision.

pub mod codec;
pub mod date;
pub mod jsontext;
pub mod routes;
pub mod sanitize;
pub mod service;
pub mod store;
pub mod strutil;

pub use codec::{decode_book, encode_book, Book, DecodeError};
pub use date::{format_date, parse_date, Date};
pub use routes::{rejection_response, route_of, Method, RejectionKind, Response, Route};
pub use sanitize::{sanitize_filename, storage_path};
pub use service::{apply_delete, apply_get, apply_save, handle_request};
pub use store::MemFs;
