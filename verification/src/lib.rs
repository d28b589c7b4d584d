//! Webaves web archive software suite: lossless text codecs, HTTP-style
//! header fields, HTTP message parsing and formatting, and byte streams.
pub mod codec;
pub mod compress;
pub mod crypto;
pub mod dns;
pub mod download;
pub mod error;
pub mod fetch;
pub mod hashing;
pub mod header;
pub mod http;
pub mod io;
pub mod net;
pub mod num;
pub mod quest;
pub mod scan;
pub mod stream;
pub mod stringesc;
pub mod stringutil;
pub mod weburl;
