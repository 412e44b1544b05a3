//! Verified core of a set of small command-line tools: MD5 checksums,
//! gzip file naming and header handling, argument parsing, and the text
//! processing behind `open`, `say`, `sw_vers` and `which`.

pub mod checksum;
pub mod gzip;
pub mod md5;
pub mod open;
pub mod paths;
pub mod say;
pub mod sw_vers;
pub mod text;
pub mod which;
