//! Uploading symbols files to the Mozilla Symbols Server.
//!
//! This is everything that an upload decides and computes: which files of a directory are symbols
//! files, how they are grouped into archives or batches, what is sent to the server, and what
//! follows from each response. Files and connections are left to the program around it.

pub mod base;
pub mod client;
pub mod decimal;
pub mod digest;
pub mod download;
pub mod error;
pub mod fake_tecken;
pub mod gcs;
pub mod hex;
pub mod keys;
pub mod paths;
pub mod pool;
pub mod summary;
pub mod sym_files;
pub mod telemetry;
pub mod tempdir;
pub mod text;
pub mod urls;
pub mod v1;
pub mod v2;
pub mod version;

pub use crate::base::AuthInfo;
pub use crate::client::{Client, ClientBuilder};
pub use crate::error::Error;
pub use crate::summary::UploadSummary;
pub use crate::version::UploadApiVersion;
