//! Uniform access to remote files (S3, FTP, SMB) addressed by URL-like
//! paths, with a local disk cache that keeps remote files in fixed-size
//! nodes named by the SHA-256 digest of what identifies them.

pub mod cache;
pub mod dsptype;
pub mod error;
pub mod file;
pub mod file_opt;
pub mod protocols;
pub mod text;
