pub mod ftp;
pub mod s3;

pub use ftp::FtpClient;
