use easy_file::file::FileCursor;
use easy_file::protocols::FtpClient;

#[test]
fn ftp_client_serves_nothing() {
    let mut c = FtpClient::open("ftp://host/file", None);
    assert!(c.get_attr().is_none());
    assert!(c.seek(42).is_ok());
    assert!(c.read(10).is_none());
    assert!(c.read_to_file(10, "out.bin").is_ok());
    assert!(c.write(&[1, 2, 3]).is_ok());
    c.close();
    assert!(FtpClient::is_exist("ftp://host/none"));
    assert_eq!(FtpClient::enumerate("ftp://host/").unwrap().len(), 0);
    assert!(FtpClient::delete("ftp://host/file").is_ok());
}

#[test]
fn file_cursor_seeks() {
    let mut cur = FileCursor::open();
    assert_eq!(cur.offset(), 0);
    assert!(cur.seek(3).is_ok());
    assert_eq!(cur.offset(), 3);
    assert!(cur.seek(-7).is_ok());
    assert_eq!(cur.offset(), -7);
}
