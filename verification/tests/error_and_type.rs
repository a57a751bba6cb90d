use easy_file::dsptype::types::{dsptype, Type};
use easy_file::error::{ErrorType, OptError};

#[test]
fn get_msg_gives_each_message() {
    assert_eq!(OptError::get_msg(ErrorType::OptSuccess), "operation successfully!");
    assert_eq!(OptError::get_msg(ErrorType::Unknuw), "unknow error!");
    assert_eq!(OptError::get_msg(ErrorType::OpenFileFailure), "open file failure!");
    assert_eq!(OptError::get_msg(ErrorType::FileNotExist), "file not exist!");
    assert_eq!(OptError::get_msg(ErrorType::ReadFileFailure), "read file failure!");
    assert_eq!(OptError::get_msg(ErrorType::WriteFileFailure), "write file failure!");
}

#[test]
fn dsptype_knows_the_three_protocols() {
    assert_eq!(dsptype("s3://ak@sk/cos.ap-chengdu.myqcloud.com/test-1259750376/123"), Type::Types3);
    assert_eq!(dsptype("ftp://host/dir/file"), Type::TypeFtp);
    assert_eq!(dsptype("smb://server/share"), Type::TypeSmb);
}

#[test]
fn dsptype_reads_only_up_to_the_first_colon() {
    assert_eq!(dsptype("ftp:s3:smb"), Type::TypeFtp);
    assert_eq!(dsptype("a:s3"), Type::Unknow);
    assert_eq!(dsptype(":s3"), Type::Unknow);
}

#[test]
fn dsptype_without_colon_is_unknown() {
    assert_eq!(dsptype("s3"), Type::Unknow);
    assert_eq!(dsptype(""), Type::Unknow);
    assert_eq!(dsptype("http://host"), Type::Unknow);
    assert_eq!(dsptype("S3://x"), Type::Unknow);
}

#[test]
fn dsptype_counts_characters_not_bytes() {
    assert_eq!(dsptype("é:x"), Type::Unknow);
    assert_eq!(dsptype("s3:é"), Type::Types3);
}
