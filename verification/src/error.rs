use vstd::prelude::*;

verus! {

/// The kinds of outcome that an operation on a file can report.
#[derive(Debug)]
pub enum ErrorType {
    OptSuccess,
    OpenFileFailure,
    FileNotExist,
    ReadFileFailure,
    WriteFileFailure,
    Unknuw,
}

/// An error raised by a file operation, carrying a human-readable message.
#[derive(Debug)]
pub struct OptError {
    msg: String,
}

/// The message that stands for each kind of outcome.
pub open spec fn message_of(err_type: ErrorType) -> Seq<char> {
    match err_type {
        ErrorType::OptSuccess => "operation successfully!"@,
        ErrorType::Unknuw => "unknow error!"@,
        ErrorType::OpenFileFailure => "open file failure!"@,
        ErrorType::FileNotExist => "file not exist!"@,
        ErrorType::ReadFileFailure => "read file failure!"@,
        ErrorType::WriteFileFailure => "write file failure!"@,
    }
}

impl OptError {
    /// Returns the message that describes `err_type`.
    pub fn get_msg(err_type: ErrorType) -> (msg: String)
        ensures
            msg@ == message_of(err_type),
    {
        match err_type {
            ErrorType::OptSuccess => String::from_str("operation successfully!"),
            ErrorType::Unknuw => String::from_str("unknow error!"),
            ErrorType::OpenFileFailure => String::from_str("open file failure!"),
            ErrorType::FileNotExist => String::from_str("file not exist!"),
            ErrorType::ReadFileFailure => String::from_str("read file failure!"),
            ErrorType::WriteFileFailure => String::from_str("write file failure!"),
        }
    }
}

} // verus!

verus! {

#[verifier::external_type_specification]
#[verifier::external_body]
pub struct ExIoError(std::io::Error);

} // verus!

verus! {

/// Calls `std::io::Error::last_os_error`. Nothing is stated of the error it
/// gives: it reflects the last error the operating system reported.
#[verifier::external_body]
pub(crate) fn last_os_error() -> (err: std::io::Error) {
    std::io::Error::last_os_error()
}

} // verus!
