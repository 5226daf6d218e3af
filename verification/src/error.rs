//! What can go wrong on the device link and during an upload.

use crate::arduino::ResponseCode;
use vstd::prelude::*;

verus! {

/// An error of the device link.
#[derive(Debug, PartialEq, Eq)]
pub enum Error {
    /// The link itself failed; the text says how.
    Io(String),
    /// The response is not JSON.
    MalformedResponse,
    /// The response is an error ordinal that no code has.
    UnknownCode(i128),
    /// The response is not what the command answers with.
    UnexpectedResponse,
    /// The device refused the command with the given name.
    ArduinoResponse(String, ResponseCode),
    /// The device is not the one that is expected; the text, if any, says
    /// why.
    ArduinoVerification(Option<String>),
    /// The flashing utility ended with the given exit code, or without one.
    UploadFailed(Option<i32>),
    /// The flashing utility did not end in time.
    UploadTimeout,
}

/// An [`Error`] as plain values.
pub enum ErrorModel {
    Io(Seq<char>),
    MalformedResponse,
    UnknownCode(int),
    UnexpectedResponse,
    ArduinoResponse(Seq<char>, ResponseCode),
    ArduinoVerification(Option<Seq<char>>),
    UploadFailed(Option<i32>),
    UploadTimeout,
}

impl View for Error {
    type V = ErrorModel;

    open spec fn view(&self) -> ErrorModel {
        match self {
            Error::Io(message) => ErrorModel::Io(message@),
            Error::MalformedResponse => ErrorModel::MalformedResponse,
            Error::UnknownCode(code) => ErrorModel::UnknownCode(*code as int),
            Error::UnexpectedResponse => ErrorModel::UnexpectedResponse,
            Error::ArduinoResponse(command, code) => ErrorModel::ArduinoResponse(command@, *code),
            Error::ArduinoVerification(reason) => ErrorModel::ArduinoVerification(
                match reason {
                    Some(text) => Some(text@),
                    None => None,
                },
            ),
            Error::UploadFailed(code) => ErrorModel::UploadFailed(*code),
            Error::UploadTimeout => ErrorModel::UploadTimeout,
        }
    }
}

/// How the supervisor treats a failure.
#[derive(Clone, Copy, Debug, PartialEq, Eq, Structural)]
pub enum Failure {
    /// The link is broken: the connection is given up.
    Io,
    /// The device is not the expected one: the firmware is uploaded, once.
    Verification,
    /// Anything else: the link is taken to be usable still.
    Other,
}

impl ErrorModel {
    /// How the supervisor treats the error.
    pub open spec fn failure(self) -> Failure {
        match self {
            ErrorModel::Io(_) => Failure::Io,
            ErrorModel::ArduinoVerification(_) => Failure::Verification,
            _ => Failure::Other,
        }
    }
}

impl Error {
    /// How the supervisor treats the error.
    pub fn failure(&self) -> (class: Failure)
        ensures
            class == self@.failure(),
    {
        match self {
            Error::Io(_) => Failure::Io,
            Error::ArduinoVerification(_) => Failure::Verification,
            _ => Failure::Other,
        }
    }
}

} // verus!
