//! Operations on paths.

use crate::adapters::error::error_class;
use crate::adapters::error::ErrorClass;
use crate::adapters::io_worker::DirChange;
use crate::adapters::io_worker::IoReqOptions;
use crate::adapters::io_worker::OutcomeKind;
use crate::adapters::SimpleThreadFuture;
use crate::adapters::SimpleThreadFutureState;
use std::path::PathBuf;
use std::string::FromUtf8Error;
use vstd::prelude::*;
use vstd::utf8::decode_utf8;
use vstd::utf8::valid_utf8;

verus! {

/// `std::string::FromUtf8Error`: why bytes are not a string.
#[verifier::external_type_specification]
#[verifier::external_body]
pub struct ExFromUtf8Error(FromUtf8Error);

/// `String::from_utf8` turns bytes into a string without copying them. It
/// succeeds exactly on well-formed UTF-8, and the string is then what the
/// bytes encode.
pub assume_specification[ String::from_utf8 ](vec: Vec<u8>) -> (r: Result<String, FromUtf8Error>)
    ensures
        r is Ok <==> valid_utf8(vec@),
        r matches Ok(s) ==> s@ == decode_utf8(vec@),
;

/// `std::io::Error::new` with `ErrorKind::InvalidData`: an error whose kind
/// is the one given, with the decoding error as its cause.
#[verifier::external_body]
fn invalid_data(cause: FromUtf8Error) -> (r: std::io::Error)
    ensures
        error_class(r) == ErrorClass::InvalidData,
{
    std::io::Error::new(std::io::ErrorKind::InvalidData, cause)
}

/// The text that the contents of a file are, if they are well-formed UTF-8.
/// This is the last step of reading a file to a string, after the file was
/// opened and read to its end.
pub fn text_of(contents: Vec<u8>) -> (r: Result<String, std::io::Error>)
    ensures
        r is Ok <==> valid_utf8(contents@),
        r matches Ok(s) ==> s@ == decode_utf8(contents@),
        r matches Err(e) ==> error_class(e) == ErrorClass::InvalidData,
{
    match String::from_utf8(contents) {
        Ok(s) => Ok(s),
        Err(utf8_error) => Err(invalid_data(utf8_error)),
    }
}

/// Creates the directory at `p`. Its parent must exist.
pub fn create_dir(p: PathBuf) -> (r: SimpleThreadFuture)
    ensures
        r.state == SimpleThreadFutureState::NotYetStarted(
            IoReqOptions::ChangeDir(p, DirChange::CreateDir),
        ),
        r.check_outcome == OutcomeKind::DirChanged,
{
    SimpleThreadFuture::new(IoReqOptions::ChangeDir(p, DirChange::CreateDir), OutcomeKind::DirChanged)
}

/// Creates the directory at `p` and every parent that is missing.
pub fn create_dir_all(p: PathBuf) -> (r: SimpleThreadFuture)
    ensures
        r.state == SimpleThreadFutureState::NotYetStarted(
            IoReqOptions::ChangeDir(p, DirChange::CreateDirAll),
        ),
        r.check_outcome == OutcomeKind::DirChanged,
{
    SimpleThreadFuture::new(
        IoReqOptions::ChangeDir(p, DirChange::CreateDirAll),
        OutcomeKind::DirChanged,
    )
}

/// Removes the empty directory at `p`.
pub fn remove_dir(p: PathBuf) -> (r: SimpleThreadFuture)
    ensures
        r.state == SimpleThreadFutureState::NotYetStarted(
            IoReqOptions::ChangeDir(p, DirChange::RemoveDir),
        ),
        r.check_outcome == OutcomeKind::DirChanged,
{
    SimpleThreadFuture::new(IoReqOptions::ChangeDir(p, DirChange::RemoveDir), OutcomeKind::DirChanged)
}

/// Removes the directory at `p` with everything in it.
pub fn remove_dir_all(p: PathBuf) -> (r: SimpleThreadFuture)
    ensures
        r.state == SimpleThreadFutureState::NotYetStarted(
            IoReqOptions::ChangeDir(p, DirChange::RemoveDirAll),
        ),
        r.check_outcome == OutcomeKind::DirChanged,
{
    SimpleThreadFuture::new(
        IoReqOptions::ChangeDir(p, DirChange::RemoveDirAll),
        OutcomeKind::DirChanged,
    )
}

/// Copies the contents of the file at `from` to the file at `to`.
pub fn copy(from: PathBuf, to: PathBuf) -> (r: SimpleThreadFuture)
    ensures
        r.state == SimpleThreadFutureState::NotYetStarted(IoReqOptions::Copy(from, to)),
        r.check_outcome == OutcomeKind::Copied,
{
    SimpleThreadFuture::new(IoReqOptions::Copy(from, to), OutcomeKind::Copied)
}

/// Removes the file at `p`.
pub fn remove_file(p: PathBuf) -> (r: SimpleThreadFuture)
    ensures
        r.state == SimpleThreadFutureState::NotYetStarted(IoReqOptions::RemoveFile(p)),
        r.check_outcome == OutcomeKind::Removed,
{
    SimpleThreadFuture::new(IoReqOptions::RemoveFile(p), OutcomeKind::Removed)
}

/// Renames the file or directory at `from` to `to`.
pub fn rename(from: PathBuf, to: PathBuf) -> (r: SimpleThreadFuture)
    ensures
        r.state == SimpleThreadFutureState::NotYetStarted(IoReqOptions::Rename(from, to)),
        r.check_outcome == OutcomeKind::Renamed,
{
    SimpleThreadFuture::new(IoReqOptions::Rename(from, to), OutcomeKind::Renamed)
}

/// Every operation on a path asks for the kind of outcome that the worker
/// gives for it: a client built here is never answered with a kind that it
/// does not take.
pub proof fn lemma_path_clients_match_worker(future: SimpleThreadFuture, options: IoReqOptions)
    requires
        future.state == SimpleThreadFutureState::NotYetStarted(options),
        options is ChangeDir || options is Copy || options is RemoveFile || options is Rename,
        future.check_outcome == (match options {
            IoReqOptions::ChangeDir(_, _) => OutcomeKind::DirChanged,
            IoReqOptions::Copy(_, _) => OutcomeKind::Copied,
            IoReqOptions::RemoveFile(_) => OutcomeKind::Removed,
            _ => OutcomeKind::Renamed,
        }),
    ensures
        future.check_outcome == options.expected_kind(),
{
}

} // verus!
