//! The part of the worker's protocol that opens, reads and writes files,
//! and nothing else.

use crate::adapters::io_worker::IoOutcome;
use crate::adapters::io_worker::IoReq;
use crate::adapters::io_worker::IoReqOptions;
use crate::id::Id;
use std::path::PathBuf;
use std::task::Waker;
use vstd::prelude::*;

verus! {

/// The operations on files.
pub enum FileThreadRequestOptions {
    OpenFile(PathBuf),
    CreateFile(PathBuf),
    Read(Id, usize),
    Write(Id, Vec<u8>),
}

/// A request for an operation on a file, with the handle to invoke once its
/// result is available.
pub struct FileThreadRequest {
    pub waker: Waker,
    pub options: FileThreadRequestOptions,
}

/// What an operation on a file produced.
pub enum FileThreadResult {
    FileOpenedOrCreated(Result<Id, std::io::Error>),
    BytesRead(Result<Vec<u8>, std::io::Error>),
    BytesWritten(Result<usize, std::io::Error>),
}

impl FileThreadRequestOptions {
    /// The same operation in the worker's full protocol.
    pub open spec fn as_io(self) -> IoReqOptions {
        match self {
            FileThreadRequestOptions::OpenFile(path) => IoReqOptions::OpenFile(path),
            FileThreadRequestOptions::CreateFile(path) => IoReqOptions::CreateFile(path),
            FileThreadRequestOptions::Read(file, max_bytes) => IoReqOptions::ReadFile(file, max_bytes),
            FileThreadRequestOptions::Write(file, bytes) => IoReqOptions::WriteFile(file, bytes),
        }
    }

    /// The same operation in the worker's full protocol.
    pub fn into_io(self) -> (r: IoReqOptions)
        ensures
            r == self.as_io(),
    {
        match self {
            FileThreadRequestOptions::OpenFile(path) => IoReqOptions::OpenFile(path),
            FileThreadRequestOptions::CreateFile(path) => IoReqOptions::CreateFile(path),
            FileThreadRequestOptions::Read(file, max_bytes) => IoReqOptions::ReadFile(file, max_bytes),
            FileThreadRequestOptions::Write(file, bytes) => IoReqOptions::WriteFile(file, bytes),
        }
    }
}

impl FileThreadRequest {
    pub fn new(waker: Waker, options: FileThreadRequestOptions) -> (r: Self)
        ensures
            r.waker == waker,
            r.options == options,
    {
        FileThreadRequest { waker, options }
    }

    /// The same request in the worker's full protocol.
    pub fn into_io(self) -> (r: IoReq)
        ensures
            r.waker == self.waker,
            r.options == self.options.as_io(),
    {
        IoReq { waker: self.waker, options: self.options.into_io() }
    }
}

impl FileThreadResult {
    /// The result that an outcome of the full protocol is, if it is the
    /// outcome of an operation on a file. An outcome of another operation is
    /// handed back.
    pub fn from_io<H, M>(outcome: IoOutcome<H, M>) -> (r: Result<FileThreadResult, IoOutcome<H, M>>)
        ensures
            match outcome {
                IoOutcome::FileOpenedOrCreated(res) => r == Ok::<
                    FileThreadResult,
                    IoOutcome<H, M>,
                >(FileThreadResult::FileOpenedOrCreated(res)),
                IoOutcome::FileBytesRead(res) => r == Ok::<FileThreadResult, IoOutcome<H, M>>(
                    FileThreadResult::BytesRead(res),
                ),
                IoOutcome::FileBytesWritten(res) => r == Ok::<FileThreadResult, IoOutcome<H, M>>(
                    FileThreadResult::BytesWritten(res),
                ),
                _ => r == Err::<FileThreadResult, IoOutcome<H, M>>(outcome),
            },
    {
        match outcome {
            IoOutcome::FileOpenedOrCreated(res) => Ok(FileThreadResult::FileOpenedOrCreated(res)),
            IoOutcome::FileBytesRead(res) => Ok(FileThreadResult::BytesRead(res)),
            IoOutcome::FileBytesWritten(res) => Ok(FileThreadResult::BytesWritten(res)),
            other => Err(other),
        }
    }
}

/// The operations on files are closed under the protocol: the outcome that
/// the worker gives for one of them is a result of an operation on a file.
pub proof fn lemma_file_operations_get_file_results<H, M>(
    options: FileThreadRequestOptions,
    outcome: IoOutcome<H, M>,
)
    requires
        outcome.kind() == options.as_io().expected_kind(),
    ensures
        outcome is FileOpenedOrCreated || outcome is FileBytesRead || outcome is FileBytesWritten,
        (options is OpenFile || options is CreateFile) <==> outcome is FileOpenedOrCreated,
        options is Read <==> outcome is FileBytesRead,
        options is Write <==> outcome is FileBytesWritten,
{
}

} // verus!
