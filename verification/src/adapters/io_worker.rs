//! The offload worker: blocking file and directory operations turned into
//! requests that a single worker answers in arrival order.
//!
//! The worker's decisions are taken here. Performing an operation on the
//! operating system is left to the worker's thread, which is told what to do
//! by an [`IoCall`] and reports back with an [`IoReturn`].

use crate::id::entered;
use crate::id::lemma_entered_push;
use crate::id::Id;
use crate::id::IdGenerator;
use std::collections::HashMap;
use std::collections::VecDeque;
use std::path::PathBuf;
use std::task::Waker;
use vstd::prelude::*;

verus! {

broadcast use vstd::std_specs::hash::group_hash_axioms;

/// `std::path::PathBuf`: a path, carried from the client to the worker's
/// thread without being read.
#[verifier::external_type_specification]
#[verifier::external_body]
pub struct ExPathBuf(PathBuf);

/// `std::io::Error`: the failure of an operation, carried back to the client
/// without being read.
#[verifier::external_type_specification]
#[verifier::external_body]
pub struct ExIoError(std::io::Error);

/// How a directory is to change.
#[derive(Copy, Clone, Debug, PartialEq, Eq, Structural)]
pub enum DirChange {
    CreateDir,
    CreateDirAll,
    RemoveDir,
    RemoveDirAll,
}

/// The closed set of operations that a client can ask for.
pub enum IoReqOptions {
    OpenFile(PathBuf),
    CreateFile(PathBuf),
    ReadFile(Id, usize),
    FullyReadFile(Id),
    WriteFile(Id, Vec<u8>),
    FileMetadata(Id),
    FileToStd(Id),
    SetFileLen(Id, u64),
    ChangeDir(PathBuf, DirChange),
    Copy(PathBuf, PathBuf),
    RemoveFile(PathBuf),
    Rename(PathBuf, PathBuf),
}

/// A request as it travels to the worker: the operation, and the handle to
/// invoke once its outcome is available.
pub struct IoReq {
    pub waker: Waker,
    pub options: IoReqOptions,
}

/// What an operation produced. `H` is the operating system's file object and
/// `M` its metadata record.
pub enum IoOutcome<H, M> {
    FileOpenedOrCreated(Result<Id, std::io::Error>),
    FileBytesRead(Result<Vec<u8>, std::io::Error>),
    FileBytesWritten(Result<usize, std::io::Error>),
    FileMetadata(Result<M, std::io::Error>),
    FileToStd(H),
    FileLenSet(Result<(), std::io::Error>),
    DirChanged(Result<(), std::io::Error>),
    Copied(Result<u64, std::io::Error>),
    Removed(Result<(), std::io::Error>),
    Renamed(Result<(), std::io::Error>),
}

/// The variant of an [`IoOutcome`], without its payload.
#[derive(Copy, Clone, Debug, PartialEq, Eq, Structural)]
pub enum OutcomeKind {
    FileOpenedOrCreated,
    FileBytesRead,
    FileBytesWritten,
    FileMetadata,
    FileToStd,
    FileLenSet,
    DirChanged,
    Copied,
    Removed,
    Renamed,
}

impl IoReqOptions {
    /// The kind of outcome that answers this operation.
    pub open spec fn expected_kind(&self) -> OutcomeKind {
        match self {
            IoReqOptions::OpenFile(_) => OutcomeKind::FileOpenedOrCreated,
            IoReqOptions::CreateFile(_) => OutcomeKind::FileOpenedOrCreated,
            IoReqOptions::ReadFile(_, _) => OutcomeKind::FileBytesRead,
            IoReqOptions::FullyReadFile(_) => OutcomeKind::FileBytesRead,
            IoReqOptions::WriteFile(_, _) => OutcomeKind::FileBytesWritten,
            IoReqOptions::FileMetadata(_) => OutcomeKind::FileMetadata,
            IoReqOptions::FileToStd(_) => OutcomeKind::FileToStd,
            IoReqOptions::SetFileLen(_, _) => OutcomeKind::FileLenSet,
            IoReqOptions::ChangeDir(_, _) => OutcomeKind::DirChanged,
            IoReqOptions::Copy(_, _) => OutcomeKind::Copied,
            IoReqOptions::RemoveFile(_) => OutcomeKind::Removed,
            IoReqOptions::Rename(_, _) => OutcomeKind::Renamed,
        }
    }

    /// The file that this operation works on, if it works on an open file.
    pub open spec fn target(&self) -> Option<Id> {
        match self {
            IoReqOptions::ReadFile(file, _) => Some(*file),
            IoReqOptions::FullyReadFile(file) => Some(*file),
            IoReqOptions::WriteFile(file, _) => Some(*file),
            IoReqOptions::FileMetadata(file) => Some(*file),
            IoReqOptions::FileToStd(file) => Some(*file),
            IoReqOptions::SetFileLen(file, _) => Some(*file),
            _ => None,
        }
    }

    /// The kind of outcome that answers this operation.
    pub fn expects(&self) -> (r: OutcomeKind)
        ensures
            r == self.expected_kind(),
    {
        match self {
            IoReqOptions::OpenFile(_) => OutcomeKind::FileOpenedOrCreated,
            IoReqOptions::CreateFile(_) => OutcomeKind::FileOpenedOrCreated,
            IoReqOptions::ReadFile(_, _) => OutcomeKind::FileBytesRead,
            IoReqOptions::FullyReadFile(_) => OutcomeKind::FileBytesRead,
            IoReqOptions::WriteFile(_, _) => OutcomeKind::FileBytesWritten,
            IoReqOptions::FileMetadata(_) => OutcomeKind::FileMetadata,
            IoReqOptions::FileToStd(_) => OutcomeKind::FileToStd,
            IoReqOptions::SetFileLen(_, _) => OutcomeKind::FileLenSet,
            IoReqOptions::ChangeDir(_, _) => OutcomeKind::DirChanged,
            IoReqOptions::Copy(_, _) => OutcomeKind::Copied,
            IoReqOptions::RemoveFile(_) => OutcomeKind::Removed,
            IoReqOptions::Rename(_, _) => OutcomeKind::Renamed,
        }
    }
}

impl<H, M> IoOutcome<H, M> {
    /// The variant of this outcome.
    pub open spec fn kind_spec(&self) -> OutcomeKind {
        match self {
            IoOutcome::FileOpenedOrCreated(_) => OutcomeKind::FileOpenedOrCreated,
            IoOutcome::FileBytesRead(_) => OutcomeKind::FileBytesRead,
            IoOutcome::FileBytesWritten(_) => OutcomeKind::FileBytesWritten,
            IoOutcome::FileMetadata(_) => OutcomeKind::FileMetadata,
            IoOutcome::FileToStd(_) => OutcomeKind::FileToStd,
            IoOutcome::FileLenSet(_) => OutcomeKind::FileLenSet,
            IoOutcome::DirChanged(_) => OutcomeKind::DirChanged,
            IoOutcome::Copied(_) => OutcomeKind::Copied,
            IoOutcome::Removed(_) => OutcomeKind::Removed,
            IoOutcome::Renamed(_) => OutcomeKind::Renamed,
        }
    }

    /// The variant of this outcome.
    #[verifier::when_used_as_spec(kind_spec)]
    pub fn kind(&self) -> (r: OutcomeKind)
        ensures
            r == self.kind_spec(),
    {
        match self {
            IoOutcome::FileOpenedOrCreated(_) => OutcomeKind::FileOpenedOrCreated,
            IoOutcome::FileBytesRead(_) => OutcomeKind::FileBytesRead,
            IoOutcome::FileBytesWritten(_) => OutcomeKind::FileBytesWritten,
            IoOutcome::FileMetadata(_) => OutcomeKind::FileMetadata,
            IoOutcome::FileToStd(_) => OutcomeKind::FileToStd,
            IoOutcome::FileLenSet(_) => OutcomeKind::FileLenSet,
            IoOutcome::DirChanged(_) => OutcomeKind::DirChanged,
            IoOutcome::Copied(_) => OutcomeKind::Copied,
            IoOutcome::Removed(_) => OutcomeKind::Removed,
            IoOutcome::Renamed(_) => OutcomeKind::Renamed,
        }
    }

    /// The identifier of the file that was opened or created, or why it
    /// could not be.
    pub fn opened(self) -> (r: Result<Id, std::io::Error>)
        requires
            self is FileOpenedOrCreated,
        ensures
            self == IoOutcome::<H, M>::FileOpenedOrCreated(r),
    {
        match self {
            IoOutcome::FileOpenedOrCreated(res) => res,
            _ => unreached(),
        }
    }

    /// The bytes that were read, or why none could be.
    pub fn bytes_read(self) -> (r: Result<Vec<u8>, std::io::Error>)
        requires
            self is FileBytesRead,
        ensures
            self == IoOutcome::<H, M>::FileBytesRead(r),
    {
        match self {
            IoOutcome::FileBytesRead(res) => res,
            _ => unreached(),
        }
    }

    /// How many bytes were written, or why none could be.
    pub fn bytes_written(self) -> (r: Result<usize, std::io::Error>)
        requires
            self is FileBytesWritten,
        ensures
            self == IoOutcome::<H, M>::FileBytesWritten(r),
    {
        match self {
            IoOutcome::FileBytesWritten(res) => res,
            _ => unreached(),
        }
    }

    /// The file's metadata, or why it could not be had.
    pub fn metadata(self) -> (r: Result<M, std::io::Error>)
        requires
            self is FileMetadata,
        ensures
            self == IoOutcome::<H, M>::FileMetadata(r),
    {
        match self {
            IoOutcome::FileMetadata(res) => res,
            _ => unreached(),
        }
    }

    /// The operating system's file object, handed back for good.
    pub fn into_std(self) -> (r: H)
        requires
            self is FileToStd,
        ensures
            self == IoOutcome::<H, M>::FileToStd(r),
    {
        match self {
            IoOutcome::FileToStd(file) => file,
            _ => unreached(),
        }
    }

    /// Whether the operation that has no result other than its success
    /// succeeded: setting a file's length, changing a directory, removing a
    /// file, renaming.
    pub fn done(self) -> (r: Result<(), std::io::Error>)
        requires
            self is FileLenSet || self is DirChanged || self is Removed || self is Renamed,
        ensures
            match self {
                IoOutcome::FileLenSet(res) => r == res,
                IoOutcome::DirChanged(res) => r == res,
                IoOutcome::Removed(res) => r == res,
                IoOutcome::Renamed(res) => r == res,
                _ => false,
            },
    {
        match self {
            IoOutcome::FileLenSet(res) => res,
            IoOutcome::DirChanged(res) => res,
            IoOutcome::Removed(res) => res,
            IoOutcome::Renamed(res) => res,
            _ => unreached(),
        }
    }

    /// How many bytes were copied, or why none could be.
    pub fn copied(self) -> (r: Result<u64, std::io::Error>)
        requires
            self is Copied,
        ensures
            self == IoOutcome::<H, M>::Copied(r),
    {
        match self {
            IoOutcome::Copied(res) => res,
            _ => unreached(),
        }
    }
}

/// How many bytes the worker's reusable read buffer holds at the start.
pub const READ_BUFFER_START: usize = 128;

/// How many bytes a full read asks for at a time.
pub const READ_CHUNK: usize = 1024;

/// A blocking operation that the worker's thread has to perform. An operation
/// on an open file carries the file object, which is out of the worker's table
/// until the matching [`IoReturn`] brings it back.
pub enum IoCall<H> {
    /// Open the file at the path for reading.
    Open(PathBuf),
    /// Create or truncate the file at the path for writing.
    Create(PathBuf),
    /// Read at most `max_bytes` bytes into the front of `buffer`.
    Read { file: Id, handle: H, buffer: Vec<u8>, max_bytes: usize },
    /// Read into `chunk`, as one step of reading the file to its end.
    ReadChunk { file: Id, handle: H, contents: Vec<u8>, chunk: Vec<u8> },
    /// Write a prefix of `bytes`.
    Write { file: Id, handle: H, bytes: Vec<u8> },
    /// Query the file's metadata.
    Metadata { file: Id, handle: H },
    /// Truncate or extend the file to `size` bytes.
    SetLen { file: Id, handle: H, size: u64 },
    ChangeDir(PathBuf, DirChange),
    Copy(PathBuf, PathBuf),
    RemoveFile(PathBuf),
    Rename(PathBuf, PathBuf),
}

/// What came back from performing an [`IoCall`]: everything the call carried
/// that the worker keeps, and the operating system's answer.
#[allow(inconsistent_fields)]
pub enum IoReturn<H, M> {
    /// From `Open` and from `Create`.
    Opened(Result<H, std::io::Error>),
    Read { file: Id, handle: H, buffer: Vec<u8>, max_bytes: usize, result: Result<usize, std::io::Error> },
    ReadChunk {
        file: Id,
        handle: H,
        contents: Vec<u8>,
        chunk: Vec<u8>,
        result: Result<usize, std::io::Error>,
    },
    Written { file: Id, handle: H, result: Result<usize, std::io::Error> },
    Metadata { file: Id, handle: H, result: Result<M, std::io::Error> },
    LenSet { file: Id, handle: H, result: Result<(), std::io::Error> },
    DirChanged(Result<(), std::io::Error>),
    Copied(Result<u64, std::io::Error>),
    Removed(Result<(), std::io::Error>),
    Renamed(Result<(), std::io::Error>),
}

/// What the worker does next with a request.
pub enum IoStep<H, M> {
    /// Perform the call and hand its return to [`IoWorker::complete`].
    Perform(IoCall<H>),
    /// The request is answered: post the outcome and wake the client.
    Finished(IoOutcome<H, M>),
    /// The request names a file that is not open. It gets no outcome, and
    /// its client is not woken.
    Dropped,
}

/// The operation of a call, without what the call carries. Opening and
/// creating a file are one operation here: both give a file object.
#[derive(Copy, Clone, Debug, PartialEq, Eq, Structural)]
pub enum CallKind {
    Open,
    Read,
    ReadChunk,
    Write,
    Metadata,
    SetLen,
    ChangeDir,
    Copy,
    RemoveFile,
    Rename,
}

impl<H> IoCall<H> {
    /// What the worker remembers of this call while it is under way: the
    /// operation, and the file whose file object is out for it.
    pub open spec fn summary(&self) -> (CallKind, Option<Id>) {
        match *self {
            IoCall::Open(_) => (CallKind::Open, None),
            IoCall::Create(_) => (CallKind::Open, None),
            IoCall::Read { file, .. } => (CallKind::Read, Some(file)),
            IoCall::ReadChunk { file, .. } => (CallKind::ReadChunk, Some(file)),
            IoCall::Write { file, .. } => (CallKind::Write, Some(file)),
            IoCall::Metadata { file, .. } => (CallKind::Metadata, Some(file)),
            IoCall::SetLen { file, .. } => (CallKind::SetLen, Some(file)),
            IoCall::ChangeDir(_, _) => (CallKind::ChangeDir, None),
            IoCall::Copy(_, _) => (CallKind::Copy, None),
            IoCall::RemoveFile(_) => (CallKind::RemoveFile, None),
            IoCall::Rename(_, _) => (CallKind::Rename, None),
        }
    }

    /// The kind of outcome that the request behind this call ends in.
    pub open spec fn outcome_kind(&self) -> OutcomeKind {
        match self {
            IoCall::Open(_) => OutcomeKind::FileOpenedOrCreated,
            IoCall::Create(_) => OutcomeKind::FileOpenedOrCreated,
            IoCall::Read { .. } => OutcomeKind::FileBytesRead,
            IoCall::ReadChunk { .. } => OutcomeKind::FileBytesRead,
            IoCall::Write { .. } => OutcomeKind::FileBytesWritten,
            IoCall::Metadata { .. } => OutcomeKind::FileMetadata,
            IoCall::SetLen { .. } => OutcomeKind::FileLenSet,
            IoCall::ChangeDir(_, _) => OutcomeKind::DirChanged,
            IoCall::Copy(_, _) => OutcomeKind::Copied,
            IoCall::RemoveFile(_) => OutcomeKind::Removed,
            IoCall::Rename(_, _) => OutcomeKind::Renamed,
        }
    }
}

impl<H, M> IoReturn<H, M> {
    /// The kind of outcome that the request behind this return ends in.
    pub open spec fn outcome_kind(&self) -> OutcomeKind {
        match self {
            IoReturn::Opened(_) => OutcomeKind::FileOpenedOrCreated,
            IoReturn::Read { .. } => OutcomeKind::FileBytesRead,
            IoReturn::ReadChunk { .. } => OutcomeKind::FileBytesRead,
            IoReturn::Written { .. } => OutcomeKind::FileBytesWritten,
            IoReturn::Metadata { .. } => OutcomeKind::FileMetadata,
            IoReturn::LenSet { .. } => OutcomeKind::FileLenSet,
            IoReturn::DirChanged(_) => OutcomeKind::DirChanged,
            IoReturn::Copied(_) => OutcomeKind::Copied,
            IoReturn::Removed(_) => OutcomeKind::Removed,
            IoReturn::Renamed(_) => OutcomeKind::Renamed,
        }
    }

    /// The open file whose object this return brings back, if any.
    pub open spec fn restores(&self) -> Option<Id> {
        match *self {
            IoReturn::Read { file, .. } => Some(file),
            IoReturn::ReadChunk { file, .. } => Some(file),
            IoReturn::Written { file, .. } => Some(file),
            IoReturn::Metadata { file, .. } => Some(file),
            IoReturn::LenSet { file, .. } => Some(file),
            _ => None,
        }
    }

    /// The call that this return is for, as the worker remembers calls: the
    /// operation, and the file whose file object comes back.
    pub open spec fn summary(&self) -> (CallKind, Option<Id>) {
        match *self {
            IoReturn::Opened(_) => (CallKind::Open, None),
            IoReturn::Read { file, .. } => (CallKind::Read, Some(file)),
            IoReturn::ReadChunk { file, .. } => (CallKind::ReadChunk, Some(file)),
            IoReturn::Written { file, .. } => (CallKind::Write, Some(file)),
            IoReturn::Metadata { file, .. } => (CallKind::Metadata, Some(file)),
            IoReturn::LenSet { file, .. } => (CallKind::SetLen, Some(file)),
            IoReturn::DirChanged(_) => (CallKind::ChangeDir, None),
            IoReturn::Copied(_) => (CallKind::Copy, None),
            IoReturn::Removed(_) => (CallKind::RemoveFile, None),
            IoReturn::Renamed(_) => (CallKind::Rename, None),
        }
    }

    /// Whether this return is for `call`: the same operation, on the same
    /// file.
    pub open spec fn answers(&self, call: IoCall<H>) -> bool {
        self.summary() == call.summary()
    }

    /// The operation that this return is for.
    pub fn kind(&self) -> (r: CallKind)
        ensures
            r == self.summary().0,
    {
        match self {
            IoReturn::Opened(_) => CallKind::Open,
            IoReturn::Read { .. } => CallKind::Read,
            IoReturn::ReadChunk { .. } => CallKind::ReadChunk,
            IoReturn::Written { .. } => CallKind::Write,
            IoReturn::Metadata { .. } => CallKind::Metadata,
            IoReturn::LenSet { .. } => CallKind::SetLen,
            IoReturn::DirChanged(_) => CallKind::ChangeDir,
            IoReturn::Copied(_) => CallKind::Copy,
            IoReturn::Removed(_) => CallKind::RemoveFile,
            IoReturn::Renamed(_) => CallKind::Rename,
        }
    }

    /// The file whose file object this return brings back, if any.
    pub fn file(&self) -> (r: Option<Id>)
        ensures
            r == self.summary().1,
            r == self.restores(),
    {
        match self {
            IoReturn::Read { file, .. } => Some(*file),
            IoReturn::ReadChunk { file, .. } => Some(*file),
            IoReturn::Written { file, .. } => Some(*file),
            IoReturn::Metadata { file, .. } => Some(*file),
            IoReturn::LenSet { file, .. } => Some(*file),
            _ => None,
        }
    }

    /// Whether the operating system's answer is one that the operation can
    /// give: a read never reports more bytes than it was given room for.
    pub open spec fn plausible(&self) -> bool {
        match *self {
            IoReturn::Read { buffer, max_bytes, result, .. } => max_bytes <= buffer.len() && (
            result matches Ok(n) ==> n <= max_bytes),
            IoReturn::ReadChunk { chunk, result, .. } => result matches Ok(n) ==> n <= chunk.len(),
            _ => true,
        }
    }
}

/// `s`, lengthened with zero bytes to `n` bytes if it is shorter.
pub open spec fn grown(s: Seq<u8>, n: nat) -> Seq<u8> {
    if s.len() < n {
        s + Seq::new((n - s.len()) as nat, |i: int| 0u8)
    } else {
        s
    }
}

/// A fresh vector that holds the first `n` bytes of `src`.
fn copy_prefix(src: &Vec<u8>, n: usize) -> (r: Vec<u8>)
    requires
        n <= src.len(),
    ensures
        r@ == src@.subrange(0, n as int),
{
    let mut out: Vec<u8> = Vec::new();
    let mut i: usize = 0;
    while i < n
        invariant
            i <= n <= src.len(),
            out@ == src@.subrange(0, i as int),
        decreases n - i,
    {
        out.push(src[i]);
        i = i + 1;
        assert(out@ =~= src@.subrange(0, i as int));
    }
    out
}

/// Appends the first `n` bytes of `src` to `dst`.
pub(crate) fn append_prefix(dst: &mut Vec<u8>, src: &Vec<u8>, n: usize)
    requires
        n <= src.len(),
    ensures
        final(dst)@ == old(dst)@ + src@.subrange(0, n as int),
{
    let mut i: usize = 0;
    while i < n
        invariant
            i <= n <= src.len(),
            dst@ == old(dst)@ + src@.subrange(0, i as int),
        decreases n - i,
    {
        dst.push(src[i]);
        i = i + 1;
        assert(dst@ =~= old(dst)@ + src@.subrange(0, i as int));
    }
    assert(dst@ =~= old(dst)@ + src@.subrange(0, n as int));
}

/// The worker's own state: the files it holds open, each under an identifier
/// from a sequence that is independent of the request identifiers, a buffer
/// that bounded reads reuse, and what it remembers of the call that is under
/// way.
pub struct IoWorker<H> {
    files: HashMap<usize, H>,
    file_id_generator: IdGenerator,
    read_buffer: Vec<u8>,
    under_way: Option<(CallKind, Option<Id>)>,
}

impl<H> IoWorker<H> {
    /// The open files, by the position of their identifier.
    pub closed spec fn files(&self) -> Map<usize, H> {
        self.files@
    }

    /// How many file identifiers have been issued.
    pub closed spec fn file_ids_issued(&self) -> nat {
        self.file_id_generator.issued()
    }

    /// The contents of the reusable read buffer.
    pub closed spec fn scratch(&self) -> Seq<u8> {
        self.read_buffer@
    }

    /// The call that is under way, if one is: its operation, and the file
    /// whose file object is out for it.
    pub closed spec fn under_way(&self) -> Option<(CallKind, Option<Id>)> {
        self.under_way
    }

    /// Every open file has an identifier that was issued, and so has the
    /// file whose file object is out for a call, which is not in the table.
    pub closed spec fn wf(&self) -> bool {
        &&& forall|k: usize| #[trigger]
            self.files@.contains_key(k) ==> k < self.file_id_generator.issued()
        &&& self.under_way matches Some((_, Some(file))) ==> file@ < self.file_id_generator.issued()
            && !self.files@.contains_key(file@)
    }

    /// Whether `file` is open.
    pub open spec fn is_open(&self, file: Id) -> bool {
        self.files().contains_key(file@)
    }

    /// Whether the file object of `file` can be put back: the identifier was
    /// issued and the file is not in the table.
    pub open spec fn can_restore(&self, file: Id) -> bool {
        file@ < self.file_ids_issued() && !self.files().contains_key(file@)
    }

    /// Whether [`IoWorker::complete`] can take `ret`: it is for the call that
    /// is under way, its answer is one that the operation can give, and a
    /// file identifier is left for a file that was opened.
    pub open spec fn accepts<M>(&self, ret: IoReturn<H, M>) -> bool {
        &&& ret.plausible()
        &&& self.under_way() == Some(ret.summary())
        &&& ret matches IoReturn::Opened(Ok(_)) ==> self.file_ids_issued() < usize::MAX
    }

    /// The file object of a file that is out for a call can be put back.
    pub proof fn lemma_file_under_way_can_be_restored(&self, file: Id)
        requires
            self.wf(),
            self.under_way() matches Some((_, Some(f))) && f == file,
        ensures
            self.can_restore(file),
    {
    }

    /// A worker with no open file.
    pub fn new() -> (r: Self)
        ensures
            r.wf(),
            r.files() == Map::<usize, H>::empty(),
            r.file_ids_issued() == 0,
            r.scratch() == Seq::new(READ_BUFFER_START as nat, |i: int| 0u8),
            r.under_way() is None,
    {
        Self::with_file_ids(IdGenerator::default())
    }

    /// A worker with no open file, whose file identifiers go on from where
    /// `file_id_generator` stands.
    pub fn with_file_ids(file_id_generator: IdGenerator) -> (r: Self)
        ensures
            r.wf(),
            r.files() == Map::<usize, H>::empty(),
            r.file_ids_issued() == file_id_generator.issued(),
            r.scratch() == Seq::new(READ_BUFFER_START as nat, |i: int| 0u8),
            r.under_way() is None,
    {
        let read_buffer: Vec<u8> = vec![0u8; READ_BUFFER_START];
        assert(read_buffer@ =~= Seq::new(READ_BUFFER_START as nat, |i: int| 0u8));
        IoWorker { files: HashMap::new(), file_id_generator, read_buffer, under_way: None }
    }

    /// Whether a call is under way, so that the worker waits for its return
    /// and can take no request.
    pub fn is_busy(&self) -> (r: bool)
        ensures
            r == (self.under_way() is Some),
    {
        self.under_way.is_some()
    }

    /// Whether `file` is open.
    pub fn has_file(&self, file: Id) -> (r: bool)
        ensures
            r == self.is_open(file),
    {
        self.files.contains_key(&file.index())
    }

    /// Whether [`IoWorker::complete`] can take `ret`.
    pub fn can_complete<M>(&self, ret: &IoReturn<H, M>) -> (r: bool)
        ensures
            r == self.accepts(*ret),
    {
        let expected: bool = match self.under_way {
            Some((kind, file)) => kind == ret.kind() && match (file, ret.file()) {
                (Some(a), Some(b)) => a == b,
                (None, None) => true,
                _ => false,
            },
            None => false,
        };
        let plausible: bool = match ret {
            IoReturn::Read { buffer, max_bytes, result, .. } => *max_bytes <= buffer.len() && match result {
                Ok(n) => *n <= *max_bytes,
                Err(_) => true,
            },
            IoReturn::ReadChunk { chunk, result, .. } => match result {
                Ok(n) => *n <= chunk.len(),
                Err(_) => true,
            },
            _ => true,
        };
        let room: bool = match ret {
            IoReturn::Opened(Ok(_)) => self.file_id_generator.count() < usize::MAX,
            _ => true,
        };
        expected && plausible && room
    }

    /// Takes the file object of `file` out of the table, if the file is open.
    fn checkout(&mut self, file: Id) -> (r: Option<H>)
        requires
            old(self).wf(),
            old(self).under_way() is None,
        ensures
            final(self).wf(),
            final(self).under_way() is None,
            final(self).file_ids_issued() == old(self).file_ids_issued(),
            final(self).scratch() == old(self).scratch(),
            final(self).files() == old(self).files().remove(file@),
            r == (if old(self).is_open(file) {
                Some(old(self).files()[file@])
            } else {
                None
            }),
    {
        self.files.remove(&file.index())
    }

    /// Takes the read buffer out, lengthened to at least `max_bytes` bytes.
    fn take_buffer(&mut self, max_bytes: usize) -> (r: Vec<u8>)
        requires
            old(self).wf(),
        ensures
            final(self).wf(),
            final(self).under_way() == old(self).under_way(),
            final(self).file_ids_issued() == old(self).file_ids_issued(),
            final(self).files() == old(self).files(),
            final(self).scratch() == Seq::<u8>::empty(),
            r@ == grown(old(self).scratch(), max_bytes as nat),
    {
        let mut buffer: Vec<u8> = Vec::new();
        core::mem::swap(&mut buffer, &mut self.read_buffer);
        if buffer.len() < max_bytes {
            buffer.resize(max_bytes, 0u8);
            assert(buffer@ =~= grown(old(self).scratch(), max_bytes as nat));
        }
        buffer
    }

    /// Decides what to do with a request, when no call is under way. The
    /// worker remembers the call that it asks for until its return comes
    /// back. An operation on a path is always performed. An operation on a file is performed if the file is open,
    /// with the file object taken out of the table for the duration of the
    /// call, and dropped if it is not. Handing a file back to the client
    /// needs no call: the file leaves the table for good.
    pub fn dispatch<M>(&mut self, options: IoReqOptions) -> (r: IoStep<H, M>)
        requires
            old(self).wf(),
            old(self).under_way() is None,
        ensures
            final(self).wf(),
            final(self).under_way() == (match r {
                IoStep::Perform(call) => Some(call.summary()),
                _ => None,
            }),
            final(self).file_ids_issued() == old(self).file_ids_issued(),
            match options.target() {
                None => final(self).files() == old(self).files(),
                Some(file) => final(self).files() == old(self).files().remove(file@),
            },
            (options.target() matches Some(file) && !old(self).is_open(file)) ==> r is Dropped,
            r matches IoStep::Perform(call) ==> call.outcome_kind() == options.expected_kind(),
            r matches IoStep::Finished(outcome) ==> outcome.kind() == options.expected_kind(),
            final(self).scratch() == (if options is ReadFile && old(self).is_open(
                options.target().unwrap(),
            ) {
                Seq::<u8>::empty()
            } else {
                old(self).scratch()
            }),
            match options {
                IoReqOptions::OpenFile(path) => r == IoStep::<H, M>::Perform(IoCall::Open(path)),
                IoReqOptions::CreateFile(path) => r == IoStep::<H, M>::Perform(IoCall::Create(path)),
                IoReqOptions::ReadFile(file, max_bytes) => old(self).is_open(file) ==> {
                    &&& r matches IoStep::Perform(IoCall::Read { file: f, handle, buffer, max_bytes: m })
                    &&& f == file
                    &&& handle == old(self).files()[file@]
                    &&& buffer@ == grown(old(self).scratch(), max_bytes as nat)
                    &&& m == max_bytes
                },
                IoReqOptions::FullyReadFile(file) => old(self).is_open(file) ==> {
                    &&& r matches IoStep::Perform(IoCall::ReadChunk { file: f, handle, contents, chunk })
                    &&& f == file
                    &&& handle == old(self).files()[file@]
                    &&& contents@ == Seq::<u8>::empty()
                    &&& chunk@ == Seq::new(READ_CHUNK as nat, |i: int| 0u8)
                },
                IoReqOptions::WriteFile(file, bytes) => old(self).is_open(file) ==> r
                    == IoStep::<H, M>::Perform(
                    IoCall::Write { file, handle: old(self).files()[file@], bytes },
                ),
                IoReqOptions::FileMetadata(file) => old(self).is_open(file) ==> r == IoStep::<
                    H,
                    M,
                >::Perform(IoCall::Metadata { file, handle: old(self).files()[file@] }),
                IoReqOptions::FileToStd(file) => old(self).is_open(file) ==> r == IoStep::<
                    H,
                    M,
                >::Finished(IoOutcome::FileToStd(old(self).files()[file@])),
                IoReqOptions::SetFileLen(file, size) => old(self).is_open(file) ==> r == IoStep::<
                    H,
                    M,
                >::Perform(IoCall::SetLen { file, handle: old(self).files()[file@], size }),
                IoReqOptions::ChangeDir(path, change) => r == IoStep::<H, M>::Perform(
                    IoCall::ChangeDir(path, change),
                ),
                IoReqOptions::Copy(from, to) => r == IoStep::<H, M>::Perform(IoCall::Copy(from, to)),
                IoReqOptions::RemoveFile(path) => r == IoStep::<H, M>::Perform(
                    IoCall::RemoveFile(path),
                ),
                IoReqOptions::Rename(from, to) => r == IoStep::<H, M>::Perform(
                    IoCall::Rename(from, to),
                ),
            },
    {
        match options {
            IoReqOptions::OpenFile(path) => {
                self.under_way = Some((CallKind::Open, None));
                IoStep::Perform(IoCall::Open(path))
            },
            IoReqOptions::CreateFile(path) => {
                self.under_way = Some((CallKind::Open, None));
                IoStep::Perform(IoCall::Create(path))
            },
            IoReqOptions::ReadFile(file, max_bytes) => match self.checkout(file) {
                Some(handle) => {
                    let buffer: Vec<u8> = self.take_buffer(max_bytes);
                    self.under_way = Some((CallKind::Read, Some(file)));
                    IoStep::Perform(IoCall::Read { file, handle, buffer, max_bytes })
                },
                None => IoStep::Dropped,
            },
            IoReqOptions::FullyReadFile(file) => match self.checkout(file) {
                Some(handle) => {
                    let chunk: Vec<u8> = vec![0u8; READ_CHUNK];
                    assert(chunk@ =~= Seq::new(READ_CHUNK as nat, |i: int| 0u8));
                    self.under_way = Some((CallKind::ReadChunk, Some(file)));
                    IoStep::Perform(IoCall::ReadChunk { file, handle, contents: Vec::new(), chunk })
                },
                None => IoStep::Dropped,
            },
            IoReqOptions::WriteFile(file, bytes) => match self.checkout(file) {
                Some(handle) => {
                    self.under_way = Some((CallKind::Write, Some(file)));
                    IoStep::Perform(IoCall::Write { file, handle, bytes })
                },
                None => IoStep::Dropped,
            },
            IoReqOptions::FileMetadata(file) => match self.checkout(file) {
                Some(handle) => {
                    self.under_way = Some((CallKind::Metadata, Some(file)));
                    IoStep::Perform(IoCall::Metadata { file, handle })
                },
                None => IoStep::Dropped,
            },
            IoReqOptions::FileToStd(file) => match self.checkout(file) {
                Some(handle) => IoStep::Finished(IoOutcome::FileToStd(handle)),
                None => IoStep::Dropped,
            },
            IoReqOptions::SetFileLen(file, size) => match self.checkout(file) {
                Some(handle) => {
                    self.under_way = Some((CallKind::SetLen, Some(file)));
                    IoStep::Perform(IoCall::SetLen { file, handle, size })
                },
                None => IoStep::Dropped,
            },
            IoReqOptions::ChangeDir(path, change) => {
                self.under_way = Some((CallKind::ChangeDir, None));
                IoStep::Perform(IoCall::ChangeDir(path, change))
            },
            IoReqOptions::Copy(from, to) => {
                self.under_way = Some((CallKind::Copy, None));
                IoStep::Perform(IoCall::Copy(from, to))
            },
            IoReqOptions::RemoveFile(path) => {
                self.under_way = Some((CallKind::RemoveFile, None));
                IoStep::Perform(IoCall::RemoveFile(path))
            },
            IoReqOptions::Rename(from, to) => {
                self.under_way = Some((CallKind::Rename, None));
                IoStep::Perform(IoCall::Rename(from, to))
            },
        }
    }

    /// Whether `self` and `other` hold the same files, have issued the same
    /// number of file identifiers and have the same read buffer.
    pub open spec fn same_state(&self, other: &Self) -> bool {
        &&& self.files() == other.files()
        &&& self.file_ids_issued() == other.file_ids_issued()
        &&& self.scratch() == other.scratch()
    }

    /// Puts the file object of `file` back into the table.
    fn restore(&mut self, file: Id, handle: H)
        requires
            old(self).wf(),
            old(self).under_way() is None,
            old(self).can_restore(file),
        ensures
            final(self).wf(),
            final(self).under_way() is None,
            final(self).file_ids_issued() == old(self).file_ids_issued(),
            final(self).scratch() == old(self).scratch(),
            final(self).files() == old(self).files().insert(file@, handle),
    {
        self.files.insert(file.index(), handle);
    }

    /// Takes what came back from a call and decides how the request goes on.
    ///
    /// A newly opened file gets the next file identifier and enters the
    /// table. A file object that was out for a call goes back into the table,
    /// unless a full read has not reached the end of the file yet: then the
    /// bytes of this step are appended to what was read before, and the next
    /// step is asked for. Every other return ends the request with the outcome
    /// that carries the operating system's answer.
    pub fn complete<M>(&mut self, ret: IoReturn<H, M>) -> (r: IoStep<H, M>)
        requires
            old(self).wf(),
            old(self).accepts(ret),
        ensures
            final(self).wf(),
            !(r is Dropped),
            final(self).under_way() == (match r {
                IoStep::Perform(call) => Some(call.summary()),
                _ => None,
            }),
            r matches IoStep::Perform(call) ==> ret.answers(call),
            r matches IoStep::Finished(outcome) ==> outcome.kind() == ret.outcome_kind(),
            r matches IoStep::Perform(call) ==> call.outcome_kind() == ret.outcome_kind(),
            match ret {
                IoReturn::Opened(Ok(handle)) => {
                    &&& r matches IoStep::Finished(IoOutcome::FileOpenedOrCreated(Ok(id)))
                    &&& id@ == old(self).file_ids_issued()
                    &&& final(self).files() == old(self).files().insert(id@, handle)
                    &&& final(self).file_ids_issued() == old(self).file_ids_issued() + 1
                    &&& final(self).scratch() == old(self).scratch()
                },
                IoReturn::Opened(Err(e)) => {
                    &&& r == IoStep::<H, M>::Finished(IoOutcome::FileOpenedOrCreated(Err(e)))
                    &&& final(self).same_state(old(self))
                },
                IoReturn::Read { file, handle, buffer, max_bytes, result } => {
                    &&& final(self).files() == old(self).files().insert(file@, handle)
                    &&& final(self).file_ids_issued() == old(self).file_ids_issued()
                    &&& final(self).scratch() == buffer@
                    &&& match result {
                        Ok(n) => {
                            &&& r matches IoStep::Finished(IoOutcome::FileBytesRead(Ok(bytes)))
                            &&& bytes@ == buffer@.subrange(0, n as int)
                        },
                        Err(e) => r == IoStep::<H, M>::Finished(IoOutcome::FileBytesRead(Err(e))),
                    }
                },
                IoReturn::ReadChunk { file, handle, contents, chunk, result } => {
                    &&& final(self).file_ids_issued() == old(self).file_ids_issued()
                    &&& final(self).scratch() == old(self).scratch()
                    &&& match result {
                        Ok(n) => if n == 0 {
                            &&& r == IoStep::<H, M>::Finished(IoOutcome::FileBytesRead(Ok(contents)))
                            &&& final(self).files() == old(self).files().insert(file@, handle)
                        } else {
                            &&& r matches IoStep::Perform(
                                IoCall::ReadChunk { file: f, handle: h, contents: c, chunk: k },
                            )
                            &&& f == file
                            &&& h == handle
                            &&& c@ == contents@ + chunk@.subrange(0, n as int)
                            &&& k == chunk
                            &&& final(self).files() == old(self).files()
                        },
                        Err(e) => {
                            &&& r == IoStep::<H, M>::Finished(IoOutcome::FileBytesRead(Err(e)))
                            &&& final(self).files() == old(self).files().insert(file@, handle)
                        },
                    }
                },
                IoReturn::Written { file, handle, result } => {
                    &&& r == IoStep::<H, M>::Finished(IoOutcome::FileBytesWritten(result))
                    &&& final(self).files() == old(self).files().insert(file@, handle)
                    &&& final(self).file_ids_issued() == old(self).file_ids_issued()
                    &&& final(self).scratch() == old(self).scratch()
                },
                IoReturn::Metadata { file, handle, result } => {
                    &&& r == IoStep::<H, M>::Finished(IoOutcome::FileMetadata(result))
                    &&& final(self).files() == old(self).files().insert(file@, handle)
                    &&& final(self).file_ids_issued() == old(self).file_ids_issued()
                    &&& final(self).scratch() == old(self).scratch()
                },
                IoReturn::LenSet { file, handle, result } => {
                    &&& r == IoStep::<H, M>::Finished(IoOutcome::FileLenSet(result))
                    &&& final(self).files() == old(self).files().insert(file@, handle)
                    &&& final(self).file_ids_issued() == old(self).file_ids_issued()
                    &&& final(self).scratch() == old(self).scratch()
                },
                IoReturn::DirChanged(result) => {
                    &&& r == IoStep::<H, M>::Finished(IoOutcome::DirChanged(result))
                    &&& final(self).same_state(old(self))
                },
                IoReturn::Copied(result) => {
                    &&& r == IoStep::<H, M>::Finished(IoOutcome::Copied(result))
                    &&& final(self).same_state(old(self))
                },
                IoReturn::Removed(result) => {
                    &&& r == IoStep::<H, M>::Finished(IoOutcome::Removed(result))
                    &&& final(self).same_state(old(self))
                },
                IoReturn::Renamed(result) => {
                    &&& r == IoStep::<H, M>::Finished(IoOutcome::Renamed(result))
                    &&& final(self).same_state(old(self))
                },
            },
    {
        proof {
            if ret.restores() is Some {
                self.lemma_file_under_way_can_be_restored(ret.restores().unwrap());
            }
        }
        match ret {
            IoReturn::Opened(Ok(handle)) => {
                self.under_way = None;
                let id = self.file_id_generator.next().unwrap();
                self.files.insert(id.index(), handle);
                IoStep::Finished(IoOutcome::FileOpenedOrCreated(Ok(id)))
            },
            IoReturn::Opened(Err(e)) => {
                self.under_way = None;
                IoStep::Finished(IoOutcome::FileOpenedOrCreated(Err(e)))
            },
            IoReturn::Read { file, handle, buffer, max_bytes, result } => {
                self.under_way = None;
                self.restore(file, handle);
                let answer: Result<Vec<u8>, std::io::Error> = match result {
                    Ok(n) => Ok(copy_prefix(&buffer, n)),
                    Err(e) => Err(e),
                };
                self.read_buffer = buffer;
                IoStep::Finished(IoOutcome::FileBytesRead(answer))
            },
            IoReturn::ReadChunk { file, handle, contents, chunk, result } => match result {
                Ok(n) => {
                    if n == 0 {
                        self.under_way = None;
                        self.restore(file, handle);
                        IoStep::Finished(IoOutcome::FileBytesRead(Ok(contents)))
                    } else {
                        let mut contents = contents;
                        append_prefix(&mut contents, &chunk, n);
                        IoStep::Perform(IoCall::ReadChunk { file, handle, contents, chunk })
                    }
                },
                Err(e) => {
                    self.under_way = None;
                    self.restore(file, handle);
                    IoStep::Finished(IoOutcome::FileBytesRead(Err(e)))
                },
            },
            IoReturn::Written { file, handle, result } => {
                self.under_way = None;
                self.restore(file, handle);
                IoStep::Finished(IoOutcome::FileBytesWritten(result))
            },
            IoReturn::Metadata { file, handle, result } => {
                self.under_way = None;
                self.restore(file, handle);
                IoStep::Finished(IoOutcome::FileMetadata(result))
            },
            IoReturn::LenSet { file, handle, result } => {
                self.under_way = None;
                self.restore(file, handle);
                IoStep::Finished(IoOutcome::FileLenSet(result))
            },
            IoReturn::DirChanged(result) => {
                self.under_way = None;
                IoStep::Finished(IoOutcome::DirChanged(result))
            },
            IoReturn::Copied(result) => {
                self.under_way = None;
                IoStep::Finished(IoOutcome::Copied(result))
            },
            IoReturn::Removed(result) => {
                self.under_way = None;
                IoStep::Finished(IoOutcome::Removed(result))
            },
            IoReturn::Renamed(result) => {
                self.under_way = None;
                IoStep::Finished(IoOutcome::Renamed(result))
            },
        }
    }
}

/// A file stays open until it is handed back: taking its file object out for
/// a call and putting it back leaves the table of open files as it was.
pub proof fn lemma_file_stays_open<H>(files: Map<usize, H>, file: Id)
    requires
        files.contains_key(file@),
    ensures
        files.remove(file@).insert(file@, files[file@]) == files,
{
    assert(files.remove(file@).insert(file@, files[file@]) =~= files);
}

/// The worker keeps to the protocol: a return that is for a call ends in the
/// kind of outcome that the call was made for, which is the kind that the
/// request's operation calls for. The worker takes no other return than one
/// for the call that is under way, so that every outcome is of the kind that
/// its request's operation calls for.
pub proof fn lemma_answer_keeps_kind<H, M>(call: IoCall<H>, ret: IoReturn<H, M>)
    requires
        ret.answers(call),
    ensures
        ret.outcome_kind() == call.outcome_kind(),
{
}

/// What clients and the worker share: the queue of requests on their way to
/// the worker, the queue of outcomes on their way back, and the table in
/// which outcomes wait for their clients.
pub struct IoThread<H, M> {
    requests: VecDeque<(Id, IoReq)>,
    arrived: VecDeque<(Id, IoOutcome<H, M>)>,
    results: HashMap<usize, IoOutcome<H, M>>,
    task_id_generator: IdGenerator,
}

impl<H, M> IoThread<H, M> {
    /// The requests that the worker has not taken yet, oldest first.
    pub closed spec fn requests(&self) -> Seq<(Id, IoReq)> {
        self.requests@
    }

    /// The outcomes that the worker has posted and no client has entered
    /// into the table yet, oldest first.
    pub closed spec fn arrived(&self) -> Seq<(Id, IoOutcome<H, M>)> {
        self.arrived@
    }

    /// The outcomes that wait in the table, by the position of their
    /// request's identifier.
    pub closed spec fn table(&self) -> Map<usize, IoOutcome<H, M>> {
        self.results@
    }

    /// How many request identifiers have been issued.
    pub closed spec fn request_ids_issued(&self) -> nat {
        self.task_id_generator.issued()
    }

    /// Every outcome that a client can receive now.
    pub open spec fn available(&self) -> Map<usize, IoOutcome<H, M>> {
        entered(self.table(), self.arrived())
    }

    /// Whether another request can be sent.
    pub open spec fn has_request_ids(&self) -> bool {
        self.request_ids_issued() < usize::MAX
    }

    /// A connection with nothing under way.
    pub fn new() -> (r: Self)
        ensures
            r.requests() == Seq::<(Id, IoReq)>::empty(),
            r.arrived() == Seq::<(Id, IoOutcome<H, M>)>::empty(),
            r.table() == Map::<usize, IoOutcome<H, M>>::empty(),
            r.request_ids_issued() == 0,
    {
        Self::with_request_ids(IdGenerator::default())
    }

    /// A connection with nothing under way, whose request identifiers go on
    /// from where `task_id_generator` stands.
    pub fn with_request_ids(task_id_generator: IdGenerator) -> (r: Self)
        ensures
            r.requests() == Seq::<(Id, IoReq)>::empty(),
            r.arrived() == Seq::<(Id, IoOutcome<H, M>)>::empty(),
            r.table() == Map::<usize, IoOutcome<H, M>>::empty(),
            r.request_ids_issued() == task_id_generator.issued(),
    {
        IoThread {
            requests: VecDeque::new(),
            arrived: VecDeque::new(),
            results: HashMap::new(),
            task_id_generator,
        }
    }

    /// Whether another request can be sent.
    pub fn can_send(&self) -> (r: bool)
        ensures
            r == self.has_request_ids(),
    {
        self.task_id_generator.count() < usize::MAX
    }

    /// Queues a request for the worker under a fresh request identifier and
    /// returns the identifier. Returns `None`, and queues nothing, once the
    /// request identifiers are used up.
    pub fn send_request(&mut self, options: IoReqOptions, waker: Waker) -> (r: Option<Id>)
        ensures
            final(self).arrived() == old(self).arrived(),
            final(self).table() == old(self).table(),
            old(self).has_request_ids() ==> {
                &&& r matches Some(id)
                &&& id@ == old(self).request_ids_issued()
                &&& final(self).request_ids_issued() == old(self).request_ids_issued() + 1
                &&& final(self).requests() == old(self).requests().push((id, IoReq { waker, options }))
            },
            !old(self).has_request_ids() ==> {
                &&& r is None
                &&& final(self).request_ids_issued() == old(self).request_ids_issued()
                &&& final(self).requests() == old(self).requests()
            },
    {
        match self.task_id_generator.next() {
            Some(id) => {
                self.requests.push_back((id, IoReq { waker, options }));
                Some(id)
            },
            None => None,
        }
    }

    /// Takes the oldest request that the worker has not taken yet.
    pub fn next_request(&mut self) -> (r: Option<(Id, IoReq)>)
        ensures
            final(self).arrived() == old(self).arrived(),
            final(self).table() == old(self).table(),
            final(self).request_ids_issued() == old(self).request_ids_issued(),
            old(self).requests().len() == 0 ==> {
                &&& r is None
                &&& final(self).requests() == old(self).requests()
            },
            old(self).requests().len() > 0 ==> {
                &&& r == Some(old(self).requests()[0])
                &&& final(self).requests() == old(self).requests().skip(1)
            },
    {
        let r = self.requests.pop_front();
        proof {
            if old(self).requests().len() > 0 {
                assert(self.requests@ =~= old(self).requests().skip(1));
            }
        }
        r
    }

    /// Posts the outcome of request `id` and hands the client's handle back
    /// for the caller to invoke. The order is what matters: the outcome is
    /// posted before the handle can be invoked, so that it is there when the
    /// client looks.
    pub fn post_result(&mut self, id: Id, outcome: IoOutcome<H, M>, waker: Waker) -> (r: Waker)
        ensures
            r == waker,
            final(self).requests() == old(self).requests(),
            final(self).table() == old(self).table(),
            final(self).request_ids_issued() == old(self).request_ids_issued(),
            final(self).arrived() == old(self).arrived().push((id, outcome)),
    {
        self.arrived.push_back((id, outcome));
        waker
    }

    /// Enters every posted outcome into the table. What clients can receive
    /// stays the same.
    pub fn absorb(&mut self)
        ensures
            final(self).requests() == old(self).requests(),
            final(self).request_ids_issued() == old(self).request_ids_issued(),
            final(self).arrived() == Seq::<(Id, IoOutcome<H, M>)>::empty(),
            final(self).table() == old(self).available(),
    {
        loop
            invariant
                self.requests() == old(self).requests(),
                self.request_ids_issued() == old(self).request_ids_issued(),
                entered(self.table(), self.arrived()) == old(self).available(),
            ensures
                self.requests() == old(self).requests(),
                self.request_ids_issued() == old(self).request_ids_issued(),
                self.arrived() == Seq::<(Id, IoOutcome<H, M>)>::empty(),
                self.table() == old(self).available(),
            decreases self.arrived().len(),
        {
            let ghost before = self.arrived@;
            match self.arrived.pop_front() {
                Some((id, outcome)) => {
                    assert(self.arrived@ =~= before.skip(1));
                    self.results.insert(id.index(), outcome);
                },
                None => {
                    assert(self.arrived@ =~= Seq::<(Id, IoOutcome<H, M>)>::empty());
                    break ;
                },
            }
        }
    }

    /// The kind of the outcome that waits in the table for request `id`.
    pub fn kind_in_table(&self, id: Id) -> (r: Option<OutcomeKind>)
        ensures
            r == (if self.table().contains_key(id@) {
                Some(self.table()[id@].kind())
            } else {
                None
            }),
    {
        match self.results.get(&id.index()) {
            Some(outcome) => Some(outcome.kind()),
            None => None,
        }
    }

    /// Enters every posted outcome into the table, whichever client it is
    /// for, and then takes the outcome of request `id` out of the table.
    pub fn try_recv_result(&mut self, id: Id) -> (r: Option<IoOutcome<H, M>>)
        ensures
            final(self).requests() == old(self).requests(),
            final(self).request_ids_issued() == old(self).request_ids_issued(),
            final(self).arrived() == Seq::<(Id, IoOutcome<H, M>)>::empty(),
            final(self).table() == old(self).available().remove(id@),
            r == (if old(self).available().contains_key(id@) {
                Some(old(self).available()[id@])
            } else {
                None
            }),
    {
        self.absorb();
        self.results.remove(&id.index())
    }
}

/// An outcome is received exactly once: after a client took the outcome of a
/// request, the table no longer holds one for that request.
pub proof fn lemma_received_once<H, M>(available: Map<usize, IoOutcome<H, M>>, id: Id)
    ensures
        !available.remove(id@).contains_key(id@),
        entered(available.remove(id@), Seq::empty()) == available.remove(id@),
{
}

/// Receiving for one request leaves the outcomes of the others where they
/// are.
pub proof fn lemma_receive_keeps_others<H, M>(
    available: Map<usize, IoOutcome<H, M>>,
    id: Id,
    other: Id,
)
    requires
        other@ != id@,
    ensures
        available.remove(id@).contains_key(other@) == available.contains_key(other@),
        available.contains_key(other@) ==> available.remove(id@)[other@] == available[other@],
{
}

/// Posting an outcome makes it the one that the client of its request
/// receives, and changes nothing for the other requests.
pub proof fn lemma_posted_is_available<H, M>(
    table: Map<usize, IoOutcome<H, M>>,
    arrived: Seq<(Id, IoOutcome<H, M>)>,
    id: Id,
    outcome: IoOutcome<H, M>,
)
    ensures
        entered(table, arrived.push((id, outcome))) == entered(table, arrived).insert(id@, outcome),
{
    lemma_entered_push(table, arrived, id, outcome);
}

} // verus!
