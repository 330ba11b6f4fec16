//! Files: the client's handle on a file that the worker holds open.

use crate::adapters::error::class_of;
use crate::adapters::error::error_class;
use crate::adapters::error::ErrorClass;
use crate::adapters::io_worker::IoOutcome;
use crate::adapters::io_worker::IoReqOptions;
use crate::adapters::io_worker::OutcomeKind;
use crate::adapters::SimpleThreadFuture;
use crate::adapters::SimpleThreadFutureState;
use crate::id::Id;
use std::path::PathBuf;
use vstd::prelude::*;

verus! {

/// `std::io::Error::from(ErrorKind::WriteZero)`: an error whose kind is
/// the one given, that of a write that accepted no byte.
#[verifier::external_body]
fn write_zero() -> (r: std::io::Error)
    ensures
        error_class(r) == ErrorClass::WriteZero,
{
    std::io::Error::from(std::io::ErrorKind::WriteZero)
}

/// A file that the worker holds open.
pub struct File {
    id: Id,
}

impl File {
    /// The identifier under which the worker holds the file.
    pub closed spec fn handle(&self) -> Id {
        self.id
    }

    /// The identifier under which the worker holds the file.
    pub fn id(&self) -> (r: Id)
        ensures
            r == self.handle(),
    {
        self.id
    }

    /// Opens the file at `p` for reading.
    pub fn open(p: PathBuf) -> (r: SimpleThreadFuture)
        ensures
            r.state == SimpleThreadFutureState::NotYetStarted(IoReqOptions::OpenFile(p)),
            r.check_outcome == OutcomeKind::FileOpenedOrCreated,
    {
        SimpleThreadFuture::new(IoReqOptions::OpenFile(p), OutcomeKind::FileOpenedOrCreated)
    }

    /// Creates the file at `path`, or truncates it, and opens it for writing.
    pub fn create(path: PathBuf) -> (r: SimpleThreadFuture)
        ensures
            r.state == SimpleThreadFutureState::NotYetStarted(IoReqOptions::CreateFile(path)),
            r.check_outcome == OutcomeKind::FileOpenedOrCreated,
    {
        SimpleThreadFuture::new(IoReqOptions::CreateFile(path), OutcomeKind::FileOpenedOrCreated)
    }

    /// The file that an `open` or a `create` gave, or why it gave none.
    pub fn opened<H, M>(outcome: IoOutcome<H, M>) -> (r: Result<File, std::io::Error>)
        requires
            outcome is FileOpenedOrCreated,
        ensures
            match outcome->FileOpenedOrCreated_0 {
                Ok(id) => r matches Ok(file) && file.handle() == id,
                Err(e) => r == Err::<File, std::io::Error>(e),
            },
    {
        match outcome.opened() {
            Ok(id) => Ok(File { id }),
            Err(e) => Err(e),
        }
    }

    /// Reads at most `max_bytes` bytes.
    pub fn read(&mut self, max_bytes: usize) -> (r: SimpleThreadFuture)
        ensures
            *final(self) == *old(self),
            r.state == SimpleThreadFutureState::NotYetStarted(
                IoReqOptions::ReadFile(old(self).handle(), max_bytes),
            ),
            r.check_outcome == OutcomeKind::FileBytesRead,
    {
        SimpleThreadFuture::new(IoReqOptions::ReadFile(self.id, max_bytes), OutcomeKind::FileBytesRead)
    }

    /// Reads until the end of the file.
    pub fn read_to_end(&mut self) -> (r: SimpleThreadFuture)
        ensures
            *final(self) == *old(self),
            r.state == SimpleThreadFutureState::NotYetStarted(
                IoReqOptions::FullyReadFile(old(self).handle()),
            ),
            r.check_outcome == OutcomeKind::FileBytesRead,
    {
        SimpleThreadFuture::new(IoReqOptions::FullyReadFile(self.id), OutcomeKind::FileBytesRead)
    }

    /// Writes a prefix of `buf`.
    pub fn write(&mut self, buf: Vec<u8>) -> (r: SimpleThreadFuture)
        ensures
            *final(self) == *old(self),
            r.state == SimpleThreadFutureState::NotYetStarted(
                IoReqOptions::WriteFile(old(self).handle(), buf),
            ),
            r.check_outcome == OutcomeKind::FileBytesWritten,
    {
        SimpleThreadFuture::new(IoReqOptions::WriteFile(self.id, buf), OutcomeKind::FileBytesWritten)
    }

    /// Writes all of `buf`, in as many writes as it takes.
    pub fn write_all(&mut self, buf: Vec<u8>) -> (r: WriteAll)
        ensures
            *final(self) == *old(self),
            r.wf(),
            r.file() == old(self).handle(),
            r.bytes() == buf@,
            r.written() == 0,
    {
        WriteAll { file: self.id, buf, written: 0 }
    }

    /// Queries the file's metadata.
    pub fn metadata(&self) -> (r: SimpleThreadFuture)
        ensures
            r.state == SimpleThreadFutureState::NotYetStarted(
                IoReqOptions::FileMetadata(self.handle()),
            ),
            r.check_outcome == OutcomeKind::FileMetadata,
    {
        SimpleThreadFuture::new(IoReqOptions::FileMetadata(self.id), OutcomeKind::FileMetadata)
    }

    /// Takes the operating system's file object back from the worker.
    pub fn to_std(self) -> (r: SimpleThreadFuture)
        ensures
            r.state == SimpleThreadFutureState::NotYetStarted(IoReqOptions::FileToStd(self.handle())),
            r.check_outcome == OutcomeKind::FileToStd,
    {
        SimpleThreadFuture::new(IoReqOptions::FileToStd(self.id), OutcomeKind::FileToStd)
    }

    /// Truncates or extends the file to `size` bytes.
    pub fn set_len(&mut self, size: u64) -> (r: SimpleThreadFuture)
        ensures
            *final(self) == *old(self),
            r.state == SimpleThreadFutureState::NotYetStarted(
                IoReqOptions::SetFileLen(old(self).handle(), size),
            ),
            r.check_outcome == OutcomeKind::FileLenSet,
    {
        SimpleThreadFuture::new(IoReqOptions::SetFileLen(self.id, size), OutcomeKind::FileLenSet)
    }
}

/// What a single write came to.
pub enum WriteEvent {
    /// So many bytes were accepted.
    Wrote(usize),
    /// The write was interrupted before it accepted a byte.
    Interrupted,
    /// The write failed.
    Failed(std::io::Error),
}

impl WriteEvent {
    /// Tells an interrupted write from one that failed: an error of the kind
    /// "interrupted" is no failure.
    pub fn classify(result: Result<usize, std::io::Error>) -> (r: WriteEvent)
        ensures
            r == (match result {
                Ok(n) => WriteEvent::Wrote(n),
                Err(e) => if error_class(e) == ErrorClass::Interrupted {
                    WriteEvent::Interrupted
                } else {
                    WriteEvent::Failed(e)
                },
            }),
    {
        match result {
            Ok(n) => WriteEvent::Wrote(n),
            Err(e) => {
                if class_of(&e) == ErrorClass::Interrupted {
                    WriteEvent::Interrupted
                } else {
                    WriteEvent::Failed(e)
                }
            },
        }
    }
}

/// The progress of writing a whole buffer to a file: how much of the buffer
/// the writes so far have accepted.
pub struct WriteAll {
    file: Id,
    buf: Vec<u8>,
    written: usize,
}

impl WriteAll {
    /// The file that is written to.
    pub closed spec fn file(&self) -> Id {
        self.file
    }

    /// The buffer that is to be written.
    pub closed spec fn bytes(&self) -> Seq<u8> {
        self.buf@
    }

    /// How many bytes of the buffer have been accepted.
    pub closed spec fn written(&self) -> nat {
        self.written as nat
    }

    /// No more bytes were accepted than the buffer holds.
    pub open spec fn wf(&self) -> bool {
        self.written() <= self.bytes().len()
    }

    /// The bytes that have not been accepted yet.
    pub open spec fn remaining(&self) -> Seq<u8> {
        self.bytes().skip(self.written() as int)
    }

    /// How many bytes have not been accepted yet.
    pub fn remaining_len(&self) -> (r: usize)
        requires
            self.wf(),
        ensures
            r == self.remaining().len(),
    {
        self.buf.len() - self.written
    }

    /// The next write: one for all the bytes that have not been accepted
    /// yet. `None` once every byte was accepted, which is when the whole
    /// write has succeeded.
    pub fn next_write(&self) -> (r: Option<SimpleThreadFuture>)
        requires
            self.wf(),
        ensures
            self.remaining().len() == 0 ==> r is None,
            self.remaining().len() > 0 ==> {
                &&& r matches Some(future)
                &&& future.state matches SimpleThreadFutureState::NotYetStarted(
                    IoReqOptions::WriteFile(file, bytes),
                )
                &&& file == self.file()
                &&& bytes@ == self.remaining()
                &&& future.check_outcome == OutcomeKind::FileBytesWritten
            },
    {
        if self.written == self.buf.len() {
            None
        } else {
            let mut rest: Vec<u8> = Vec::new();
            let mut i: usize = self.written;
            while i < self.buf.len()
                invariant
                    self.written <= i <= self.buf.len(),
                    rest@ == self.buf@.subrange(self.written as int, i as int),
                decreases self.buf.len() - i,
            {
                rest.push(self.buf[i]);
                i = i + 1;
                assert(rest@ =~= self.buf@.subrange(self.written as int, i as int));
            }
            assert(rest@ =~= self.remaining());
            Some(
                SimpleThreadFuture::new(
                    IoReqOptions::WriteFile(self.file, rest),
                    OutcomeKind::FileBytesWritten,
                ),
            )
        }
    }

    /// Takes what the last write came to. Returns the error with which the
    /// whole write fails, if it does: a write that accepted no byte fails it,
    /// and so does a write that failed, but not one that was interrupted.
    /// Otherwise the bytes that the write accepted count as written, and
    /// the whole write goes on with [`WriteAll::next_write`].
    pub fn advance(&mut self, event: WriteEvent) -> (r: Option<std::io::Error>)
        requires
            old(self).wf(),
            event matches WriteEvent::Wrote(n) ==> n <= old(self).remaining().len(),
        ensures
            final(self).wf(),
            final(self).file() == old(self).file(),
            final(self).bytes() == old(self).bytes(),
            match event {
                WriteEvent::Wrote(n) => {
                    &&& final(self).written() == old(self).written() + n
                    &&& final(self).remaining() == old(self).remaining().skip(n as int)
                    &&& r is Some <==> n == 0
                    &&& r matches Some(e) ==> error_class(e) == ErrorClass::WriteZero
                },
                WriteEvent::Interrupted => {
                    &&& final(self).written() == old(self).written()
                    &&& r is None
                },
                WriteEvent::Failed(e) => {
                    &&& final(self).written() == old(self).written()
                    &&& r == Some(e)
                },
            },
    {
        match event {
            WriteEvent::Wrote(n) => {
                if n == 0 {
                    assert(self.remaining().skip(0) =~= self.remaining());
                    Some(write_zero())
                } else {
                    assert(self.written + n <= self.buf.len()) by {
                        assert(self.written <= self.buf@.len());
                        assert(old(self).remaining().len() == self.buf@.len() - self.written);
                    }
                    self.written = self.written + n;
                    assert(self.remaining() =~= old(self).remaining().skip(n as int));
                    None
                }
            },
            WriteEvent::Interrupted => None,
            WriteEvent::Failed(e) => Some(e),
        }
    }
}

/// Writing a whole buffer loses and repeats nothing: what was accepted and
/// what remains are the buffer, whatever the writes came to.
pub proof fn lemma_write_all_covers_buffer(w: WriteAll)
    requires
        w.wf(),
    ensures
        w.bytes().take(w.written() as int) + w.remaining() == w.bytes(),
        w.remaining().len() == 0 <==> w.written() == w.bytes().len(),
{
    assert(w.bytes().take(w.written() as int) + w.remaining() =~= w.bytes());
}

} // verus!
