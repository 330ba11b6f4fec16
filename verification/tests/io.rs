use coop_runtime::adapters::file::File;
use coop_runtime::adapters::file::WriteEvent;
use coop_runtime::adapters::fs::copy;
use coop_runtime::adapters::fs::create_dir;
use coop_runtime::adapters::fs::create_dir_all;
use coop_runtime::adapters::fs::remove_dir;
use coop_runtime::adapters::fs::remove_dir_all;
use coop_runtime::adapters::fs::remove_file;
use coop_runtime::adapters::fs::rename;
use coop_runtime::adapters::fs::text_of;
use coop_runtime::adapters::fs_worker::FileThreadRequest;
use coop_runtime::adapters::fs_worker::FileThreadRequestOptions;
use coop_runtime::adapters::fs_worker::FileThreadResult;
use coop_runtime::adapters::io_worker::DirChange;
use coop_runtime::adapters::io_worker::IoCall;
use coop_runtime::adapters::io_worker::IoOutcome;
use coop_runtime::adapters::io_worker::IoReqOptions;
use coop_runtime::adapters::io_worker::IoReturn;
use coop_runtime::adapters::io_worker::IoStep;
use coop_runtime::adapters::io_worker::IoThread;
use coop_runtime::adapters::io_worker::IoWorker;
use coop_runtime::adapters::io_worker::OutcomeKind;
use coop_runtime::adapters::io_worker::READ_BUFFER_START;
use coop_runtime::adapters::io_worker::READ_CHUNK;
use coop_runtime::adapters::net::Attempt;
use coop_runtime::adapters::net::Drain;
use coop_runtime::adapters::SimpleThreadFuture;
use coop_runtime::adapters::SimpleThreadFutureState;
use coop_runtime::id::Id;
use coop_runtime::id::IdGenerator;
use std::collections::HashMap;
use std::collections::HashSet;
use std::io::Error;
use std::io::ErrorKind;
use std::path::PathBuf;
use std::sync::atomic::AtomicUsize;
use std::sync::atomic::Ordering;
use std::sync::Arc;
use std::task::Poll;
use std::task::Wake;
use std::task::Waker;

struct Counter {
    wakes: AtomicUsize,
}

impl Wake for Counter {
    fn wake(self: Arc<Self>) {
        self.wakes.fetch_add(1, Ordering::SeqCst);
    }
}

fn counter() -> (Arc<Counter>, Waker) {
    let counter = Arc::new(Counter { wakes: AtomicUsize::new(0) });
    (counter.clone(), Waker::from(counter))
}

fn quiet() -> Waker {
    counter().1
}

/// An open file of the make-believe file system.
#[derive(Debug, PartialEq)]
struct Open {
    path: PathBuf,
    position: usize,
}

/// A file system in memory that stands in for the operating system.
struct Disk {
    files: HashMap<PathBuf, Vec<u8>>,
    dirs: HashSet<PathBuf>,
    /// The most bytes that one write accepts.
    max_write: usize,
    /// How many of the coming writes are interrupted.
    interruptions: usize,
    calls: usize,
}

fn disk() -> Disk {
    Disk {
        files: HashMap::new(),
        dirs: HashSet::new(),
        max_write: usize::MAX,
        interruptions: 0,
        calls: 0,
    }
}

fn not_found() -> Error {
    Error::new(ErrorKind::NotFound, "no such file or directory")
}

fn read_into(disk: &Disk, handle: &mut Open, room: &mut [u8]) -> usize {
    let contents = &disk.files[&handle.path];
    let n = room.len().min(contents.len() - handle.position.min(contents.len()));
    room[..n].copy_from_slice(&contents[handle.position..handle.position + n]);
    handle.position += n;
    n
}

fn perform(disk: &mut Disk, call: IoCall<Open>) -> IoReturn<Open, u64> {
    disk.calls += 1;
    match call {
        IoCall::Open(path) => IoReturn::Opened(if disk.files.contains_key(&path) {
            Ok(Open { path, position: 0 })
        } else {
            Err(not_found())
        }),
        IoCall::Create(path) => {
            disk.files.insert(path.clone(), Vec::new());
            IoReturn::Opened(Ok(Open { path, position: 0 }))
        }
        IoCall::Read { file, mut handle, mut buffer, max_bytes } => {
            let n = read_into(disk, &mut handle, &mut buffer[..max_bytes]);
            IoReturn::Read { file, handle, buffer, max_bytes, result: Ok(n) }
        }
        IoCall::ReadChunk { file, mut handle, contents, mut chunk } => {
            let n = read_into(disk, &mut handle, &mut chunk[..]);
            IoReturn::ReadChunk { file, handle, contents, chunk, result: Ok(n) }
        }
        IoCall::Write { file, mut handle, bytes } => {
            if disk.interruptions > 0 {
                disk.interruptions -= 1;
                let result = Err(Error::new(ErrorKind::Interrupted, "interrupted"));
                return IoReturn::Written { file, handle, result };
            }
            let n = bytes.len().min(disk.max_write);
            let contents = disk.files.get_mut(&handle.path).unwrap();
            contents.truncate(handle.position);
            contents.extend_from_slice(&bytes[..n]);
            handle.position += n;
            IoReturn::Written { file, handle, result: Ok(n) }
        }
        IoCall::Metadata { file, handle } => {
            let len = disk.files[&handle.path].len() as u64;
            IoReturn::Metadata { file, handle, result: Ok(len) }
        }
        IoCall::SetLen { file, handle, size } => {
            disk.files.get_mut(&handle.path).unwrap().resize(size as usize, 0);
            IoReturn::LenSet { file, handle, result: Ok(()) }
        }
        IoCall::ChangeDir(path, change) => IoReturn::DirChanged(match change {
            DirChange::CreateDir => {
                if disk.dirs.insert(path) {
                    Ok(())
                } else {
                    Err(Error::new(ErrorKind::AlreadyExists, "exists"))
                }
            }
            DirChange::CreateDirAll => {
                disk.dirs.insert(path);
                Ok(())
            }
            DirChange::RemoveDir | DirChange::RemoveDirAll => {
                if disk.dirs.remove(&path) {
                    Ok(())
                } else {
                    Err(not_found())
                }
            }
        }),
        IoCall::Copy(from, to) => IoReturn::Copied(match disk.files.get(&from).cloned() {
            Some(contents) => {
                let n = contents.len() as u64;
                disk.files.insert(to, contents);
                Ok(n)
            }
            None => Err(not_found()),
        }),
        IoCall::RemoveFile(path) => IoReturn::Removed(match disk.files.remove(&path) {
            Some(_) => Ok(()),
            None => Err(not_found()),
        }),
        IoCall::Rename(from, to) => IoReturn::Renamed(match disk.files.remove(&from) {
            Some(contents) => {
                disk.files.insert(to, contents);
                Ok(())
            }
            None => Err(not_found()),
        }),
    }
}

struct Machine {
    thread: IoThread<Open, u64>,
    worker: IoWorker<Open>,
    disk: Disk,
}

fn machine() -> Machine {
    Machine { thread: IoThread::new(), worker: IoWorker::new(), disk: disk() }
}

/// The worker's loop: answers every request that waits, in arrival order.
fn serve(m: &mut Machine) -> usize {
    let mut answered = 0;
    while let Some((id, request)) = m.thread.next_request() {
        assert!(!m.worker.is_busy());
        let mut step: IoStep<Open, u64> = m.worker.dispatch(request.options);
        loop {
            match step {
                IoStep::Perform(call) => {
                    let ret = perform(&mut m.disk, call);
                    assert!(m.worker.can_complete(&ret));
                    step = m.worker.complete(ret);
                }
                IoStep::Finished(outcome) => {
                    m.thread.post_result(id, outcome, request.waker).wake();
                    answered += 1;
                    break;
                }
                IoStep::Dropped => break,
            }
        }
    }
    answered
}

fn poll(m: &mut Machine, future: &mut SimpleThreadFuture) -> Poll<IoOutcome<Open, u64>> {
    assert!(future.check_pollable(&mut m.thread));
    future.poll(&mut m.thread, quiet())
}

/// Polls the future as a task would, with the worker running in between.
fn wait(m: &mut Machine, mut future: SimpleThreadFuture) -> IoOutcome<Open, u64> {
    assert!(matches!(poll(m, &mut future), Poll::Pending));
    serve(m);
    match poll(m, &mut future) {
        Poll::Ready(outcome) => {
            assert!(future.is_done());
            outcome
        }
        Poll::Pending => panic!("the worker has answered"),
    }
}

fn write_all(m: &mut Machine, file: &mut File, bytes: &[u8]) -> Result<(), Error> {
    let mut progress = file.write_all(bytes.to_vec());
    while let Some(write) = progress.next_write() {
        let result = wait(m, write).bytes_written();
        if let Some(error) = progress.advance(WriteEvent::classify(result)) {
            return Err(error);
        }
    }
    assert_eq!(progress.remaining_len(), 0);
    Ok(())
}

fn path(p: &str) -> PathBuf {
    PathBuf::from(p)
}

fn create(m: &mut Machine, p: &str) -> File {
    File::opened(wait(m, File::create(path(p)))).unwrap()
}

fn open(m: &mut Machine, p: &str) -> File {
    File::opened(wait(m, File::open(path(p)))).unwrap()
}

fn read_to_end(m: &mut Machine, p: &str) -> Vec<u8> {
    let mut file = open(m, p);
    wait(m, file.read_to_end()).bytes_read().unwrap()
}

fn some_id(n: usize) -> Id {
    IdGenerator::starting_at(n).next().unwrap()
}

#[test]
fn every_operation_expects_its_own_kind_of_outcome() {
    let file = some_id(0);
    let cases = vec![
        (IoReqOptions::OpenFile(path("a")), OutcomeKind::FileOpenedOrCreated),
        (IoReqOptions::CreateFile(path("a")), OutcomeKind::FileOpenedOrCreated),
        (IoReqOptions::ReadFile(file, 1), OutcomeKind::FileBytesRead),
        (IoReqOptions::FullyReadFile(file), OutcomeKind::FileBytesRead),
        (IoReqOptions::WriteFile(file, vec![1]), OutcomeKind::FileBytesWritten),
        (IoReqOptions::FileMetadata(file), OutcomeKind::FileMetadata),
        (IoReqOptions::FileToStd(file), OutcomeKind::FileToStd),
        (IoReqOptions::SetFileLen(file, 1), OutcomeKind::FileLenSet),
        (IoReqOptions::ChangeDir(path("d"), DirChange::CreateDir), OutcomeKind::DirChanged),
        (IoReqOptions::Copy(path("a"), path("b")), OutcomeKind::Copied),
        (IoReqOptions::RemoveFile(path("a")), OutcomeKind::Removed),
        (IoReqOptions::Rename(path("a"), path("b")), OutcomeKind::Renamed),
    ];
    for (options, kind) in cases {
        assert_eq!(options.expects(), kind);
    }
}

#[test]
fn outcome_knows_its_kind() {
    let outcome: IoOutcome<Open, u64> = IoOutcome::Copied(Ok(3));
    assert_eq!(outcome.kind(), OutcomeKind::Copied);
    assert_eq!(outcome.copied().unwrap(), 3);
    let outcome: IoOutcome<Open, u64> = IoOutcome::FileMetadata(Ok(9));
    assert_eq!(outcome.kind(), OutcomeKind::FileMetadata);
    assert_eq!(outcome.metadata().unwrap(), 9);
    let outcome: IoOutcome<Open, u64> = IoOutcome::Renamed(Err(not_found()));
    assert_eq!(outcome.kind(), OutcomeKind::Renamed);
    assert_eq!(outcome.done().unwrap_err().kind(), ErrorKind::NotFound);
}

#[test]
fn path_operations_are_always_performed() {
    let mut worker: IoWorker<Open> = IoWorker::new();
    let step: IoStep<Open, u64> = worker.dispatch(IoReqOptions::OpenFile(path("x")));
    assert!(matches!(step, IoStep::Perform(IoCall::Open(p)) if p == path("x")));
    let step: IoStep<Open, u64> = worker.dispatch(IoReqOptions::CreateFile(path("y")));
    assert!(matches!(step, IoStep::Perform(IoCall::Create(p)) if p == path("y")));
    let step: IoStep<Open, u64> =
        worker.dispatch(IoReqOptions::ChangeDir(path("d"), DirChange::RemoveDirAll));
    assert!(matches!(step,
        IoStep::Perform(IoCall::ChangeDir(p, DirChange::RemoveDirAll)) if p == path("d")));
    let step: IoStep<Open, u64> = worker.dispatch(IoReqOptions::Copy(path("a"), path("b")));
    assert!(matches!(step, IoStep::Perform(IoCall::Copy(a, b)) if a == path("a") && b == path("b")));
    let step: IoStep<Open, u64> = worker.dispatch(IoReqOptions::RemoveFile(path("a")));
    assert!(matches!(step, IoStep::Perform(IoCall::RemoveFile(p)) if p == path("a")));
    let step: IoStep<Open, u64> = worker.dispatch(IoReqOptions::Rename(path("a"), path("b")));
    assert!(matches!(step, IoStep::Perform(IoCall::Rename(a, b)) if a == path("a") && b == path("b")));
}

#[test]
fn operations_on_unknown_files_are_dropped() {
    let mut worker: IoWorker<Open> = IoWorker::new();
    let file = some_id(3);
    assert!(!worker.has_file(file));
    let requests = vec![
        IoReqOptions::ReadFile(file, 4),
        IoReqOptions::FullyReadFile(file),
        IoReqOptions::WriteFile(file, vec![1, 2]),
        IoReqOptions::FileMetadata(file),
        IoReqOptions::FileToStd(file),
        IoReqOptions::SetFileLen(file, 0),
    ];
    for options in requests {
        let step: IoStep<Open, u64> = worker.dispatch(options);
        assert!(matches!(step, IoStep::Dropped));
    }
}

#[test]
fn dropped_request_leaves_its_client_waiting_and_unwoken() {
    let mut m = machine();
    let (count, waker) = counter();
    let mut stranger = File::opened::<Open, u64>(IoOutcome::FileOpenedOrCreated(Ok(some_id(8)))).unwrap();
    let mut future = stranger.read(4);
    assert!(matches!(future.poll(&mut m.thread, waker.clone()), Poll::Pending));
    assert_eq!(serve(&mut m), 0);
    assert_eq!(m.disk.calls, 0);
    assert!(matches!(poll(&mut m, &mut future), Poll::Pending));
    assert!(matches!(poll(&mut m, &mut future), Poll::Pending));
    assert!(!future.is_done());
    assert_eq!(count.wakes.load(Ordering::SeqCst), 0);
}

#[test]
fn opened_files_get_ids_of_their_own_sequence() {
    let mut m = machine();
    let _ = wait(&mut m, remove_file(path("nothing")));
    let _ = wait(&mut m, remove_file(path("nothing")));
    let first = create(&mut m, "a");
    let second = create(&mut m, "b");
    assert_eq!(first.id().index(), 0);
    assert_eq!(second.id().index(), 1);
    assert!(m.worker.has_file(first.id()));
    assert!(m.worker.has_file(second.id()));
}

#[test]
fn failed_open_issues_no_file_id() {
    let mut m = machine();
    let outcome = wait(&mut m, File::open(path("missing")));
    assert_eq!(outcome.kind(), OutcomeKind::FileOpenedOrCreated);
    let error = File::opened(outcome).err().unwrap();
    assert_eq!(error.kind(), ErrorKind::NotFound);
    let file = create(&mut m, "present");
    assert_eq!(file.id().index(), 0);
}

#[test]
fn first_poll_sends_the_request_and_later_polls_look_for_the_outcome() {
    let mut m = machine();
    let mut future = File::create(path("a"));
    assert!(matches!(future.state, SimpleThreadFutureState::NotYetStarted(_)));
    assert!(matches!(poll(&mut m, &mut future), Poll::Pending));
    match future.state {
        SimpleThreadFutureState::Waiting(id) => assert_eq!(id.index(), 0),
        _ => panic!("the request was sent"),
    }
    assert!(matches!(poll(&mut m, &mut future), Poll::Pending));
    assert_eq!(serve(&mut m), 1);
    assert_eq!(serve(&mut m), 0);
    assert!(matches!(poll(&mut m, &mut future), Poll::Ready(IoOutcome::FileOpenedOrCreated(Ok(_)))));
    assert!(future.is_done());
    assert!(!future.check_pollable(&mut m.thread));
}

#[test]
fn worker_wakes_the_client_after_posting() {
    let mut m = machine();
    let (count, waker) = counter();
    let mut future = create_dir_all(path("d"));
    assert!(matches!(future.poll(&mut m.thread, waker.clone()), Poll::Pending));
    assert_eq!(count.wakes.load(Ordering::SeqCst), 0);
    serve(&mut m);
    assert_eq!(count.wakes.load(Ordering::SeqCst), 1);
    assert!(matches!(future.poll(&mut m.thread, waker.clone()), Poll::Ready(IoOutcome::DirChanged(Ok(())))));
}

#[test]
fn requests_are_answered_in_arrival_order() {
    let mut m = machine();
    let mut first = File::create(path("a"));
    let mut second = rename(path("a"), path("b"));
    let mut third = File::open(path("b"));
    assert!(matches!(poll(&mut m, &mut first), Poll::Pending));
    assert!(matches!(poll(&mut m, &mut second), Poll::Pending));
    assert!(matches!(poll(&mut m, &mut third), Poll::Pending));
    assert_eq!(serve(&mut m), 3);
    assert!(matches!(poll(&mut m, &mut third), Poll::Ready(IoOutcome::FileOpenedOrCreated(Ok(_)))));
    assert!(matches!(poll(&mut m, &mut second), Poll::Ready(IoOutcome::Renamed(Ok(())))));
    assert!(matches!(poll(&mut m, &mut first), Poll::Ready(IoOutcome::FileOpenedOrCreated(Ok(_)))));
}

#[test]
fn a_client_that_looks_first_keeps_the_outcomes_of_the_others() {
    let mut m = machine();
    let mut slow = File::create(path("a"));
    let mut quick = File::create(path("b"));
    let mut late = File::create(path("c"));
    assert!(matches!(poll(&mut m, &mut slow), Poll::Pending));
    assert!(matches!(poll(&mut m, &mut quick), Poll::Pending));
    serve(&mut m);
    assert!(matches!(poll(&mut m, &mut late), Poll::Pending));
    assert!(matches!(poll(&mut m, &mut late), Poll::Pending));
    let quick_file = match poll(&mut m, &mut quick) {
        Poll::Ready(outcome) => File::opened(outcome).unwrap(),
        Poll::Pending => panic!("answered"),
    };
    let slow_file = match poll(&mut m, &mut slow) {
        Poll::Ready(outcome) => File::opened(outcome).unwrap(),
        Poll::Pending => panic!("answered"),
    };
    assert_eq!(slow_file.id().index(), 0);
    assert_eq!(quick_file.id().index(), 1);
}

#[test]
fn outcome_is_received_once() {
    let mut m = machine();
    let id = m.thread.send_request(IoReqOptions::RemoveFile(path("a")), quiet()).unwrap();
    assert!(m.thread.try_recv_result(id).is_none());
    serve(&mut m);
    assert!(matches!(m.thread.try_recv_result(id), Some(IoOutcome::Removed(Err(_)))));
    assert!(m.thread.try_recv_result(id).is_none());
}

#[test]
fn table_tells_the_kind_of_a_waiting_outcome() {
    let mut m = machine();
    let id = m.thread.send_request(IoReqOptions::Copy(path("a"), path("b")), quiet()).unwrap();
    serve(&mut m);
    assert_eq!(m.thread.kind_in_table(id), None);
    m.thread.absorb();
    assert_eq!(m.thread.kind_in_table(id), Some(OutcomeKind::Copied));
    let mut wrong = SimpleThreadFuture::new(IoReqOptions::RemoveFile(path("a")), OutcomeKind::Removed);
    wrong.state = SimpleThreadFutureState::Waiting(id);
    assert!(!wrong.check_pollable(&mut m.thread));
    let mut right = SimpleThreadFuture::new(IoReqOptions::RemoveFile(path("a")), OutcomeKind::Copied);
    right.state = SimpleThreadFutureState::Waiting(id);
    assert!(right.check_pollable(&mut m.thread));
}

#[test]
fn requests_get_ids_in_order_and_leave_in_order() {
    let mut thread: IoThread<Open, u64> = IoThread::new();
    assert!(thread.can_send());
    let a = thread.send_request(IoReqOptions::RemoveFile(path("a")), quiet()).unwrap();
    let b = thread.send_request(IoReqOptions::RemoveFile(path("b")), quiet()).unwrap();
    assert_eq!(a.index(), 0);
    assert_eq!(b.index(), 1);
    let (first, request) = thread.next_request().unwrap();
    assert_eq!(first, a);
    assert!(matches!(request.options, IoReqOptions::RemoveFile(p) if p == path("a")));
    let (second, _) = thread.next_request().unwrap();
    assert_eq!(second, b);
    assert!(thread.next_request().is_none());
}

#[test]
fn written_bytes_are_read_back() {
    let mut m = machine();
    let bytes = b"the quick brown fox".to_vec();
    let mut file = create(&mut m, "fox");
    write_all(&mut m, &mut file, &bytes).unwrap();
    assert_eq!(read_to_end(&mut m, "fox"), bytes);
}

#[test]
fn long_file_is_read_to_end_over_many_chunks() {
    let mut m = machine();
    let bytes: Vec<u8> = (0..(3 * READ_CHUNK + 17)).map(|i| (i % 251) as u8).collect();
    m.disk.files.insert(path("long"), bytes.clone());
    let before = m.disk.calls;
    assert_eq!(read_to_end(&mut m, "long"), bytes);
    assert_eq!(m.disk.calls - before, 1 + 5);
}

#[test]
fn empty_file_reads_as_nothing() {
    let mut m = machine();
    m.disk.files.insert(path("empty"), Vec::new());
    assert_eq!(read_to_end(&mut m, "empty"), Vec::<u8>::new());
}

#[test]
fn read_gives_at_most_the_bytes_asked_for() {
    let mut m = machine();
    m.disk.files.insert(path("digits"), b"0123456789".to_vec());
    let mut file = open(&mut m, "digits");
    assert_eq!(wait(&mut m, file.read(4)).bytes_read().unwrap(), b"0123".to_vec());
    assert_eq!(wait(&mut m, file.read(4)).bytes_read().unwrap(), b"4567".to_vec());
    assert_eq!(wait(&mut m, file.read(4)).bytes_read().unwrap(), b"89".to_vec());
    assert_eq!(wait(&mut m, file.read(4)).bytes_read().unwrap(), Vec::<u8>::new());
    assert_eq!(wait(&mut m, file.read(0)).bytes_read().unwrap(), Vec::<u8>::new());
}

#[test]
fn read_buffer_grows_to_the_largest_read() {
    let mut worker: IoWorker<Open> = IoWorker::new();
    let _: IoStep<Open, u64> = worker.dispatch(IoReqOptions::OpenFile(path("a")));
    let file = match worker.complete::<u64>(IoReturn::Opened(Ok(Open { path: path("a"), position: 0 }))) {
        IoStep::Finished(IoOutcome::FileOpenedOrCreated(Ok(id))) => id,
        _ => panic!("the file is registered"),
    };
    let mut sizes = Vec::new();
    for max_bytes in [1usize, READ_BUFFER_START + 72, 10] {
        match worker.dispatch::<u64>(IoReqOptions::ReadFile(file, max_bytes)) {
            IoStep::Perform(IoCall::Read { file, handle, buffer, max_bytes }) => {
                sizes.push(buffer.len());
                assert!(buffer.iter().all(|b| *b == 0));
                let ret = IoReturn::Read { file, handle, buffer, max_bytes, result: Ok(0) };
                assert!(worker.can_complete::<u64>(&ret));
                worker.complete::<u64>(ret);
            }
            _ => panic!("the file is open"),
        }
    }
    assert_eq!(sizes, vec![READ_BUFFER_START, READ_BUFFER_START + 72, READ_BUFFER_START + 72]);
}

#[test]
fn file_is_out_of_the_table_during_a_call() {
    let mut m = machine();
    let file = create(&mut m, "a");
    match m.worker.dispatch::<u64>(IoReqOptions::FileMetadata(file.id())) {
        IoStep::Perform(IoCall::Metadata { file: id, handle }) => {
            assert_eq!(id, file.id());
            assert!(!m.worker.has_file(id));
            let ret = IoReturn::Metadata { file: id, handle, result: Ok(0u64) };
            assert!(m.worker.can_complete(&ret));
            assert!(matches!(m.worker.complete(ret), IoStep::Finished(IoOutcome::FileMetadata(Ok(0)))));
            assert!(m.worker.has_file(id));
        }
        _ => panic!("the file is open"),
    }
}

#[test]
fn worker_refuses_a_return_that_it_did_not_ask_for() {
    let mut m = machine();
    let file = create(&mut m, "a");
    let stray = IoReturn::Written {
        file: file.id(),
        handle: Open { path: path("a"), position: 0 },
        result: Ok(1),
    };
    assert!(!m.worker.can_complete::<u64>(&stray));
    let unissued = IoReturn::Written {
        file: some_id(40),
        handle: Open { path: path("a"), position: 0 },
        result: Ok(1),
    };
    assert!(!m.worker.can_complete::<u64>(&unissued));
    let overlong = IoReturn::ReadChunk {
        file: some_id(0),
        handle: Open { path: path("a"), position: 0 },
        contents: Vec::new(),
        chunk: vec![0; 4],
        result: Ok(5),
    };
    assert!(!m.worker.can_complete::<u64>(&overlong));
}

#[test]
fn file_handed_back_is_no_longer_open() {
    let mut m = machine();
    m.disk.files.insert(path("a"), b"abc".to_vec());
    let mut file = open(&mut m, "a");
    let id = file.id();
    let _ = wait(&mut m, file.read(1));
    let handle = wait(&mut m, file.to_std()).into_std();
    assert_eq!(handle, Open { path: path("a"), position: 1 });
    assert!(!m.worker.has_file(id));
    let step: IoStep<Open, u64> = m.worker.dispatch(IoReqOptions::FullyReadFile(id));
    assert!(matches!(step, IoStep::Dropped));
}

#[test]
fn metadata_and_set_len_work_on_the_open_file() {
    let mut m = machine();
    let mut file = create(&mut m, "a");
    write_all(&mut m, &mut file, b"123456").unwrap();
    assert_eq!(wait(&mut m, file.metadata()).metadata().unwrap(), 6);
    wait(&mut m, file.set_len(2)).done().unwrap();
    assert_eq!(wait(&mut m, file.metadata()).metadata().unwrap(), 2);
    assert_eq!(read_to_end(&mut m, "a"), b"12".to_vec());
}

#[test]
fn copy_gives_the_number_of_bytes_and_the_same_contents() {
    let mut m = machine();
    let bytes = b"copy me".to_vec();
    m.disk.files.insert(path("src"), bytes.clone());
    let n = wait(&mut m, copy(path("src"), path("dst"))).copied().unwrap();
    assert_eq!(n, bytes.len() as u64);
    assert_eq!(read_to_end(&mut m, "dst"), bytes);
    assert_eq!(read_to_end(&mut m, "src"), bytes);
    let missing = wait(&mut m, copy(path("none"), path("dst"))).copied();
    assert_eq!(missing.unwrap_err().kind(), ErrorKind::NotFound);
}

#[test]
fn create_dir_all_twice_succeeds() {
    let mut m = machine();
    wait(&mut m, create_dir_all(path("a/b/c"))).done().unwrap();
    wait(&mut m, create_dir_all(path("a/b/c"))).done().unwrap();
    let again = wait(&mut m, create_dir(path("a/b/c"))).done();
    assert_eq!(again.unwrap_err().kind(), ErrorKind::AlreadyExists);
}

#[test]
fn directories_and_files_can_be_removed_and_renamed() {
    let mut m = machine();
    wait(&mut m, create_dir(path("d"))).done().unwrap();
    wait(&mut m, remove_dir(path("d"))).done().unwrap();
    assert!(wait(&mut m, remove_dir_all(path("d"))).done().is_err());
    let mut file = create(&mut m, "old");
    write_all(&mut m, &mut file, b"x").unwrap();
    wait(&mut m, rename(path("old"), path("new"))).done().unwrap();
    assert_eq!(read_to_end(&mut m, "new"), b"x".to_vec());
    wait(&mut m, remove_file(path("new"))).done().unwrap();
    assert!(File::opened(wait(&mut m, File::open(path("new")))).is_err());
}

#[test]
fn path_builders_ask_for_the_right_operation() {
    let future = create_dir(path("d"));
    assert!(matches!(future.state,
        SimpleThreadFutureState::NotYetStarted(IoReqOptions::ChangeDir(p, DirChange::CreateDir)) if p == path("d")));
    assert_eq!(future.check_outcome, OutcomeKind::DirChanged);
    let future = create_dir_all(path("d"));
    assert!(matches!(future.state,
        SimpleThreadFutureState::NotYetStarted(IoReqOptions::ChangeDir(_, DirChange::CreateDirAll))));
    let future = remove_dir(path("d"));
    assert!(matches!(future.state,
        SimpleThreadFutureState::NotYetStarted(IoReqOptions::ChangeDir(_, DirChange::RemoveDir))));
    let future = remove_dir_all(path("d"));
    assert!(matches!(future.state,
        SimpleThreadFutureState::NotYetStarted(IoReqOptions::ChangeDir(_, DirChange::RemoveDirAll))));
    let future = copy(path("a"), path("b"));
    assert_eq!(future.check_outcome, OutcomeKind::Copied);
    let future = remove_file(path("a"));
    assert_eq!(future.check_outcome, OutcomeKind::Removed);
    let future = rename(path("a"), path("b"));
    assert_eq!(future.check_outcome, OutcomeKind::Renamed);
    let future = SimpleThreadFuture::request(IoReqOptions::FileToStd(some_id(1)));
    assert_eq!(future.check_outcome, OutcomeKind::FileToStd);
}

#[test]
fn file_builders_ask_for_the_right_operation() {
    let mut file = File::opened::<Open, u64>(IoOutcome::FileOpenedOrCreated(Ok(some_id(4)))).unwrap();
    let id = file.id();
    assert!(matches!(file.read(9).state,
        SimpleThreadFutureState::NotYetStarted(IoReqOptions::ReadFile(f, 9)) if f == id));
    assert!(matches!(file.read_to_end().state,
        SimpleThreadFutureState::NotYetStarted(IoReqOptions::FullyReadFile(f)) if f == id));
    assert!(matches!(file.write(vec![1, 2]).state,
        SimpleThreadFutureState::NotYetStarted(IoReqOptions::WriteFile(f, b)) if f == id && b == vec![1, 2]));
    assert!(matches!(file.metadata().state,
        SimpleThreadFutureState::NotYetStarted(IoReqOptions::FileMetadata(f)) if f == id));
    assert!(matches!(file.set_len(3).state,
        SimpleThreadFutureState::NotYetStarted(IoReqOptions::SetFileLen(f, 3)) if f == id));
    assert!(matches!(file.to_std().state,
        SimpleThreadFutureState::NotYetStarted(IoReqOptions::FileToStd(f)) if f == id));
}

#[test]
fn write_all_goes_on_after_short_writes() {
    let mut m = machine();
    m.disk.max_write = 3;
    let bytes = b"0123456789".to_vec();
    let mut file = create(&mut m, "a");
    let before = m.disk.calls;
    write_all(&mut m, &mut file, &bytes).unwrap();
    assert_eq!(m.disk.calls - before, 4);
    m.disk.max_write = usize::MAX;
    assert_eq!(read_to_end(&mut m, "a"), bytes);
}

#[test]
fn write_all_tries_again_after_an_interruption() {
    let mut m = machine();
    m.disk.interruptions = 2;
    let mut file = create(&mut m, "a");
    write_all(&mut m, &mut file, b"abc").unwrap();
    assert_eq!(m.disk.interruptions, 0);
    assert_eq!(read_to_end(&mut m, "a"), b"abc".to_vec());
}

#[test]
fn write_all_fails_when_a_write_accepts_nothing() {
    let mut m = machine();
    m.disk.max_write = 0;
    let mut file = create(&mut m, "a");
    let error = write_all(&mut m, &mut file, b"abc").unwrap_err();
    assert_eq!(error.kind(), ErrorKind::WriteZero);
}

#[test]
fn write_all_of_nothing_writes_nothing() {
    let mut m = machine();
    m.disk.max_write = 0;
    let mut file = create(&mut m, "a");
    let before = m.disk.calls;
    write_all(&mut m, &mut file, b"").unwrap();
    assert_eq!(m.disk.calls, before);
}

#[test]
fn write_all_steps_by_hand() {
    let mut file = File::opened::<Open, u64>(IoOutcome::FileOpenedOrCreated(Ok(some_id(2)))).unwrap();
    let mut progress = file.write_all(b"abcdef".to_vec());
    assert_eq!(progress.remaining_len(), 6);
    match progress.next_write().unwrap().state {
        SimpleThreadFutureState::NotYetStarted(IoReqOptions::WriteFile(f, bytes)) => {
            assert_eq!(f.index(), 2);
            assert_eq!(bytes, b"abcdef".to_vec());
        }
        _ => panic!("a write of everything"),
    }
    assert!(progress.advance(WriteEvent::Wrote(4)).is_none());
    assert_eq!(progress.remaining_len(), 2);
    assert!(progress.advance(WriteEvent::Interrupted).is_none());
    assert_eq!(progress.remaining_len(), 2);
    match progress.next_write().unwrap().state {
        SimpleThreadFutureState::NotYetStarted(IoReqOptions::WriteFile(_, bytes)) => {
            assert_eq!(bytes, b"ef".to_vec());
        }
        _ => panic!("a write of the rest"),
    }
    let failure = progress.advance(WriteEvent::Failed(Error::new(ErrorKind::PermissionDenied, "no")));
    assert_eq!(failure.unwrap().kind(), ErrorKind::PermissionDenied);
    assert_eq!(progress.remaining_len(), 2);
    assert!(progress.advance(WriteEvent::Wrote(2)).is_none());
    assert!(progress.next_write().is_none());
}

#[test]
fn write_events_are_told_apart() {
    assert!(matches!(WriteEvent::classify(Ok(3)), WriteEvent::Wrote(3)));
    assert!(matches!(WriteEvent::classify(Ok(0)), WriteEvent::Wrote(0)));
    assert!(matches!(
        WriteEvent::classify(Err(Error::new(ErrorKind::Interrupted, "again"))),
        WriteEvent::Interrupted
    ));
    match WriteEvent::classify(Err(Error::new(ErrorKind::BrokenPipe, "gone"))) {
        WriteEvent::Failed(e) => assert_eq!(e.kind(), ErrorKind::BrokenPipe),
        _ => panic!("a broken pipe is a failure"),
    }
}

#[test]
fn two_writers_of_one_path_do_not_interleave() {
    let mut m = machine();
    let first = vec![b'a'; 2000];
    let second = vec![b'b'; 1500];
    let mut create_one = File::create(path("shared"));
    let mut create_two = File::create(path("shared"));
    assert!(matches!(poll(&mut m, &mut create_one), Poll::Pending));
    assert!(matches!(poll(&mut m, &mut create_two), Poll::Pending));
    serve(&mut m);
    let mut one = match poll(&mut m, &mut create_one) {
        Poll::Ready(outcome) => File::opened(outcome).unwrap(),
        Poll::Pending => panic!("answered"),
    };
    let mut two = match poll(&mut m, &mut create_two) {
        Poll::Ready(outcome) => File::opened(outcome).unwrap(),
        Poll::Pending => panic!("answered"),
    };
    let mut write_one = one.write(first.clone());
    let mut write_two = two.write(second.clone());
    assert!(matches!(poll(&mut m, &mut write_two), Poll::Pending));
    assert!(matches!(poll(&mut m, &mut write_one), Poll::Pending));
    serve(&mut m);
    assert!(matches!(poll(&mut m, &mut write_one), Poll::Ready(IoOutcome::FileBytesWritten(Ok(2000)))));
    assert!(matches!(poll(&mut m, &mut write_two), Poll::Ready(IoOutcome::FileBytesWritten(Ok(1500)))));
    let contents = read_to_end(&mut m, "shared");
    assert!(contents == first || contents == second);
}

#[test]
fn file_read_task_gives_the_length_of_the_file() {
    let mut m = machine();
    let toml = b"[package]\nname = \"demo\"\nversion = \"0.1.0\"\n".to_vec();
    m.disk.files.insert(path("Cargo.toml"), toml.clone());
    let contents = read_to_end(&mut m, "Cargo.toml");
    assert!(!contents.is_empty());
    assert_eq!(contents.len(), toml.len());
    assert_eq!(text_of(contents).unwrap(), String::from_utf8(toml).unwrap());
}

#[test]
fn text_is_decoded_only_from_well_formed_bytes() {
    assert_eq!(text_of(b"plain".to_vec()).unwrap(), "plain");
    assert_eq!(text_of("zażółć".as_bytes().to_vec()).unwrap(), "zażółć");
    assert_eq!(text_of(Vec::new()).unwrap(), "");
    let error = text_of(vec![0x66, 0xff, 0x6f]).unwrap_err();
    assert_eq!(error.kind(), ErrorKind::InvalidData);
    assert!(text_of(vec![0xc3]).is_err());
}

#[test]
fn file_requests_are_part_of_the_full_protocol() {
    let file = some_id(1);
    assert!(matches!(FileThreadRequestOptions::OpenFile(path("a")).into_io(),
        IoReqOptions::OpenFile(p) if p == path("a")));
    assert!(matches!(FileThreadRequestOptions::CreateFile(path("a")).into_io(),
        IoReqOptions::CreateFile(p) if p == path("a")));
    assert!(matches!(FileThreadRequestOptions::Read(file, 5).into_io(),
        IoReqOptions::ReadFile(f, 5) if f == file));
    assert!(matches!(FileThreadRequestOptions::Write(file, vec![7]).into_io(),
        IoReqOptions::WriteFile(f, b) if f == file && b == vec![7]));
    let (count, waker) = counter();
    let request = FileThreadRequest::new(waker, FileThreadRequestOptions::Read(file, 2)).into_io();
    assert!(matches!(request.options, IoReqOptions::ReadFile(_, 2)));
    request.waker.wake();
    assert_eq!(count.wakes.load(Ordering::SeqCst), 1);
}

#[test]
fn file_results_come_from_file_outcomes_only() {
    let read: IoOutcome<Open, u64> = IoOutcome::FileBytesRead(Ok(vec![1, 2]));
    assert!(matches!(FileThreadResult::from_io(read), Ok(FileThreadResult::BytesRead(Ok(b))) if b == vec![1, 2]));
    let written: IoOutcome<Open, u64> = IoOutcome::FileBytesWritten(Ok(2));
    assert!(matches!(FileThreadResult::from_io(written), Ok(FileThreadResult::BytesWritten(Ok(2)))));
    let opened: IoOutcome<Open, u64> = IoOutcome::FileOpenedOrCreated(Ok(some_id(3)));
    assert!(matches!(FileThreadResult::from_io(opened),
        Ok(FileThreadResult::FileOpenedOrCreated(Ok(id))) if id.index() == 3));
    let copied: IoOutcome<Open, u64> = IoOutcome::Copied(Ok(2));
    assert!(matches!(FileThreadResult::from_io(copied), Err(IoOutcome::Copied(Ok(2)))));
}

#[test]
fn attempt_that_would_block_asks_to_be_polled_again() {
    let blocked: Attempt<usize> = Attempt::classify(Err(Error::new(ErrorKind::WouldBlock, "later")));
    assert!(matches!(blocked, Attempt::WouldBlock));
    assert!(matches!(blocked.poll(), (Poll::Pending, true)));
    let done: Attempt<usize> = Attempt::classify(Ok(4));
    assert!(matches!(done, Attempt::Done(4)));
    assert!(matches!(done.poll(), (Poll::Ready(Ok(4)), false)));
    let failed: Attempt<usize> = Attempt::classify(Err(Error::new(ErrorKind::ConnectionReset, "reset")));
    match failed.poll() {
        (Poll::Ready(Err(e)), false) => assert_eq!(e.kind(), ErrorKind::ConnectionReset),
        _ => panic!("a reset is a failure"),
    }
}

#[test]
fn only_would_block_is_no_failure_of_an_attempt() {
    for kind in [
        ErrorKind::Interrupted,
        ErrorKind::WriteZero,
        ErrorKind::InvalidData,
        ErrorKind::NotFound,
        ErrorKind::TimedOut,
    ] {
        match Attempt::<usize>::classify(Err(Error::new(kind, "no"))) {
            Attempt::Failed(e) => assert_eq!(e.kind(), kind),
            _ => panic!("only an attempt that would block is pending"),
        }
    }
}

#[test]
fn only_interrupted_is_no_failure_of_a_write() {
    for kind in [
        ErrorKind::WouldBlock,
        ErrorKind::WriteZero,
        ErrorKind::InvalidData,
        ErrorKind::NotFound,
        ErrorKind::TimedOut,
    ] {
        match WriteEvent::classify(Err(Error::new(kind, "no"))) {
            WriteEvent::Failed(e) => assert_eq!(e.kind(), kind),
            _ => panic!("only an interrupted write is tried again"),
        }
    }
}

#[test]
fn posting_hands_the_handle_back_without_invoking_it() {
    let mut m = machine();
    let (count, waker) = counter();
    let id = m.thread.send_request(IoReqOptions::RemoveFile(path("a")), waker).unwrap();
    let (_, request) = m.thread.next_request().unwrap();
    let handle = m.thread.post_result(id, IoOutcome::Removed(Ok(())), request.waker);
    assert_eq!(count.wakes.load(Ordering::SeqCst), 0);
    assert!(matches!(m.thread.try_recv_result(id), Some(IoOutcome::Removed(Ok(())))));
    handle.wake();
    assert_eq!(count.wakes.load(Ordering::SeqCst), 1);
}

#[test]
fn stream_is_drained_until_a_read_of_nothing() {
    let mut drain = Drain::new();
    assert!(!drain.absorb(&vec![b'h', 0, 0], 1));
    assert!(!drain.absorb(&vec![b'e', b'y', 0], 2));
    assert!(drain.absorb(&vec![9, 9, 9], 0));
    assert_eq!(drain.finish(), b"hey".to_vec());
}

#[test]
fn request_ids_run_out() {
    let mut thread: IoThread<Open, u64> =
        IoThread::with_request_ids(IdGenerator::starting_at(usize::MAX - 1));
    assert!(thread.can_send());
    let last = thread.send_request(IoReqOptions::RemoveFile(path("a")), quiet()).unwrap();
    assert_eq!(last.index(), usize::MAX - 1);
    assert!(!thread.can_send());
    assert!(thread.send_request(IoReqOptions::RemoveFile(path("b")), quiet()).is_none());
    assert!(thread.next_request().is_some());
    assert!(thread.next_request().is_none());
    let unsent = remove_file(path("c"));
    assert!(!unsent.check_pollable(&mut thread));
}

#[test]
fn file_ids_run_out() {
    let mut worker: IoWorker<Open> = IoWorker::with_file_ids(IdGenerator::starting_at(usize::MAX - 1));
    let _: IoStep<Open, u64> = worker.dispatch(IoReqOptions::OpenFile(path("a")));
    let opened = IoReturn::Opened(Ok(Open { path: path("a"), position: 0 }));
    assert!(worker.can_complete::<u64>(&opened));
    match worker.complete::<u64>(opened) {
        IoStep::Finished(IoOutcome::FileOpenedOrCreated(Ok(id))) => assert_eq!(id.index(), usize::MAX - 1),
        _ => panic!("the last file identifier is issued"),
    }
    let _: IoStep<Open, u64> = worker.dispatch(IoReqOptions::CreateFile(path("b")));
    let one_more = IoReturn::Opened(Ok(Open { path: path("b"), position: 0 }));
    assert!(!worker.can_complete::<u64>(&one_more));
    let failed: IoReturn<Open, u64> = IoReturn::Opened(Err(not_found()));
    assert!(worker.can_complete(&failed));
}

#[test]
fn worker_takes_only_the_return_of_the_call_that_is_under_way() {
    let mut m = machine();
    let first = create(&mut m, "a");
    let second = create(&mut m, "b");
    assert!(!m.worker.is_busy());
    let opened: IoReturn<Open, u64> = IoReturn::Opened(Ok(Open { path: path("c"), position: 0 }));
    assert!(!m.worker.can_complete(&opened));
    match m.worker.dispatch::<u64>(IoReqOptions::WriteFile(first.id(), vec![1])) {
        IoStep::Perform(IoCall::Write { file, handle, bytes: _ }) => {
            assert!(m.worker.is_busy());
            assert!(!m.worker.can_complete(&opened));
            let renamed: IoReturn<Open, u64> = IoReturn::Renamed(Ok(()));
            assert!(!m.worker.can_complete(&renamed));
            let other_operation = IoReturn::Metadata { file, handle: Open { path: path("a"), position: 0 }, result: Ok(0u64) };
            assert!(!m.worker.can_complete(&other_operation));
            let other_file = IoReturn::Written {
                file: second.id(),
                handle: Open { path: path("b"), position: 0 },
                result: Ok(1),
            };
            assert!(!m.worker.can_complete::<u64>(&other_file));
            let right = IoReturn::Written { file, handle, result: Ok(1) };
            assert!(m.worker.can_complete::<u64>(&right));
            assert_eq!(right.kind(), coop_runtime::adapters::io_worker::CallKind::Write);
            assert_eq!(right.file(), Some(first.id()));
            assert!(matches!(m.worker.complete::<u64>(right), IoStep::Finished(IoOutcome::FileBytesWritten(Ok(1)))));
            assert!(!m.worker.is_busy());
        }
        _ => panic!("the file is open"),
    }
}

#[test]
fn worker_stays_busy_while_a_file_is_read_to_its_end() {
    let mut m = machine();
    m.disk.files.insert(path("a"), vec![7; 10]);
    let file = open(&mut m, "a");
    let mut step: IoStep<Open, u64> = m.worker.dispatch(IoReqOptions::FullyReadFile(file.id()));
    let mut steps = 0;
    loop {
        match step {
            IoStep::Perform(call) => {
                assert!(m.worker.is_busy());
                let ret = perform(&mut m.disk, call);
                assert!(m.worker.can_complete(&ret));
                step = m.worker.complete(ret);
                steps += 1;
            }
            IoStep::Finished(outcome) => {
                assert_eq!(outcome.bytes_read().unwrap(), vec![7; 10]);
                break;
            }
            IoStep::Dropped => panic!("the file is open"),
        }
    }
    assert_eq!(steps, 2);
    assert!(!m.worker.is_busy());
    assert!(m.worker.has_file(file.id()));
}
