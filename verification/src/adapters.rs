//! Suspendable primitives that run blocking operations on a dedicated worker.

pub mod error;
pub mod file;
pub mod fs;
pub mod fs_worker;
pub mod io_worker;
pub mod net;

use crate::adapters::io_worker::IoOutcome;
use crate::adapters::io_worker::IoReq;
use crate::adapters::io_worker::IoReqOptions;
use crate::adapters::io_worker::IoThread;
use crate::adapters::io_worker::OutcomeKind;
use crate::id::Id;
use std::task::Poll;
use std::task::Waker;
use vstd::prelude::*;

verus! {

/// Where a client is with its request.
pub enum SimpleThreadFutureState {
    /// Nothing was sent yet. The first poll sends the operation.
    NotYetStarted(IoReqOptions),
    /// The request was sent under this request identifier.
    Waiting(Id),
    /// The outcome was received. The future must not be polled again.
    Done,
}

/// The client's side of one request to the worker: it sends the operation
/// when first polled, and from then on looks for the outcome each time it is
/// polled, until the outcome is there.
pub struct SimpleThreadFuture {
    pub state: SimpleThreadFutureState,
    /// The kind of outcome that this client takes for an answer.
    pub check_outcome: OutcomeKind,
}

impl SimpleThreadFuture {
    /// A client that has not sent `io_req_options` yet and takes an outcome
    /// of kind `check_outcome` for an answer.
    pub fn new(io_req_options: IoReqOptions, check_outcome: OutcomeKind) -> (r: Self)
        ensures
            r.state == SimpleThreadFutureState::NotYetStarted(io_req_options),
            r.check_outcome == check_outcome,
    {
        SimpleThreadFuture {
            state: SimpleThreadFutureState::NotYetStarted(io_req_options),
            check_outcome,
        }
    }

    /// A client for `io_req_options` that takes the kind of outcome for an
    /// answer that the operation calls for.
    pub fn request(io_req_options: IoReqOptions) -> (r: Self)
        ensures
            r.state == SimpleThreadFutureState::NotYetStarted(io_req_options),
            r.check_outcome == io_req_options.expected_kind(),
    {
        let check_outcome: OutcomeKind = io_req_options.expects();
        SimpleThreadFuture::new(io_req_options, check_outcome)
    }

    /// Whether the future can be polled against `thread`: it is not done, a
    /// request identifier is left if the request still has to be sent, and
    /// the outcome, if it is there, is of the kind that the client takes.
    /// An outcome of another kind is a fault in the protocol, with which the
    /// client cannot go on.
    pub open spec fn can_poll<H, M>(&self, thread: &IoThread<H, M>) -> bool {
        match self.state {
            SimpleThreadFutureState::NotYetStarted(_) => thread.has_request_ids(),
            SimpleThreadFutureState::Waiting(id) => thread.available().contains_key(id@)
                ==> thread.available()[id@].kind() == self.check_outcome,
            SimpleThreadFutureState::Done => false,
        }
    }

    /// Whether the future has received its outcome.
    pub fn is_done(&self) -> (r: bool)
        ensures
            r == (self.state is Done),
    {
        match &self.state {
            SimpleThreadFutureState::Done => true,
            _ => false,
        }
    }

    /// Enters the posted outcomes into the table of `thread`, and says
    /// whether the future can be polled.
    pub fn check_pollable<H, M>(&self, thread: &mut IoThread<H, M>) -> (r: bool)
        ensures
            r == self.can_poll(old(thread)),
            r == self.can_poll(final(thread)),
            final(thread).requests() == old(thread).requests(),
            final(thread).request_ids_issued() == old(thread).request_ids_issued(),
            final(thread).available() == old(thread).available(),
    {
        thread.absorb();
        match &self.state {
            SimpleThreadFutureState::NotYetStarted(_) => thread.can_send(),
            SimpleThreadFutureState::Waiting(id) => match thread.kind_in_table(*id) {
                Some(kind) => kind == self.check_outcome,
                None => true,
            },
            SimpleThreadFutureState::Done => false,
        }
    }

    /// Polls the future.
    ///
    /// The first poll sends the operation to the worker, with `waker`,
    /// remembers the request identifier and answers "pending". A later poll
    /// has no use for `waker`: it enters the posted outcomes into the table
    /// and looks for its own. If it is not there, the answer is "pending" and
    /// the future goes on waiting; if it is, the future is done and the
    /// answer is the outcome.
    pub fn poll<H, M>(&mut self, thread: &mut IoThread<H, M>, waker: Waker) -> (r: Poll<
        IoOutcome<H, M>,
    >)
        requires
            old(self).can_poll(old(thread)),
        ensures
            final(self).check_outcome == old(self).check_outcome,
            match old(self).state {
                SimpleThreadFutureState::NotYetStarted(options) => {
                    &&& r is Pending
                    &&& final(self).state matches SimpleThreadFutureState::Waiting(id)
                    &&& id@ == old(thread).request_ids_issued()
                    &&& final(thread).request_ids_issued() == old(thread).request_ids_issued() + 1
                    &&& final(thread).requests() == old(thread).requests().push(
                        (id, IoReq { waker, options }),
                    )
                    &&& final(thread).arrived() == old(thread).arrived()
                    &&& final(thread).table() == old(thread).table()
                },
                SimpleThreadFutureState::Waiting(id) => {
                    &&& final(thread).requests() == old(thread).requests()
                    &&& final(thread).request_ids_issued() == old(thread).request_ids_issued()
                    &&& final(thread).arrived() == Seq::<(Id, IoOutcome<H, M>)>::empty()
                    &&& final(thread).table() == old(thread).available().remove(id@)
                    &&& if old(thread).available().contains_key(id@) {
                        &&& r == Poll::Ready(old(thread).available()[id@])
                        &&& final(self).state is Done
                        &&& old(thread).available()[id@].kind() == old(self).check_outcome
                    } else {
                        &&& r is Pending
                        &&& final(self).state == old(self).state
                    }
                },
                SimpleThreadFutureState::Done => false,
            },
    {
        let mut state = SimpleThreadFutureState::Done;
        core::mem::swap(&mut state, &mut self.state);
        match state {
            SimpleThreadFutureState::NotYetStarted(request_options) => {
                let task_id = thread.send_request(request_options, waker).unwrap();
                self.state = SimpleThreadFutureState::Waiting(task_id);
                Poll::Pending
            },
            SimpleThreadFutureState::Waiting(task_id) => match thread.try_recv_result(task_id) {
                None => {
                    self.state = SimpleThreadFutureState::Waiting(task_id);
                    Poll::Pending
                },
                Some(res) => Poll::Ready(res),
            },
            SimpleThreadFutureState::Done => unreached(),
        }
    }
}

} // verus!
