//! Wake handles.

use crate::id::Id;
use std::sync::mpsc::SendError;
use std::sync::mpsc::Sender;
use std::task::Poll;
use std::task::Waker;
use vstd::prelude::*;

verus! {

/// `std::task::Waker`: an erased handle whose invocation schedules a task for
/// re-polling. Nothing of its contents is visible here, and the library only
/// carries handles: invoking one runs code of whoever built it, which is left
/// to the caller.
#[verifier::external_type_specification]
#[verifier::external_body]
pub struct ExWaker(Waker);

/// `std::task::Poll`: the two answers of a poll.
#[verifier::external_type_specification]
#[verifier::reject_recursive_types(T)]
pub struct ExPoll<T>(Poll<T>);

/// `std::sync::mpsc::Sender`: the sending end of a channel.
#[verifier::external_type_specification]
#[verifier::external_body]
#[verifier::reject_recursive_types(T)]
pub struct ExSender<T>(Sender<T>);

/// `std::sync::mpsc::SendError`: the value that could not be sent.
#[verifier::external_type_specification]
#[verifier::external_body]
#[verifier::reject_recursive_types(T)]
pub struct ExSendError<T>(SendError<T>);

/// `Sender::send` hands a value to the channel; it fails only when the
/// receiving end is gone, which depends on the other thread.
pub assume_specification<T>[ Sender::<T>::send ](sender: &Sender<T>, t: T) -> (r: Result<
    (),
    SendError<T>,
>);

/// `Sender::clone` returns a second sending end of the same channel.
pub assume_specification<T>[ <Sender<T> as Clone>::clone ](sender: &Sender<T>) -> (r: Sender<T>);

/// The record behind a wake handle: which task to re-poll, and the channel on
/// which its runner listens for wake signals.
pub struct WakerData {
    tasks_sender: Sender<Id>,
    id: Id,
}

impl WakerData {
    /// The task that this record wakes.
    pub closed spec fn task(&self) -> Id {
        self.id
    }

    /// The sending end on which this record signals.
    pub closed spec fn sender(&self) -> Sender<Id> {
        self.tasks_sender
    }

    pub fn new(tasks_sender: Sender<Id>, id: Id) -> (r: Self)
        ensures
            r.task() == id,
            r.sender() == tasks_sender,
    {
        WakerData { tasks_sender, id }
    }

    /// The task that this record wakes.
    pub fn id(&self) -> (r: Id)
        ensures
            r == self.task(),
    {
        self.id
    }

    /// A second record for the same task, with a lifetime of its own. Its
    /// sending end is a clone of this record's, of which nothing more is
    /// known here than that it is a sending end.
    pub fn duplicate(&self) -> (r: Self)
        ensures
            r.task() == self.task(),
    {
        WakerData { tasks_sender: self.tasks_sender.clone(), id: self.id }
    }

    /// Signals the task and gives the record up. Returns whether the runner
    /// was still listening.
    pub fn wake(self) -> (delivered: bool) {
        Self::delivered(self.tasks_sender.send(self.id()))
    }

    /// Signals the task and keeps the record. Returns whether the runner was
    /// still listening.
    pub fn wake_by_ref(&self) -> (delivered: bool) {
        Self::delivered(self.tasks_sender.send(self.id()))
    }

    /// What a wake reports of its send: the signal was delivered exactly if
    /// the send succeeded, which it does as long as the runner listens.
    pub fn delivered(sent: Result<(), SendError<Id>>) -> (r: bool)
        ensures
            r == (sent is Ok),
    {
        sent.is_ok()
    }
}

} // verus!
