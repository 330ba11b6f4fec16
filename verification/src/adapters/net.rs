//! Sockets that do not block: an operation that cannot go on at once asks to
//! be polled again right away.

use crate::adapters::error::class_of;
use crate::adapters::error::error_class;
use crate::adapters::error::ErrorClass;
use crate::adapters::io_worker::append_prefix;
use std::task::Poll;
use vstd::prelude::*;

verus! {

/// What an attempt on a socket that does not block came to.
pub enum Attempt<T> {
    /// The operation went through.
    Done(T),
    /// The operation would have had to wait.
    WouldBlock,
    /// The operation failed.
    Failed(std::io::Error),
}

impl<T> Attempt<T> {
    /// Tells an attempt that would have had to wait from one that failed:
    /// an error of the kind "would block" is no failure.
    pub fn classify(result: Result<T, std::io::Error>) -> (r: Attempt<T>)
        ensures
            r == (match result {
                Ok(value) => Attempt::Done(value),
                Err(e) => if error_class(e) == ErrorClass::WouldBlock {
                    Attempt::<T>::WouldBlock
                } else {
                    Attempt::<T>::Failed(e)
                },
            }),
    {
        match result {
            Ok(value) => Attempt::Done(value),
            Err(e) => {
                if class_of(&e) == ErrorClass::WouldBlock {
                    Attempt::WouldBlock
                } else {
                    Attempt::Failed(e)
                }
            },
        }
    }

    /// The answer of a poll that made this attempt, and whether the caller
    /// has to invoke the task's handle before it gives the answer. An
    /// attempt that would have had to wait answers "pending" and asks for
    /// the handle to be invoked, so that the task is polled again without any
    /// other event.
    pub fn poll(self) -> (r: (Poll<Result<T, std::io::Error>>, bool))
        ensures
            r == (match self {
                Attempt::Done(value) => (Poll::Ready(Ok::<T, std::io::Error>(value)), false),
                Attempt::WouldBlock => (Poll::Pending, true),
                Attempt::Failed(e) => (Poll::Ready(Err::<T, std::io::Error>(e)), false),
            }),
    {
        match self {
            Attempt::Done(value) => (Poll::Ready(Ok(value)), false),
            Attempt::WouldBlock => (Poll::Pending, true),
            Attempt::Failed(e) => (Poll::Ready(Err(e)), false),
        }
    }
}

/// What was read from a stream so far, while it is read to its end.
pub struct Drain {
    output: Vec<u8>,
}

impl Drain {
    /// The bytes that were read so far.
    pub closed spec fn bytes(&self) -> Seq<u8> {
        self.output@
    }

    /// Nothing was read yet.
    pub fn new() -> (r: Self)
        ensures
            r.bytes() == Seq::<u8>::empty(),
    {
        Drain { output: Vec::new() }
    }

    /// Takes the result of one read into `chunk`. A read of no byte is the
    /// end of the stream, and a failed read ends the reading too: `true` is
    /// returned. Otherwise the bytes of the read are appended, and `false`
    /// is returned.
    pub fn absorb(&mut self, chunk: &Vec<u8>, n: usize) -> (ended: bool)
        requires
            n <= chunk.len(),
        ensures
            ended == (n == 0),
            final(self).bytes() == old(self).bytes() + chunk@.subrange(0, n as int),
    {
        append_prefix(&mut self.output, chunk, n);
        n == 0
    }

    /// The bytes that were read.
    pub fn finish(self) -> (r: Vec<u8>)
        ensures
            r@ == self.bytes(),
    {
        self.output
    }
}

} // verus!
