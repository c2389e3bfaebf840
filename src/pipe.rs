//! One named pipe: a channel with room for a single pending body, whose two
//! endpoints are shared by the handlers working on that name.

use std::sync::Arc;
use tokio::sync::mpsc::{Receiver, Sender};
use tokio::sync::Mutex;
use vstd::prelude::*;

verus! {

#[verifier::external_type_specification]
#[verifier::external_body]
#[verifier::reject_recursive_types(T)]
pub struct ExSender<T>(Sender<T>);

#[verifier::external_type_specification]
#[verifier::external_body]
#[verifier::reject_recursive_types(T)]
pub struct ExReceiver<T>(Receiver<T>);

#[verifier::external_type_specification]
#[verifier::external_body]
#[verifier::reject_recursive_types(T)]
pub struct ExMutex<T: ?Sized>(Mutex<T>);

/// A capacity that a bounded channel accepts on every target: its limit is an
/// eighth of the address space.
pub const MAX_CHANNEL_CAPACITY: usize = 0x1fff_ffff;

/// How many items a pipe holds before a send waits: one pending body.
pub const PIPE_CAPACITY: usize = 1;

/// Relies on `tokio::sync::mpsc::channel`, which makes a bounded channel and
/// panics on a capacity of zero or above its permit limit.
#[verifier::external_body]
fn bounded_channel<T>(capacity: usize) -> (Sender<T>, Receiver<T>)
    requires
        0 < capacity <= MAX_CHANNEL_CAPACITY,
{
    tokio::sync::mpsc::channel(capacity)
}

/// Relies on `tokio::sync::Mutex::new`, to put the receive end behind a lock.
#[verifier::external_body]
fn new_lock<T>(t: T) -> Mutex<T> {
    Mutex::new(t)
}

/// Both ends of one pipe. The send end takes one body at a time; the receive
/// end sits behind a lock so that a single reader drains it at a time.
#[verifier::reject_recursive_types(T)]
pub struct Pipe<T> {
    pub sender: Arc<Sender<T>>,
    pub receiver: Arc<Mutex<Receiver<T>>>,
}

/// Relies on `Arc::clone`: one more handle to the same shared value.
#[verifier::external_body]
fn share_arc<U>(a: &Arc<U>) -> (r: Arc<U>)
    ensures
        r == *a,
{
    Arc::clone(a)
}

/// Relies on `Arc::strong_count`: how many handles to the shared value exist
/// at the moment of the call. Other tasks change it at any time.
#[verifier::external_body]
pub(crate) fn handle_count<U>(a: &Arc<U>) -> usize {
    Arc::strong_count(a)
}

/// Whether a handler still holds either endpoint of a pipe, given how many
/// handles to each exist: the registry's own pair accounts for one of each.
pub fn is_held(sender_handles: usize, receiver_handles: usize) -> (r: bool)
    ensures
        r == (sender_handles > 1 || receiver_handles > 1),
{
    sender_handles > 1 || receiver_handles > 1
}

impl<T> Pipe<T> {
    /// A fresh pipe over a channel of capacity one.
    pub fn new() -> (p: Self) {
        let (sender, receiver) = bounded_channel(PIPE_CAPACITY);
        Pipe { sender: Arc::new(sender), receiver: Arc::new(new_lock(receiver)) }
    }

    /// Another pair of handles to the same two endpoints.
    pub fn share(&self) -> (r: Self)
        ensures
            r == *self,
    {
        Pipe { sender: share_arc(&self.sender), receiver: share_arc(&self.receiver) }
    }

}

} // verus!
