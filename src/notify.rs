//! The completion signal of a relayed body: a single-use sender that fires
//! when the body it travels with is dropped.

use tokio::sync::oneshot::{Receiver, Sender};
use vstd::prelude::*;

verus! {

#[verifier::external_type_specification]
#[verifier::external_body]
#[verifier::reject_recursive_types(T)]
pub struct ExOneshotSender<T>(Sender<T>);

#[verifier::external_type_specification]
#[verifier::external_body]
#[verifier::reject_recursive_types(T)]
pub struct ExOneshotReceiver<T>(Receiver<T>);

// The error that awaiting a receiver yields when its sender is gone.
#[verifier::external_type_specification]
#[verifier::external_body]
pub struct ExRecvError(tokio::sync::oneshot::error::RecvError);

/// Relies on `tokio::sync::oneshot::Sender::send`, which hands the value back
/// when the receiving half is gone.
pub assume_specification<T>[ Sender::<T>::send ](s: Sender<T>, t: T) -> (r: Result<(), T>)
    ensures
        r matches Err(v) ==> v == t,
;

/// Relies on `tokio::sync::oneshot::channel`: a fresh sender and receiver pair.
#[verifier::external_body]
fn oneshot_pair() -> (Sender<()>, Receiver<()>) {
    tokio::sync::oneshot::channel()
}

/// The producing half of a completion signal. It fires at most once, on the
/// first call of `fire`; its owner calls that when the body it travels with is
/// dropped.
pub struct DropSender {
    sender: Option<Sender<()>>,
}

impl DropSender {
    /// Whether the signal has yet to fire.
    pub closed spec fn is_armed(&self) -> bool {
        self.sender is Some
    }

    /// A signal that fires into `sender`.
    pub fn new(sender: Sender<()>) -> (d: Self)
        ensures
            d.is_armed(),
    {
        DropSender { sender: Some(sender) }
    }

    /// Fires the signal if it has not fired yet; says whether it fired now.
    pub fn fire(&mut self) -> (fired: bool)
        ensures
            fired == old(self).is_armed(),
            !final(self).is_armed(),
    {
        match self.sender.take() {
            Some(sender) => {
                let _ = sender.send(());
                true
            },
            None => false,
        }
    }
}

/// A completion signal: the armed half, to travel with a body, and the half
/// that the sending handler awaits.
pub fn completion_pair() -> (r: (DropSender, Receiver<()>))
    ensures
        r.0.is_armed(),
{
    let (sender, finished) = oneshot_pair();
    (DropSender::new(sender), finished)
}

} // verus!
