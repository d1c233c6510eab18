//! The bounded channels of `futures` that carry events to interceptors and
//! registration requests to the registry.
use futures::channel::mpsc::{Receiver, Sender};
use std::sync::Arc;
use vstd::prelude::*;

use crate::interceptors::Delivery;

verus! {

/// The sending end of a `futures` bounded channel, carried through opaque.
#[verifier::external_type_specification]
#[verifier::external_body]
#[verifier::reject_recursive_types(T)]
pub struct ExSender<T>(Sender<T>);

/// The receiving end of a `futures` bounded channel, carried through opaque.
#[verifier::external_type_specification]
#[verifier::external_body]
#[verifier::reject_recursive_types(T)]
pub struct ExReceiver<T>(Receiver<T>);

/// Relies on `futures::channel::mpsc::channel`, which panics on a buffer of
/// `MAX_BUFFER` (a quarter of the address space) or more.
#[verifier::external_body]
pub(crate) fn bounded<T>(buffer: usize) -> (Sender<T>, Receiver<T>)
    requires
        buffer < 0x3fff_ffff,
{
    futures::channel::mpsc::channel(buffer)
}

/// Relies on `Sender::try_send`, which never blocks: the message is queued,
/// or refused because the buffer is full or the receiver is gone.
#[verifier::external_body]
pub(crate) fn try_send<T>(tx: &mut Sender<T>, msg: T) -> (r: Delivery)
    ensures
        r is Delivered || r is Full || r is Closed,
{
    match tx.try_send(msg) {
        Ok(()) => Delivery::Delivered,
        Err(e) if e.is_full() => Delivery::Full,
        Err(_) => Delivery::Closed,
    }
}

/// Relies on `Sender::is_closed`: whether the receiving end has gone away.
#[verifier::external_body]
pub(crate) fn is_closed<T>(tx: &Sender<T>) -> bool {
    tx.is_closed()
}

/// Relies on `Arc::clone`: a new pointer to the same allocation.
#[verifier::external_body]
pub(crate) fn share<T>(a: &Arc<T>) -> (r: Arc<T>)
    ensures
        r == *a,
{
    Arc::clone(a)
}

} // verus!
