//! One-shot channels of the `futures` crate, used for readiness
//! notification and for cancellation signals.

use vstd::prelude::*;

verus! {

#[verifier::external_type_specification]
#[verifier::external_body]
#[verifier::reject_recursive_types(T)]
pub struct ExOneshotSender<T>(futures::unsync::oneshot::Sender<T>);

#[verifier::external_type_specification]
#[verifier::external_body]
#[verifier::reject_recursive_types(T)]
pub struct ExOneshotReceiver<T>(futures::unsync::oneshot::Receiver<T>);

/// Relies on `futures::unsync::oneshot::channel`, which creates a connected
/// sender/receiver pair; nothing about the pair is observable here.
pub assume_specification<T>[ futures::unsync::oneshot::channel::<T> ]() -> (
    futures::unsync::oneshot::Sender<T>,
    futures::unsync::oneshot::Receiver<T>,
);

/// Relies on `futures::unsync::oneshot::Sender::send`, which hands the value
/// to the receiver, or back as an error when the receiver is gone.
pub assume_specification<T>[ futures::unsync::oneshot::Sender::<T>::send ](
    s: futures::unsync::oneshot::Sender<T>,
    t: T,
) -> Result<(), T>;

} // verus!
