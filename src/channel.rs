use vstd::prelude::*;

verus! {

/// Capacity of the bounded channels this crate creates: small and fixed,
/// whatever the payload size, so that a fast producer waits for its consumer.
pub const CHANNELS: usize = 5;

#[verifier::external_type_specification]
#[verifier::external_body]
#[verifier::reject_recursive_types(T)]
pub struct ExSender<T>(futures::channel::mpsc::Sender<T>);

#[verifier::external_type_specification]
#[verifier::external_body]
#[verifier::reject_recursive_types(T)]
pub struct ExReceiver<T>(futures::channel::mpsc::Receiver<T>);

/// Relies on `futures::channel::mpsc::channel`, which panics unless the
/// requested buffer is below a quarter of the address space.
pub assume_specification<T>[ futures::channel::mpsc::channel::<T> ](buffer: usize) -> (
    futures::channel::mpsc::Sender<T>,
    futures::channel::mpsc::Receiver<T>,
)
    requires
        buffer < usize::MAX / 4,
;

} // verus!
