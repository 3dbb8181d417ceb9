use vstd::prelude::*;

verus! {

/// Receiving end of a crossbeam channel, declared so pending operations can
/// hold one. Opaque: nothing is assumed about the values it carries.
#[verifier::external_type_specification]
#[verifier::external_body]
#[verifier::reject_recursive_types(T)]
pub struct ExReceiver<T>(crossbeam::channel::Receiver<T>);

/// One in-flight asynchronous unit of work: the receiving end of the
/// single-slot channel its background worker will answer on. Single-use: the
/// holder discards it once a poll yields the result.
#[verifier::reject_recursive_types(T)]
pub struct Pending<T> {
    rx: crossbeam::channel::Receiver<T>,
}

impl<T> Pending<T> {
    /// Wraps the receiving end of the channel a background worker answers on.
    pub fn new(rx: crossbeam::channel::Receiver<T>) -> Pending<T> {
        Pending { rx }
    }

    /// Relies on crossbeam's `Receiver::try_recv`: a non-blocking check that
    /// yields a value the worker sent, or nothing when none is ready (or the
    /// worker is gone). Never blocks or sleeps; no promise is made about
    /// which outcome occurs or what value arrives.
    #[verifier::external_body]
    pub(crate) fn poll(&self) -> Option<T> {
        self.rx.try_recv().ok()
    }
}

} // verus!
