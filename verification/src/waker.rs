//! The task waker as the library sees it: an opaque value it stores, copies,
//! compares and wakes through the standard library.

use core::task::Waker;
use vstd::prelude::*;

verus! {

#[verifier::external_type_specification]
#[verifier::external_body]
pub struct ExWaker(Waker);

/// Calls `Waker::will_wake`: whether two wakers would wake the same task.
/// The answer compares the wakers' internal addresses, so nothing is claimed
/// about it.
#[verifier::external_body]
pub(crate) fn waker_will_wake(a: &Waker, b: &Waker) -> (r: bool) {
    a.will_wake(b)
}

/// Calls `<Waker as Clone>::clone`. Nothing is claimed about the copy beyond
/// its type: its internal data is the waker implementation's own.
#[verifier::external_body]
pub(crate) fn waker_clone(w: &Waker) -> (r: Waker) {
    w.clone()
}

/// Calls `Waker::wake`, consuming the waker; it returns nothing.
#[verifier::external_body]
pub(crate) fn waker_wake(w: Waker) {
    w.wake()
}

/// Calls `Waker::wake_by_ref`: wakes the task without consuming the waker;
/// it returns nothing.
#[verifier::external_body]
pub(crate) fn waker_wake_by_ref(w: &Waker) {
    w.wake_by_ref()
}

} // verus!
