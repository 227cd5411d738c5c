//! The peer outbound queue's write side.  Each accepted peer owns an
//! unbounded FIFO of outbound text frames; the registry holds only the
//! sender handle and treats every send as best-effort, matching the hub's
//! explicit no-delivery-guarantee policy.

use vstd::prelude::*;

verus! {

#[verifier::external_type_specification]
#[verifier::external_body]
#[verifier::reject_recursive_types(T)]
pub struct ExUnboundedSender<T>(futures_channel::mpsc::UnboundedSender<T>);

/// Relies on `futures_channel::mpsc::UnboundedSender::unbounded_send`: a
/// non-blocking enqueue of one outbound frame.  A send onto a closed queue
/// fails; the failure is deliberately dropped here, because delivery to a
/// disconnecting peer is best-effort.
#[verifier::external_body]
pub fn send_frame(tx: &futures_channel::mpsc::UnboundedSender<String>, frame: String) {
    let _ = tx.unbounded_send(frame);
}

/// Relies on `futures_channel::mpsc::UnboundedSender::same_receiver`: whether
/// the two handles feed the same peer queue.  Nothing is promised of the
/// result; callers state what holds either way.
#[verifier::external_body]
pub fn same_channel(
    a: &futures_channel::mpsc::UnboundedSender<String>,
    b: &futures_channel::mpsc::UnboundedSender<String>,
) -> bool {
    a.same_receiver(b)
}

/// Relies on `Clone for futures_channel::mpsc::UnboundedSender`: a clone of a
/// sender handle feeds the same peer queue.
pub assume_specification<T>[ <futures_channel::mpsc::UnboundedSender<T> as Clone>::clone ](
    tx: &futures_channel::mpsc::UnboundedSender<T>,
) -> futures_channel::mpsc::UnboundedSender<T>;

} // verus!
