//! The transactional bus capability: one primitive (execute a sequence of
//! operations as a single transaction) and the two derived operations built
//! on it.

use vstd::prelude::*;

use crate::operation::{views_of, Address, OpView, Operation};
use crate::source::ByteSource;

verus! {

/// One observable byte-level exchange with a device: either bytes transmitted
/// to it or bytes received from it. The contract of a transaction is stated
/// over the ordered log of these events.
#[verifier::ext_equal]
pub enum BusEvent {
    /// Bytes transmitted to the device at `address`.
    Write { address: Address, bytes: Seq<u8> },
    /// Bytes received from the device at `address`.
    Read { address: Address, bytes: Seq<u8> },
}

/// A step kept its kind, and a read step kept the length of its target.
pub open spec fn shape_kept(pre: OpView, post: OpView) -> bool {
    match (pre, post) {
        (OpView::Read(a), OpView::Read(b)) => a.len() == b.len(),
        (OpView::WriteIter(_), OpView::WriteIter(_)) => true,
        _ => false,
    }
}

/// Every step kept its kind and, for reads, its target length.
pub open spec fn same_shape(pre: Seq<OpView>, post: Seq<OpView>) -> bool {
    &&& pre.len() == post.len()
    &&& forall|i: int| 0 <= i < pre.len() ==> #[trigger] shape_kept(pre[i], post[i])
}

/// The event one completed step leaves in the log: a write step transmits the
/// bytes its source held before the step, a read step receives the bytes its
/// target holds after the step.
pub open spec fn event_of(address: Address, pre: OpView, post: OpView) -> BusEvent {
    match pre {
        OpView::WriteIter(bytes) => BusEvent::Write { address, bytes },
        OpView::Read(_) => BusEvent::Read { address, bytes: post.bytes() },
    }
}

/// The events a completed prefix of steps leaves in the log, in step order.
pub open spec fn events_of(address: Address, pre: Seq<OpView>, post: Seq<OpView>) -> Seq<BusEvent> {
    Seq::new(pre.len(), |i: int| event_of(address, pre[i], post[i]))
}

/// Every write step among the first `upto` has had its source fully produced.
pub open spec fn writes_drained(pre: Seq<OpView>, post: Seq<OpView>, upto: int) -> bool {
    forall|i: int|
        0 <= i < upto ==> ((#[trigger] pre[i]) is WriteIter ==> post[i] == OpView::WriteIter(
            Seq::<u8>::empty(),
        ))
}

/// A transaction that failed at step `k`: the `k` steps before it completed
/// and are the only new events in the log, and no step after `k` was touched.
pub open spec fn failed_at(
    pre_events: Seq<BusEvent>,
    post_events: Seq<BusEvent>,
    address: Address,
    pre_ops: Seq<OpView>,
    post_ops: Seq<OpView>,
    k: int,
) -> bool {
    &&& 0 <= k < pre_ops.len()
    &&& post_events == pre_events + events_of(address, pre_ops.take(k), post_ops.take(k))
    &&& writes_drained(pre_ops, post_ops, k)
    &&& forall|i: int| k < i < pre_ops.len() ==> #[trigger] post_ops[i] == pre_ops[i]
}

/// What one transaction guarantees, whatever performs it.
///
/// - The submitted steps keep their kinds and read-target lengths.
/// - An empty sequence of steps succeeds trivially.
/// - On success the bus saw exactly one event per step, in step order, all at
///   the one address of the transaction, and every write source was fully
///   produced.
/// - On failure there is a step `k` at which the transaction stopped: the
///   steps before it completed in order and are the only new events; the
///   steps after it were never executed and are returned untouched.
pub open spec fn transaction_ensures(
    pre_events: Seq<BusEvent>,
    post_events: Seq<BusEvent>,
    address: Address,
    pre_ops: Seq<OpView>,
    post_ops: Seq<OpView>,
    ok: bool,
) -> bool {
    &&& same_shape(pre_ops, post_ops)
    &&& (pre_ops.len() == 0 ==> ok)
    &&& (ok ==> post_events == pre_events + events_of(address, pre_ops, post_ops)
        && writes_drained(pre_ops, post_ops, pre_ops.len() as int))
    &&& (!ok ==> exists|k: int|
        failed_at(pre_events, post_events, address, pre_ops, post_ops, k))
}

/// A derived operation behaved exactly like one `transaction_iter` call on
/// the fixed operation sequence `pre_ops`: some final state of those steps
/// satisfies the transaction contract.
pub open spec fn derived_ensures(
    pre_events: Seq<BusEvent>,
    post_events: Seq<BusEvent>,
    address: Address,
    pre_ops: Seq<OpView>,
    ok: bool,
) -> bool {
    exists|post_ops: Seq<OpView>|
        #[trigger] transaction_ensures(pre_events, post_events, address, pre_ops, post_ops, ok)
}

/// The one-element operation sequence of a plain write.
pub fn write_ops<B: ByteSource>(bytes: B) -> (ops: Vec<Operation<B>>)
    ensures
        views_of(ops@) == seq![OpView::WriteIter(bytes.remaining())],
{
    let ghost src_bytes = bytes.remaining();
    let mut ops: Vec<Operation<B>> = Vec::new();
    ops.push(Operation::WriteIter(bytes));
    proof {
        assert(views_of(ops@) =~= seq![OpView::WriteIter(src_bytes)]);
    }
    ops
}

/// The two-element operation sequence of a write followed by a read.
pub fn write_read_ops<B: ByteSource>(bytes: B, buffer: Vec<u8>) -> (ops: Vec<Operation<B>>)
    ensures
        views_of(ops@) == seq![OpView::WriteIter(bytes.remaining()), OpView::Read(buffer@)],
{
    let ghost src_bytes = bytes.remaining();
    let ghost buf_bytes = buffer@;
    let mut ops: Vec<Operation<B>> = Vec::new();
    ops.push(Operation::WriteIter(bytes));
    ops.push(Operation::Read(buffer));
    proof {
        assert(views_of(ops@) =~= seq![OpView::WriteIter(src_bytes), OpView::Read(buf_bytes)]);
    }
    ops
}

/// A bus that can execute an ordered sequence of operations as one
/// transaction, under one continuous claim of the bus.
///
/// Implementors provide `transaction_iter`; the derived operations `write_iter`
/// and `write_iter_read` come for free and are nothing but one call of the
/// primitive on a fixed operation sequence.
pub trait I2cIter: Sized {
    /// Bus-level failure, defined by the underlying transfer capability and
    /// propagated unchanged by this layer.
    type Error;

    /// The log of byte-level exchanges this bus has performed so far.
    spec fn events(&self) -> Seq<BusEvent>;

    /// Execute the provided operations on the bus, in order, as a single
    /// transaction against the device at `address`.
    ///
    /// Read targets are filled in place; write sources are consumed in place.
    fn transaction_iter<B: ByteSource>(
        &mut self,
        address: Address,
        operations: &mut Vec<Operation<B>>,
    ) -> (r: Result<(), Self::Error>)
        ensures
            transaction_ensures(
                old(self).events(),
                final(self).events(),
                address,
                views_of(old(operations)@),
                views_of(final(operations)@),
                r is Ok,
            ),
    ;

    /// Write the bytes the source produces to the device at `address`, as one
    /// transaction.
    ///
    /// Observably equivalent to `transaction_iter` on the one-element sequence
    /// holding that write step, which is exactly what the body does.
    fn write_iter<B: ByteSource>(&mut self, address: Address, bytes: B) -> (r: Result<
        (),
        Self::Error,
    >)
        ensures
            derived_ensures(
                old(self).events(),
                final(self).events(),
                address,
                seq![OpView::WriteIter(bytes.remaining())],
                r is Ok,
            ),
            r is Ok ==> final(self).events() == old(self).events() + seq![
                BusEvent::Write { address, bytes: bytes.remaining() },
            ],
            r is Err ==> final(self).events() == old(self).events(),
    {
        let ghost src_bytes = bytes.remaining();
        let mut ops = write_ops(bytes);
        let r = self.transaction_iter(address, &mut ops);
        proof {
            let pre_ops = seq![OpView::WriteIter(src_bytes)];
            let post_ops = views_of(ops@);
            assert(transaction_ensures(
                old(self).events(),
                self.events(),
                address,
                pre_ops,
                post_ops,
                r is Ok,
            ));
            if r is Ok {
                assert(events_of(address, pre_ops, post_ops) =~= seq![
                    BusEvent::Write { address, bytes: src_bytes },
                ]);
            } else {
                let k = choose|k: int|
                    failed_at(old(self).events(), self.events(), address, pre_ops, post_ops, k);
                assert(k == 0);
                assert(events_of(address, pre_ops.take(0), post_ops.take(0)) =~= Seq::<
                    BusEvent,
                >::empty());
                assert(self.events() =~= old(self).events());
            }
        }
        r
    }

    /// Write the bytes the source produces to the device at `address`, then
    /// read exactly `buffer.len()` bytes from it into `buffer`, in a single
    /// transaction: the bus is not released between the two steps.
    ///
    /// Observably equivalent to `transaction_iter` on the two-element sequence
    /// holding the write step and the read step, which is exactly what the
    /// body does.
    fn write_iter_read<B: ByteSource>(
        &mut self,
        address: Address,
        bytes: B,
        buffer: &mut Vec<u8>,
    ) -> (r: Result<(), Self::Error>)
        ensures
            final(buffer)@.len() == old(buffer)@.len(),
            derived_ensures(
                old(self).events(),
                final(self).events(),
                address,
                seq![OpView::WriteIter(bytes.remaining()), OpView::Read(old(buffer)@)],
                r is Ok,
            ),
            r is Ok ==> final(self).events() == old(self).events() + seq![
                BusEvent::Write { address, bytes: bytes.remaining() },
                BusEvent::Read { address, bytes: final(buffer)@ },
            ],
            r is Err ==> (final(self).events() == old(self).events() && final(buffer)@ == old(
                buffer,
            )@) || final(self).events() == old(self).events() + seq![
                BusEvent::Write { address, bytes: bytes.remaining() },
            ],
    {
        let ghost src_bytes = bytes.remaining();
        let mut buf: Vec<u8> = Vec::new();
        core::mem::swap(&mut buf, buffer);
        let mut ops = write_read_ops(bytes, buf);
        let ghost pre_ops = views_of(ops@);
        let r = self.transaction_iter(address, &mut ops);
        let ghost post_ops = views_of(ops@);
        proof {
            assert(pre_ops =~= seq![OpView::WriteIter(src_bytes), OpView::Read(old(buffer)@)]);
            assert(transaction_ensures(
                old(self).events(),
                self.events(),
                address,
                pre_ops,
                post_ops,
                r is Ok,
            ));
            assert(shape_kept(pre_ops[1], post_ops[1]));
            assert(post_ops[1] is Read);
            assert(ops@[1]@ == post_ops[1]);
        }
        // take the read target back out of the completed transaction
        let last = ops.pop();
        match last {
            Some(Operation::Read(data)) => {
                *buffer = data;
            },
            _ => {
                proof {
                    assert(false);
                }
            },
        }
        proof {
            assert(buffer@ == post_ops[1].bytes());
            if r is Ok {
                assert(events_of(address, pre_ops, post_ops) =~= seq![
                    BusEvent::Write { address, bytes: src_bytes },
                    BusEvent::Read { address, bytes: buffer@ },
                ]);
            } else {
                let k = choose|k: int|
                    failed_at(old(self).events(), self.events(), address, pre_ops, post_ops, k);
                assert(0 <= k < 2);
                if k == 0 {
                    assert(events_of(address, pre_ops.take(0), post_ops.take(0)) =~= Seq::<
                        BusEvent,
                    >::empty());
                    assert(self.events() =~= old(self).events());
                    assert(post_ops[1] == pre_ops[1]);
                } else {
                    assert(events_of(address, pre_ops.take(1), post_ops.take(1)) =~= seq![
                        BusEvent::Write { address, bytes: src_bytes },
                    ]);
                }
            }
        }
        r
    }
}

/// Sequencing of a successful transaction: for the three steps
/// [write `b1`, read into a target of length `r1.len()`, write `b2`] the bus
/// saw exactly the write of `b1`, then the completed read, then the write of
/// `b2`, in that order — the third step cannot have begun before the second
/// had fully completed.
pub proof fn lemma_step_ordering(
    pre_events: Seq<BusEvent>,
    post_events: Seq<BusEvent>,
    address: Address,
    b1: Seq<u8>,
    r1: Seq<u8>,
    b2: Seq<u8>,
    post_ops: Seq<OpView>,
)
    requires
        transaction_ensures(
            pre_events,
            post_events,
            address,
            seq![OpView::WriteIter(b1), OpView::Read(r1), OpView::WriteIter(b2)],
            post_ops,
            true,
        ),
    ensures
        post_events.len() == pre_events.len() + 3,
        post_events[pre_events.len() as int] == (BusEvent::Write { address, bytes: b1 }),
        post_events[pre_events.len() as int + 1] matches BusEvent::Read { address: a, bytes }
            && a == address && bytes.len() == r1.len(),
        post_events[pre_events.len() as int + 2] == (BusEvent::Write { address, bytes: b2 }),
{
    let pre_ops = seq![OpView::WriteIter(b1), OpView::Read(r1), OpView::WriteIter(b2)];
    assert(shape_kept(pre_ops[1], post_ops[1]));
    let evs = events_of(address, pre_ops, post_ops);
    assert(post_events[pre_events.len() as int] == evs[0]);
    assert(post_events[pre_events.len() as int + 1] == evs[1]);
    assert(post_events[pre_events.len() as int + 2] == evs[2]);
}

} // verus!
