//! The scripted device model: per-step replies, and the exact semantics of
//! running a transaction against a script of them.
//!
//! Both scheduling flavors of the scripted bus — the blocking executor and
//! the suspension-point state machine — are specified against the one
//! function [`run`], so they cannot diverge in outcome, step order or
//! failure scoping.

use vstd::prelude::*;

use crate::bus::{
    event_of, events_of, failed_at, same_shape, shape_kept, transaction_ensures, writes_drained,
    BusEvent,
};
use crate::operation::{Address, OpView};

verus! {

/// A bus-level failure as the scripted transfer capability reports it.
#[derive(Debug, Clone, Copy, PartialEq, Eq, Structural)]
pub enum BusFault {
    /// The device did not acknowledge.
    NoAcknowledge,
    /// Bus arbitration was lost to another controller.
    ArbitrationLoss,
    /// The device was not prepared for the exchange it was asked to perform.
    Unexpected,
}

/// What the device does in answer to one step of a transaction.
#[derive(Debug, Clone, PartialEq, Eq)]
pub enum Reply {
    /// Acknowledge a write step, accepting every byte it transmits.
    AckWrite,
    /// Refuse a write step with the given fault.
    FailWrite(BusFault),
    /// Answer a read step with exactly these bytes.
    GiveRead(Vec<u8>),
    /// Refuse a read step with the given fault.
    FailRead(BusFault),
}

/// The view of a [`Reply`].
#[verifier::ext_equal]
pub enum ReplyView {
    /// Acknowledge a write step.
    AckWrite,
    /// Refuse a write step.
    FailWrite(BusFault),
    /// Answer a read step with these bytes.
    GiveRead(Seq<u8>),
    /// Refuse a read step.
    FailRead(BusFault),
}

impl View for Reply {
    type V = ReplyView;

    open spec fn view(&self) -> ReplyView {
        match self {
            Reply::AckWrite => ReplyView::AckWrite,
            Reply::FailWrite(f) => ReplyView::FailWrite(*f),
            Reply::GiveRead(d) => ReplyView::GiveRead(d@),
            Reply::FailRead(f) => ReplyView::FailRead(*f),
        }
    }
}

/// The views of a sequence of replies, in order.
pub open spec fn reply_views(replies: Seq<Reply>) -> Seq<ReplyView> {
    replies.map_values(|r: Reply| r@)
}

/// The outcome of one step: the step's result, the new state of its
/// operation, and the events it put on the bus.
#[verifier::ext_equal]
pub struct StepOutcome {
    /// Success, or the fault that ended the transaction here.
    pub result: Result<(), BusFault>,
    /// The operation after the step: source drained, or target filled.
    pub op: OpView,
    /// The events the step put on the bus (none if it failed).
    pub events: Seq<BusEvent>,
}

/// What one step does, given the device's reply to it. `None` means the
/// device never answered the step at all; a reply of the wrong kind, a read
/// answer of the wrong length (a partial read is not a success) and a missing
/// reply all fail the step with [`BusFault::Unexpected`]. A failed step puts
/// no event on the bus and leaves its operation untouched.
pub open spec fn step(address: Address, op: OpView, reply: Option<ReplyView>) -> StepOutcome {
    match reply {
        None => StepOutcome { result: Err(BusFault::Unexpected), op, events: seq![] },
        Some(r) => match (op, r) {
            (OpView::WriteIter(bytes), ReplyView::AckWrite) => StepOutcome {
                result: Ok(()),
                op: OpView::WriteIter(Seq::empty()),
                events: seq![BusEvent::Write { address, bytes }],
            },
            (OpView::WriteIter(_), ReplyView::FailWrite(f)) => StepOutcome {
                result: Err(f),
                op,
                events: seq![],
            },
            (OpView::Read(buf), ReplyView::GiveRead(data)) => if data.len() == buf.len() {
                StepOutcome {
                    result: Ok(()),
                    op: OpView::Read(data),
                    events: seq![BusEvent::Read { address, bytes: data }],
                }
            } else {
                StepOutcome { result: Err(BusFault::Unexpected), op, events: seq![] }
            },
            (OpView::Read(_), ReplyView::FailRead(f)) => StepOutcome {
                result: Err(f),
                op,
                events: seq![],
            },
            _ => StepOutcome { result: Err(BusFault::Unexpected), op, events: seq![] },
        },
    }
}

/// The outcome of a whole transaction run against a script of replies.
#[verifier::ext_equal]
pub struct RunOutcome {
    /// Success, or the first failing step's fault, propagated unchanged.
    pub result: Result<(), BusFault>,
    /// All operations after the run, in order: completed steps drained or
    /// filled, the steps from the failing one on untouched.
    pub ops: Seq<OpView>,
    /// The events the run put on the bus, in step order.
    pub events: Seq<BusEvent>,
    /// How many replies the run consumed: one per step it attempted.
    pub used: nat,
}

/// The exact semantics of a transaction against a scripted device: steps
/// execute strictly in order, each consuming the next reply of the script;
/// the first failing step ends the whole transaction at once, and the steps
/// after it are never attempted.
pub open spec fn run(address: Address, ops: Seq<OpView>, replies: Seq<ReplyView>) -> RunOutcome
    decreases ops.len(),
{
    if ops.len() == 0 {
        RunOutcome { result: Ok(()), ops: seq![], events: seq![], used: 0 }
    } else {
        let first = step(
            address,
            ops[0],
            if replies.len() > 0 {
                Some(replies[0])
            } else {
                None
            },
        );
        if first.result is Err {
            RunOutcome {
                result: first.result,
                ops: seq![first.op] + ops.skip(1),
                events: first.events,
                used: if replies.len() > 0 {
                    1
                } else {
                    0
                },
            }
        } else {
            let rest = run(address, ops.skip(1), replies.skip(1));
            RunOutcome {
                result: rest.result,
                ops: seq![first.op] + rest.ops,
                events: first.events + rest.events,
                used: 1 + rest.used,
            }
        }
    }
}

/// Appending to the same prefix is injective.
proof fn lemma_append_cancel<T>(a: Seq<T>, x: Seq<T>, y: Seq<T>)
    requires
        a + x == a + y,
    ensures
        x == y,
{
    assert((a + x).len() == a.len() + x.len());
    assert((a + y).len() == a.len() + y.len());
    assert(x.len() == y.len());
    assert forall|i: int| 0 <= i < x.len() implies x[i] == y[i] by {
        assert((a + x)[a.len() + i] == x[i]);
        assert((a + y)[a.len() + i] == y[i]);
    }
    assert(x =~= y);
}

/// Whatever the script answers, the outcome of [`run`] satisfies the
/// transaction contract: this is what makes the scripted bus a lawful
/// implementor of the transactional capability.
pub proof fn lemma_run_meets_contract(
    address: Address,
    ops: Seq<OpView>,
    replies: Seq<ReplyView>,
    pre_events: Seq<BusEvent>,
)
    ensures
        ({
            let o = run(address, ops, replies);
            transaction_ensures(pre_events, pre_events + o.events, address, ops, o.ops, o.result is Ok)
        }),
    decreases ops.len(),
{
    let o = run(address, ops, replies);
    if ops.len() == 0 {
        assert(same_shape(ops, o.ops));
        assert(pre_events + o.events =~= pre_events + events_of(address, ops, o.ops));
    } else {
        let reply0 = if replies.len() > 0 {
            Some(replies[0])
        } else {
            None
        };
        let s = step(address, ops[0], reply0);
        assert(shape_kept(ops[0], s.op));
        if s.result is Err {
            assert(o.ops == seq![s.op] + ops.skip(1));
            assert forall|i: int| 0 < i < ops.len() implies #[trigger] o.ops[i] == ops[i] by {
                assert(o.ops[i] == ops.skip(1)[i - 1]);
            }
            assert forall|i: int| 0 <= i < ops.len() implies #[trigger] shape_kept(
                ops[i],
                o.ops[i],
            ) by {
                if i > 0 {
                    assert(o.ops[i] == ops[i]);
                }
            }
            assert(events_of(address, ops.take(0), o.ops.take(0)) =~= Seq::<BusEvent>::empty());
            assert(pre_events + o.events =~= pre_events + events_of(
                address,
                ops.take(0),
                o.ops.take(0),
            ));
            assert(failed_at(pre_events, pre_events + o.events, address, ops, o.ops, 0));
        } else {
            let rest = run(address, ops.skip(1), replies.skip(1));
            lemma_run_meets_contract(address, ops.skip(1), replies.skip(1), pre_events + s.events);
            assert(o.ops == seq![s.op] + rest.ops);
            assert(o.events == s.events + rest.events);
            assert(same_shape(ops.skip(1), rest.ops));
            assert(s.events =~= seq![event_of(address, ops[0], s.op)]);
            assert forall|i: int| 0 <= i < ops.len() implies #[trigger] shape_kept(
                ops[i],
                o.ops[i],
            ) by {
                if i > 0 {
                    assert(o.ops[i] == rest.ops[i - 1]);
                    assert(ops.skip(1)[i - 1] == ops[i]);
                    assert(shape_kept(ops.skip(1)[i - 1], rest.ops[i - 1]));
                }
            }
            if rest.result is Ok {
                lemma_append_cancel(
                    pre_events + s.events,
                    rest.events,
                    events_of(address, ops.skip(1), rest.ops),
                );
                assert(events_of(address, ops, o.ops) =~= s.events + events_of(
                    address,
                    ops.skip(1),
                    rest.ops,
                )) by {
                    assert forall|i: int| 0 < i < ops.len() implies events_of(
                        address,
                        ops,
                        o.ops,
                    )[i] == events_of(address, ops.skip(1), rest.ops)[i - 1] by {
                        assert(ops.skip(1)[i - 1] == ops[i]);
                        assert(o.ops[i] == rest.ops[i - 1]);
                    }
                }
                assert(pre_events + o.events =~= pre_events + events_of(address, ops, o.ops));
                assert(writes_drained(ops.skip(1), rest.ops, ops.len() - 1));
                assert forall|i: int|
                    0 <= i < ops.len() && (#[trigger] ops[i]) is WriteIter implies o.ops[i]
                    == OpView::WriteIter(Seq::<u8>::empty()) by {
                    if i > 0 {
                        assert(ops.skip(1)[i - 1] == ops[i]);
                        assert(o.ops[i] == rest.ops[i - 1]);
                    }
                }
            } else {
                let pre2 = pre_events + s.events;
                let k = choose|k: int|
                    failed_at(pre2, pre2 + rest.events, address, ops.skip(1), rest.ops, k);
                assert(failed_at(pre2, pre2 + rest.events, address, ops.skip(1), rest.ops, k));
                lemma_append_cancel(
                    pre2,
                    rest.events,
                    events_of(address, ops.skip(1).take(k), rest.ops.take(k)),
                );
                assert(events_of(address, ops.take(k + 1), o.ops.take(k + 1)) =~= s.events
                    + events_of(address, ops.skip(1).take(k), rest.ops.take(k))) by {
                    assert forall|i: int| 0 < i < k + 1 implies (#[trigger] events_of(
                        address,
                        ops.take(k + 1),
                        o.ops.take(k + 1),
                    )[i]) == events_of(address, ops.skip(1).take(k), rest.ops.take(k))[i - 1] by {
                        assert(ops.take(k + 1)[i] == ops.skip(1).take(k)[i - 1]);
                        assert(o.ops.take(k + 1)[i] == rest.ops.take(k)[i - 1]);
                    }
                }
                assert(pre_events + o.events =~= pre_events + events_of(
                    address,
                    ops.take(k + 1),
                    o.ops.take(k + 1),
                ));
                assert forall|i: int|
                    0 <= i < k + 1 && (#[trigger] ops[i]) is WriteIter implies o.ops[i]
                    == OpView::WriteIter(Seq::<u8>::empty()) by {
                    if i > 0 {
                        assert(ops.skip(1)[i - 1] == ops[i]);
                        assert(o.ops[i] == rest.ops[i - 1]);
                    }
                }
                assert forall|i: int| k + 1 < i < ops.len() implies #[trigger] o.ops[i]
                    == ops[i] by {
                    assert(o.ops[i] == rest.ops[i - 1]);
                    assert(ops.skip(1)[i - 1] == ops[i]);
                }
                assert(failed_at(pre_events, pre_events + o.events, address, ops, o.ops, k + 1));
            }
        }
    }
}

/// An empty transaction succeeds trivially: there is no step to fail, nothing
/// reaches the bus, and no reply is consumed.
pub proof fn lemma_empty_transaction(address: Address, replies: Seq<ReplyView>)
    ensures
        run(address, Seq::<OpView>::empty(), replies).result is Ok,
        run(address, Seq::<OpView>::empty(), replies).events == Seq::<BusEvent>::empty(),
        run(address, Seq::<OpView>::empty(), replies).used == 0,
{
    assert(run(address, Seq::<OpView>::empty(), replies).events =~= Seq::<BusEvent>::empty());
}

/// Failure scoping in a three-step transaction: if the first step succeeds
/// and the second fails, the third step is never executed — it is returned
/// untouched and no event or reply of it is seen — and the call returns
/// exactly the second step's fault.
pub proof fn lemma_failure_scoping(
    address: Address,
    ops: Seq<OpView>,
    replies: Seq<ReplyView>,
    f: BusFault,
)
    requires
        ops.len() == 3,
        replies.len() >= 2,
        step(address, ops[0], Some(replies[0])).result is Ok,
        step(address, ops[1], Some(replies[1])).result == Result::<(), BusFault>::Err(f),
    ensures
        ({
            let o = run(address, ops, replies);
            &&& o.result == Result::<(), BusFault>::Err(f)
            &&& o.ops[2] == ops[2]
            &&& o.events == step(address, ops[0], Some(replies[0])).events
            &&& o.used == 2
        }),
{
    let o = run(address, ops, replies);
    let s0 = step(address, ops[0], Some(replies[0]));
    let rest = run(address, ops.skip(1), replies.skip(1));
    assert(ops.skip(1)[0] == ops[1]);
    assert(replies.skip(1)[0] == replies[1]);
    let s1 = step(address, ops[1], Some(replies[1]));
    assert(rest.result == Result::<(), BusFault>::Err(f));
    assert(rest.ops[1] == ops.skip(1).skip(1)[0]);
    assert(ops.skip(1).skip(1)[0] == ops[2]);
    assert(o.events =~= s0.events);
}

} // verus!
