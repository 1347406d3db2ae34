//! The two scheduling flavors of the transactional capability, executing
//! against a scripted device.
//!
//! [`CoopTransaction`] is the cooperative flavor: a transaction in flight as
//! a state machine with one suspension point per step. A cooperatively
//! scheduled caller hands the hardware one step, suspends, and feeds the
//! device's answer to [`CoopTransaction::advance`] when it is resumed.
//!
//! [`ScriptedBus`] is the blocking flavor: one call drives the very same
//! machine to completion before returning. Both flavors are specified
//! against the one semantics [`run`], so for the same operations and the
//! same scripted replies they are bound to the same outcome, the same final
//! buffer contents and the same bus events.

use vstd::pervasive::unreached;
use vstd::prelude::*;

use crate::bus::{BusEvent, I2cIter};
use crate::operation::{views_of, Address, Operation, OpView};
use crate::reply::{
    lemma_run_meets_contract, reply_views, run, step, BusFault, Reply, ReplyView,
};
use crate::source::ByteSource;

verus! {

/// Drain a byte source completely, appending every byte it produces to `out`
/// in production order: the byte-level transmission of a write step.
fn drain<B: ByteSource>(src: &mut B, out: &mut Vec<u8>)
    ensures
        final(out)@ == old(out)@ + old(src).remaining(),
        final(src).remaining() == Seq::<u8>::empty(),
    decreases src.remaining().len(),
{
    match src.next() {
        Some(b) => {
            out.push(b);
            drain(src, out);
            proof {
                assert(old(src).remaining() =~= seq![b] + old(src).remaining().drop_first());
                assert(out@ =~= old(out)@ + old(src).remaining());
            }
        },
        None => {
            proof {
                assert(out@ =~= old(out)@ + old(src).remaining());
            }
        },
    }
}

/// A transaction in flight on the cooperative scheduling flavor: the machine
/// holds the address, the steps, how many of them have completed, and the
/// outcome once one is known. Between [`CoopTransaction::begin`] and the
/// first [`CoopTransaction::advance`], and between any two calls of
/// `advance`, the calling task is free to suspend while the hardware works.
pub struct CoopTransaction<B: ByteSource> {
    address: Address,
    ops: Vec<Operation<B>>,
    cursor: usize,
    result: Option<Result<(), BusFault>>,
    log: Ghost<Seq<BusEvent>>,
}

impl<B: ByteSource> CoopTransaction<B> {
    /// The address every step of this transaction targets.
    pub closed spec fn address(self) -> Address {
        self.address
    }

    /// The views of all steps, completed and pending alike, in order.
    pub closed spec fn op_views(self) -> Seq<OpView> {
        views_of(self.ops@)
    }

    /// How many leading steps have completed.
    pub closed spec fn completed(self) -> int {
        self.cursor as int
    }

    /// `None` while the transaction is in flight; its result once known.
    pub closed spec fn outcome(self) -> Option<Result<(), BusFault>> {
        self.result
    }

    /// The events this transaction has put on the bus so far.
    pub closed spec fn log(self) -> Seq<BusEvent> {
        self.log@
    }

    /// The views of the steps still to execute.
    pub open spec fn pending(self) -> Seq<OpView> {
        self.op_views().skip(self.completed())
    }

    /// The machine's bookkeeping is consistent: the completed prefix lies
    /// within the steps, an in-flight transaction has a step left to run,
    /// and a successful one has run them all.
    pub open spec fn wf(self) -> bool {
        &&& 0 <= self.completed() <= self.op_views().len()
        &&& (self.outcome() is None ==> self.completed() < self.op_views().len())
        &&& (self.outcome() == Some(Result::<(), BusFault>::Ok(())) ==> self.completed()
            == self.op_views().len())
    }

    /// Start a transaction: no step has executed and nothing is on the bus.
    /// With no steps at all it is already — trivially successfully — done.
    pub fn begin(address: Address, operations: Vec<Operation<B>>) -> (t: Self)
        ensures
            t.wf(),
            t.address() == address,
            t.op_views() == views_of(operations@),
            t.completed() == 0,
            t.log() == Seq::<BusEvent>::empty(),
            t.outcome() == (if operations@.len() == 0 {
                Some(Result::<(), BusFault>::Ok(()))
            } else {
                None::<Result<(), BusFault>>
            }),
    {
        let result: Option<Result<(), BusFault>> = if operations.len() == 0 {
            Some(Ok(()))
        } else {
            None
        };
        proof {
            assert(views_of(operations@).len() == operations@.len());
        }
        CoopTransaction { address, ops: operations, cursor: 0, result, log: Ghost(Seq::empty()) }
    }

    /// Whether the transaction has finished, successfully or not.
    pub fn is_done(&self) -> (b: bool)
        ensures
            b == (self.outcome() is Some),
    {
        self.result.is_some()
    }

    /// Execute the next step, given the device's answer to it (`None`: the
    /// device never answered the step). One call is one resumption of the
    /// suspended caller; exactly one step happens, and its effect on the
    /// operations, the log and the outcome is the [`step`] semantics — the
    /// same semantics the blocking flavor is specified by.
    pub fn advance(&mut self, reply: Option<Reply>)
        requires
            old(self).wf(),
            old(self).outcome() is None,
        ensures
            final(self).wf(),
            final(self).address() == old(self).address(),
            ({
                let c = old(self).completed();
                let s = step(
                    old(self).address(),
                    old(self).op_views()[c],
                    match reply {
                        Some(r) => Some(r@),
                        None => None::<ReplyView>,
                    },
                );
                &&& final(self).op_views() == old(self).op_views().update(c, s.op)
                &&& final(self).log() == old(self).log() + s.events
                &&& (s.result is Err ==> final(self).outcome() == Some(s.result)
                    && final(self).completed() == c)
                &&& (s.result is Ok ==> final(self).completed() == c + 1 && final(self).outcome()
                    == (if c + 1 == old(self).op_views().len() {
                    Some(Result::<(), BusFault>::Ok(()))
                } else {
                    None::<Result<(), BusFault>>
                }))
            }),
    {
        let idx = self.cursor;
        let ghost c = idx as int;
        proof {
            assert(old(self).ops.len() == old(self).ops@.len());
            assert(old(self).op_views().len() == old(self).ops@.len());
            assert(old(self).op_views()[c] == old(self).ops@[c]@);
        }
        let op = self.ops.remove(idx);
        match (op, reply) {
            (Operation::WriteIter(mut src), Some(Reply::AckWrite)) => {
                let ghost src0 = src.remaining();
                let mut sent: Vec<u8> = Vec::new();
                drain(&mut src, &mut sent);
                self.ops.insert(idx, Operation::WriteIter(src));
                self.log = Ghost(
                    self.log@ + seq![BusEvent::Write { address: self.address, bytes: src0 }],
                );
                self.cursor = idx + 1;
                if self.cursor == self.ops.len() {
                    self.result = Some(Ok(()));
                }
                proof {
                    assert(self.ops@ =~= old(self).ops@.update(c, Operation::WriteIter(src)));
                    assert(self.op_views() =~= old(self).op_views().update(
                        c,
                        OpView::WriteIter(Seq::<u8>::empty()),
                    ));
                }
            },
            (Operation::WriteIter(src), other) => {
                self.ops.insert(idx, Operation::WriteIter(src));
                let fault = match other {
                    Some(Reply::FailWrite(f)) => f,
                    _ => BusFault::Unexpected,
                };
                self.result = Some(Err(fault));
                proof {
                    assert(self.ops@ =~= old(self).ops@.update(c, Operation::WriteIter(src)));
                    assert(self.op_views() =~= old(self).op_views().update(
                        c,
                        old(self).op_views()[c],
                    ));
                    assert(self.log@ =~= old(self).log@ + Seq::<BusEvent>::empty());
                }
            },
            (Operation::Read(buf), Some(Reply::GiveRead(data))) => {
                if data.len() == buf.len() {
                    let ghost d = data@;
                    self.ops.insert(idx, Operation::Read(data));
                    self.log = Ghost(
                        self.log@ + seq![BusEvent::Read { address: self.address, bytes: d }],
                    );
                    self.cursor = idx + 1;
                    if self.cursor == self.ops.len() {
                        self.result = Some(Ok(()));
                    }
                    proof {
                        assert(self.ops@ =~= old(self).ops@.update(c, Operation::<B>::Read(data)));
                        assert(self.op_views() =~= old(self).op_views().update(c, OpView::Read(d)));
                    }
                } else {
                    self.ops.insert(idx, Operation::Read(buf));
                    self.result = Some(Err(BusFault::Unexpected));
                    proof {
                        assert(self.ops@ =~= old(self).ops@.update(c, Operation::<B>::Read(buf)));
                        assert(self.op_views() =~= old(self).op_views().update(
                            c,
                            old(self).op_views()[c],
                        ));
                        assert(self.log@ =~= old(self).log@ + Seq::<BusEvent>::empty());
                    }
                }
            },
            (Operation::Read(buf), other) => {
                self.ops.insert(idx, Operation::Read(buf));
                let fault = match other {
                    Some(Reply::FailRead(f)) => f,
                    _ => BusFault::Unexpected,
                };
                self.result = Some(Err(fault));
                proof {
                    assert(self.ops@ =~= old(self).ops@.update(c, Operation::<B>::Read(buf)));
                    assert(self.op_views() =~= old(self).op_views().update(
                        c,
                        old(self).op_views()[c],
                    ));
                    assert(self.log@ =~= old(self).log@ + Seq::<BusEvent>::empty());
                }
            },
        }
    }

    /// Drive the machine to completion against a script of replies, consuming
    /// the script from the front: the blocking flavor of execution. The final
    /// state is exactly the [`run`] semantics of the pending steps against
    /// the script. Each single resumption of the cooperative flavor is
    /// specified by the same semantics, one step at a time, which is what
    /// keeps the two flavors behaviorally identical.
    pub fn run_with(&mut self, script: &mut Vec<Reply>)
        requires
            old(self).wf(),
            old(self).outcome() is None,
        ensures
            ({
                let o = run(
                    old(self).address(),
                    old(self).pending(),
                    reply_views(old(script)@),
                );
                &&& final(self).wf()
                &&& final(self).address() == old(self).address()
                &&& final(self).outcome() == Some(o.result)
                &&& final(self).log() == old(self).log() + o.events
                &&& final(self).op_views() == old(self).op_views().take(old(self).completed())
                    + o.ops
                &&& o.used <= old(script)@.len()
                &&& final(script)@ == old(script)@.skip(o.used as int)
            }),
        decreases self.op_views().len() - self.completed(),
    {
        let ghost rv = reply_views(old(script)@);
        let ghost c = old(self).completed();
        let ghost pend = old(self).pending();
        proof {
            assert(pend.len() == old(self).op_views().len() - c);
            assert(pend[0] == old(self).op_views()[c]);
        }
        let have = script.len() > 0;
        let reply: Option<Reply> = if have {
            Some(script.remove(0))
        } else {
            None
        };
        proof {
            if have {
                assert(reply matches Some(r) && r@ == rv[0]);
                assert(script@ =~= old(script)@.skip(1));
                assert(reply_views(script@) =~= rv.skip(1));
            }
        }
        let ghost s = step(
            old(self).address(),
            old(self).op_views()[c],
            if have {
                Some(rv[0])
            } else {
                None
            },
        );
        self.advance(reply);
        if !self.is_done() {
            proof {
                // only a successful non-final step leaves the machine in flight
                assert(s.result is Ok);
                assert(self.pending() =~= pend.skip(1));
            }
            self.run_with(script);
            proof {
                let rest = run(old(self).address(), pend.skip(1), rv.skip(1));
                let o = run(old(self).address(), pend, rv);
                assert(o.result == rest.result && o.ops == seq![s.op] + rest.ops && o.events
                    == s.events + rest.events && o.used == 1 + rest.used);
                assert(self.log() =~= old(self).log() + o.events);
                assert(self.op_views() =~= old(self).op_views().take(c) + o.ops) by {
                    assert(old(self).op_views().update(c, s.op).take(c + 1) =~= old(
                        self,
                    ).op_views().take(c) + seq![s.op]);
                }
                assert(script@ =~= old(script)@.skip(o.used as int));
            }
        } else {
            proof {
                let o = run(old(self).address(), pend, rv);
                if s.result is Err {
                    assert(o.result == s.result && o.ops == seq![s.op] + pend.skip(1) && o.events
                        == s.events && o.used == (if have { 1int } else { 0int }));
                    assert(self.op_views() =~= old(self).op_views().take(c) + o.ops) by {
                        assert forall|j: int|
                            0 <= j < self.op_views().len() implies #[trigger] self.op_views()[j]
                            == (old(self).op_views().take(c) + o.ops)[j] by {
                            if j < c {
                            } else if j == c {
                            } else {
                                assert(pend.skip(1)[j - c - 1] == old(self).op_views()[j]);
                            }
                        }
                    }
                    assert(script@ =~= old(script)@.skip(o.used as int));
                } else {
                    // the step succeeded and was the last one
                    assert(have);
                    assert(c + 1 == old(self).op_views().len());
                    assert(pend.skip(1).len() == 0);
                    let rest = run(old(self).address(), pend.skip(1), rv.skip(1));
                    assert(rest.result is Ok && rest.used == 0);
                    assert(rest.ops =~= Seq::<OpView>::empty());
                    assert(rest.events =~= Seq::<BusEvent>::empty());
                    assert(o.result == rest.result && o.ops == seq![s.op] + rest.ops && o.events
                        == s.events + rest.events && o.used == 1);
                    assert(self.log() =~= old(self).log() + o.events);
                    assert(self.op_views() =~= old(self).op_views().take(c) + o.ops) by {
                        assert(o.ops =~= seq![s.op]);
                    }
                    assert(script@ =~= old(script)@.skip(1));
                }
            }
        }
    }

    /// Tear a finished transaction down: its result, and the operations with
    /// every completed read target filled and write source drained.
    pub fn finish(self) -> (r: (Result<(), BusFault>, Vec<Operation<B>>))
        requires
            self.outcome() is Some,
        ensures
            self.outcome() == Some(r.0),
            views_of(r.1@) == self.op_views(),
    {
        match self.result {
            Some(res) => (res, self.ops),
            None => unreached(),
        }
    }
}

/// A bus whose device is a script of replies, consumed from the front: the
/// blocking scheduling flavor of the transactional capability. Each call of
/// `transaction_iter` runs its whole transaction to completion — by driving
/// the same machine the cooperative flavor suspends on — before returning.
pub struct ScriptedBus {
    script: Vec<Reply>,
    history: Ghost<Seq<BusEvent>>,
}

impl ScriptedBus {
    /// The replies the scripted device will give, in order.
    pub closed spec fn pending_replies(self) -> Seq<ReplyView> {
        reply_views(self.script@)
    }

    /// A bus whose device will answer steps with exactly these replies.
    pub fn new(script: Vec<Reply>) -> (bus: Self)
        ensures
            bus.pending_replies() == reply_views(script@),
            bus.events() == Seq::<BusEvent>::empty(),
    {
        ScriptedBus { script, history: Ghost(Seq::empty()) }
    }

    /// Blocking execution of one transaction, with the exact [`run`]
    /// semantics. The cooperative flavor, resumed step by step over the same
    /// replies, is bound to the very same `run` outcome.
    pub fn run_transaction<B: ByteSource>(
        &mut self,
        address: Address,
        operations: &mut Vec<Operation<B>>,
    ) -> (r: Result<(), BusFault>)
        ensures
            ({
                let o = run(address, views_of(old(operations)@), old(self).pending_replies());
                &&& r == o.result
                &&& views_of(final(operations)@) == o.ops
                &&& final(self).events() == old(self).events() + o.events
                &&& o.used <= old(self).pending_replies().len()
                &&& final(self).pending_replies() == old(self).pending_replies().skip(
                    o.used as int,
                )
            }),
    {
        let ghost o = run(address, views_of(old(operations)@), old(self).pending_replies());
        let mut ops: Vec<Operation<B>> = Vec::new();
        core::mem::swap(&mut ops, operations);
        let mut t = CoopTransaction::begin(address, ops);
        if !t.is_done() {
            proof {
                assert(t.pending() =~= views_of(old(operations)@));
            }
            t.run_with(&mut self.script);
            proof {
                assert(t.op_views() =~= o.ops);
                assert(t.log() =~= o.events);
                assert(reply_views(self.script@) =~= old(self).pending_replies().skip(
                    o.used as int,
                ));
            }
        } else {
            proof {
                assert(views_of(old(operations)@).len() == 0);
                assert(o.ops =~= t.op_views());
                assert(o.events =~= Seq::<BusEvent>::empty());
                assert(t.log() =~= o.events);
                assert(reply_views(self.script@) =~= old(self).pending_replies().skip(0));
            }
        }
        let ghost tlog = t.log();
        let (res, mut done_ops) = t.finish();
        core::mem::swap(&mut done_ops, operations);
        self.history = Ghost(self.history@ + tlog);
        proof {
            assert(views_of(operations@) == o.ops);
            assert(self.history@ == old(self).events() + o.events);
        }
        res
    }
}

impl I2cIter for ScriptedBus {
    type Error = BusFault;

    /// The log of byte-level exchanges performed so far.
    closed spec fn events(&self) -> Seq<BusEvent> {
        self.history@
    }

    fn transaction_iter<B: ByteSource>(
        &mut self,
        address: Address,
        operations: &mut Vec<Operation<B>>,
    ) -> (r: Result<(), Self::Error>) {
        let r = self.run_transaction(address, operations);
        proof {
            lemma_run_meets_contract(
                address,
                views_of(old(operations)@),
                old(self).pending_replies(),
                old(self).events(),
            );
        }
        r
    }
}

} // verus!
