//! The vocabulary of a transaction: device addresses and per-step operations.

use vstd::prelude::*;

use crate::source::ByteSource;

verus! {

/// A device address on the bus, in either of the two addressing schemes.
///
/// The address is owned by the caller, passed by value into every transaction
/// call, shared by all steps of the transaction, and never mutated here.
#[derive(Debug, Clone, Copy, PartialEq, Eq, Structural)]
pub enum Address {
    /// Seven-bit addressing.
    SevenBit(u8),
    /// Ten-bit addressing.
    TenBit(u16),
}

/// One step of a transaction.
///
/// Steps are ordered; their order in the submitted sequence is the execution
/// order. A step carries no address of its own: the enclosing transaction
/// call supplies the single address shared by all its steps.
#[derive(Debug, PartialEq, Eq)]
pub enum Operation<B: ByteSource> {
    /// Read data into the provided buffer. The buffer's length fixes exactly
    /// how many bytes the step must read; a partial read is not a success.
    Read(Vec<u8>),
    /// Write every byte the source produces, in production order. An empty
    /// source is a valid, trivially successful step.
    WriteIter(B),
}

/// The mathematical view of one step: a read step is the current contents of
/// its target buffer, a write step the bytes its source has yet to produce.
#[verifier::ext_equal]
pub enum OpView {
    /// Contents of the read target.
    Read(Seq<u8>),
    /// Bytes the write source will produce.
    WriteIter(Seq<u8>),
}

impl OpView {
    /// The byte sequence carried by either variant.
    pub open spec fn bytes(self) -> Seq<u8> {
        match self {
            OpView::Read(b) => b,
            OpView::WriteIter(b) => b,
        }
    }
}

impl<B: ByteSource> View for Operation<B> {
    type V = OpView;

    open spec fn view(&self) -> OpView {
        match self {
            Operation::Read(buf) => OpView::Read(buf@),
            Operation::WriteIter(src) => OpView::WriteIter(src.remaining()),
        }
    }
}

/// The views of a sequence of operations, in order.
pub open spec fn views_of<B: ByteSource>(ops: Seq<Operation<B>>) -> Seq<OpView> {
    ops.map_values(|op: Operation<B>| op@)
}

} // verus!
