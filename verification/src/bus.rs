//! The logical frame transport.
//!
//! A [`Bus`] moves whole frames — a block identifier, a 16-bit address and a
//! data phase — between the driver and the chip.  Every implementation keeps
//! a ghost trace of the frames successfully exchanged, and the contracts of
//! the whole driver are stated over that trace: what a driver operation did
//! is exactly what it appended to it.

use vstd::prelude::*;

verus! {

/// One frame exchanged with the chip.
pub enum BusOp {
    Read { block: u8, address: u16, data: Seq<u8> },
    Write { block: u8, address: u16, data: Seq<u8> },
}

impl BusOp {
    /// The register block or buffer region the frame addressed.
    pub open spec fn block(self) -> u8 {
        match self {
            BusOp::Read { block, .. } => block,
            BusOp::Write { block, .. } => block,
        }
    }

    /// The 16-bit start address of the frame.
    pub open spec fn address(self) -> u16 {
        match self {
            BusOp::Read { address, .. } => address,
            BusOp::Write { address, .. } => address,
        }
    }

    /// The bytes moved: read from the chip, or written to it.
    pub open spec fn data(self) -> Seq<u8> {
        match self {
            BusOp::Read { data, .. } => data,
            BusOp::Write { data, .. } => data,
        }
    }

    pub open spec fn is_write(self) -> bool {
        self is Write
    }
}

/// A read frame in the trace.
pub open spec fn rd(block: u8, address: u16, data: Seq<u8>) -> BusOp {
    BusOp::Read { block, address, data }
}

/// A write frame in the trace.
pub open spec fn wr(block: u8, address: u16, data: Seq<u8>) -> BusOp {
    BusOp::Write { block, address, data }
}

/// A transport for logical frames.
///
/// A successful call appends exactly one frame to the ghost trace; a failed
/// call leaves the trace as it was.  What a read returns is the chip's (or a
/// test double's) choice: nothing relates one read to the next, and the
/// driver above must state what it does for every answer.
pub trait Bus: Sized {
    type Error;

    /// The trace of frames successfully exchanged so far.  Implementations
    /// override this with their own model of the wire; one that keeps the
    /// default has an empty trace and can satisfy the frame contracts only
    /// vacuously.
    open spec fn ops(&self) -> Seq<BusOp> {
        Seq::empty()
    }

    /// Read `len` bytes starting at `address` of `block`.
    fn read_frame(&mut self, block: u8, address: u16, len: usize) -> (r: Result<
        Vec<u8>,
        Self::Error,
    >)
        ensures
            match r {
                Ok(data) => data@.len() == len && final (self).ops() == old(self).ops().push(
                    rd(block, address, data@),
                ),
                Err(_) => final (self).ops() == old(self).ops(),
            },
    ;

    /// Write `data` starting at `address` of `block`.
    fn write_frame(&mut self, block: u8, address: u16, data: &Vec<u8>) -> (r: Result<
        (),
        Self::Error,
    >)
        ensures
            match r {
                Ok(_) => final (self).ops() == old(self).ops().push(wr(block, address, data@)),
                Err(_) => final (self).ops() == old(self).ops(),
            },
    ;
}

/// `post` begins with `pre`: the frames of `pre` are still there and
/// `post.skip(pre.len())` is what was appended after them.
pub open spec fn extends(pre: Seq<BusOp>, post: Seq<BusOp>) -> bool {
    &&& pre.len() <= post.len()
    &&& post == pre + post.skip(pre.len() as int)
}

/// What `post` appended after `pre`.
pub open spec fn appended_ops(pre: Seq<BusOp>, post: Seq<BusOp>) -> Seq<BusOp> {
    post.skip(pre.len() as int)
}

/// Appending `tail` to `pre` extends it, and the appended part is `tail`.
pub proof fn lemma_extends(pre: Seq<BusOp>, tail: Seq<BusOp>)
    ensures
        extends(pre, pre + tail),
        appended_ops(pre, pre + tail) == tail,
{
    assert((pre + tail).skip(pre.len() as int) =~= tail);
}

/// No frame in `ops` wrote anything to the chip.
pub open spec fn all_reads(ops: Seq<BusOp>) -> bool {
    forall|i: int| 0 <= i < ops.len() ==> !(#[trigger] ops[i]).is_write()
}

/// Every frame in `ops` addresses a block in `blocks`.
pub open spec fn touches_only(ops: Seq<BusOp>, blocks: Set<u8>) -> bool {
    forall|i: int| 0 <= i < ops.len() ==> blocks.contains(#[trigger] ops[i].block())
}

/// Write one register byte.
pub fn write_u8<B: Bus>(bus: &mut B, block: u8, address: u16, value: u8) -> (r: Result<
    (),
    B::Error,
>)
    ensures
        match r {
            Ok(_) => final (bus).ops() == old(bus).ops().push(wr(block, address, seq![value])),
            Err(_) => final (bus).ops() == old(bus).ops(),
        },
{
    let mut data: Vec<u8> = Vec::new();
    data.push(value);
    let r = bus.write_frame(block, address, &data);
    proof {
        assert(data@ =~= seq![value]);
    }
    r
}

/// Write one 16-bit register, big-endian.
pub fn write_u16<B: Bus>(bus: &mut B, block: u8, address: u16, value: u16) -> (r: Result<
    (),
    B::Error,
>)
    ensures
        match r {
            Ok(_) => final (bus).ops() == old(bus).ops().push(
                wr(block, address, crate::frame::spec_be2(value)),
            ),
            Err(_) => final (bus).ops() == old(bus).ops(),
        },
{
    let data = crate::frame::be2(value);
    bus.write_frame(block, address, &data)
}

/// Read one register byte.
pub fn read_u8<B: Bus>(bus: &mut B, block: u8, address: u16) -> (r: Result<u8, B::Error>)
    ensures
        match r {
            Ok(v) => final (bus).ops() == old(bus).ops().push(rd(block, address, seq![v])),
            Err(_) => final (bus).ops() == old(bus).ops(),
        },
{
    match bus.read_frame(block, address, 1) {
        Ok(data) => {
            let v = data[0];
            proof {
                assert(data@ =~= seq![v]);
            }
            Ok(v)
        },
        Err(e) => Err(e),
    }
}

/// Read one 16-bit register, big-endian.
pub fn read_u16<B: Bus>(bus: &mut B, block: u8, address: u16) -> (r: Result<u16, B::Error>)
    ensures
        match r {
            Ok(v) => final (bus).ops() == old(bus).ops().push(
                rd(block, address, crate::frame::spec_be2(v)),
            ),
            Err(_) => final (bus).ops() == old(bus).ops(),
        },
{
    match bus.read_frame(block, address, 2) {
        Ok(data) => {
            let v = crate::frame::u16_from_be(data[0], data[1]);
            proof {
                crate::frame::lemma_be2_roundtrip(data@[0], data@[1], v);
                assert(data@ =~= crate::frame::spec_be2(v));
            }
            Ok(v)
        },
        Err(e) => Err(e),
    }
}

} // verus!
