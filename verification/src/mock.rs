//! A scripted in-memory bus.
//!
//! Reads are answered from a queue of scripted responses and every frame is
//! recorded, so a test can drive any driver operation against literal chip
//! behaviour and then inspect the exact frame trace it produced.  The
//! recorded log is the bus's ghost trace, made inspectable.

use vstd::prelude::*;

use crate::bus::{rd, wr, Bus, BusOp};

verus! {

/// One recorded frame.
#[derive(Debug)]
pub struct LogEntry {
    pub write: bool,
    pub block: u8,
    pub address: u16,
    pub data: Vec<u8>,
}

impl LogEntry {
    /// The frame this entry records.
    pub open spec fn op(self) -> BusOp {
        if self.write {
            wr(self.block, self.address, self.data@)
        } else {
            rd(self.block, self.address, self.data@)
        }
    }
}

/// The mock bus never fails; no value of this error type is ever made.
#[derive(Debug)]
pub struct MockBusError;

/// A bus whose reads are scripted and whose frames are recorded.
pub struct MockBus {
    reads: Vec<Vec<u8>>,
    next_read: usize,
    log: Vec<LogEntry>,
}

impl MockBus {
    pub fn new() -> (r: MockBus)
        ensures
            r.ops() == Seq::<BusOp>::empty(),
    {
        let r = MockBus { reads: Vec::new(), next_read: 0, log: Vec::new() };
        proof {
            assert(r.ops() =~= Seq::<BusOp>::empty());
        }
        r
    }

    /// Script the answer to the next unanswered read.  A read longer than its
    /// scripted answer is padded with zeroes, a shorter one is truncated; a
    /// read past the end of the script answers all zeroes.
    pub fn push_read(&mut self, data: Vec<u8>)
        ensures
            final (self).ops() == old(self).ops(),
    {
        self.reads.push(data);
        proof {
            assert(final (self).ops() =~= old(self).ops());
        }
    }

    /// How many frames have been exchanged.
    pub fn op_count(&self) -> (r: usize)
        ensures
            r == self.ops().len(),
    {
        self.log.len()
    }

    /// Whether frame `i` was a write.
    pub fn op_is_write(&self, i: usize) -> (r: bool)
        requires
            i < self.ops().len(),
        ensures
            r == self.ops()[i as int].is_write(),
    {
        self.log[i].write
    }

    /// The block frame `i` addressed.
    pub fn op_block(&self, i: usize) -> (r: u8)
        requires
            i < self.ops().len(),
        ensures
            r == self.ops()[i as int].block(),
    {
        self.log[i].block
    }

    /// The start address of frame `i`.
    pub fn op_address(&self, i: usize) -> (r: u16)
        requires
            i < self.ops().len(),
        ensures
            r == self.ops()[i as int].address(),
    {
        self.log[i].address
    }

    /// The bytes frame `i` moved.
    pub fn op_data(&self, i: usize) -> (r: Vec<u8>)
        requires
            i < self.ops().len(),
        ensures
            r@ == self.ops()[i as int].data(),
    {
        copy_bytes(&self.log[i].data)
    }
}

/// A fresh vector holding the same bytes.
pub fn copy_bytes(data: &Vec<u8>) -> (r: Vec<u8>)
    ensures
        r@ == data@,
{
    let mut out: Vec<u8> = Vec::new();
    let mut i: usize = 0;
    while i < data.len()
        invariant
            i <= data@.len(),
            out@ == data@.take(i as int),
        decreases data@.len() - i,
    {
        out.push(data[i]);
        i = i + 1;
        assert(out@ =~= data@.take(i as int));
    }
    assert(data@.take(data@.len() as int) =~= data@);
    out
}

impl Bus for MockBus {
    type Error = MockBusError;

    closed spec fn ops(&self) -> Seq<BusOp> {
        self.log@.map_values(|e: LogEntry| e.op())
    }

    fn read_frame(&mut self, block: u8, address: u16, len: usize) -> (r: Result<
        Vec<u8>,
        MockBusError,
    >) {
        let scripted: Option<&Vec<u8>> = if self.next_read < self.reads.len() {
            let s = &self.reads[self.next_read];
            self.next_read = self.next_read + 1;
            Some(s)
        } else {
            None
        };
        let mut data: Vec<u8> = Vec::new();
        let mut i: usize = 0;
        while i < len
            invariant
                i <= len,
                data@.len() == i,
            decreases len - i,
        {
            let byte: u8 = match scripted {
                Some(s) => if i < s.len() {
                    s[i]
                } else {
                    0
                },
                None => 0,
            };
            data.push(byte);
            i = i + 1;
        }
        let recorded = copy_bytes(&data);
        let entry = LogEntry { write: false, block, address, data: recorded };
        let ghost pre = self.log@;
        self.log.push(entry);
        proof {
            assert(self.log@.map_values(|e: LogEntry| e.op()) =~= pre.map_values(
                |e: LogEntry| e.op(),
            ).push(rd(block, address, data@)));
        }
        Ok(data)
    }

    fn write_frame(&mut self, block: u8, address: u16, data: &Vec<u8>) -> (r: Result<
        (),
        MockBusError,
    >) {
        let recorded = copy_bytes(data);
        let entry = LogEntry { write: true, block, address, data: recorded };
        let ghost pre = self.log@;
        self.log.push(entry);
        proof {
            assert(self.log@.map_values(|e: LogEntry| e.op()) =~= pre.map_values(
                |e: LogEntry| e.op(),
            ).push(wr(block, address, data@)));
        }
        Ok(())
    }
}

} // verus!
