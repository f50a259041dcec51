//! Typed accessors over one socket's register file.
//!
//! A socket is identified by its index in 0..8.  Its register file lives in
//! block `4*index + 1`, its transmit buffer in block `4*index + 2`, and its
//! receive buffer in block `4*index + 3`.

use vstd::prelude::*;

use crate::bus::{
    appended_ops, extends, lemma_extends, rd, read_u16, read_u8, wr, write_u16, write_u8, Bus,
    BusOp,
};
use crate::frame::{spec_be2, spec_u16};
use crate::net::Ipv4Addr;
use crate::register::socketn;

verus! {

/// How many pairs of samples the received-size stability loop takes before
/// giving up and reporting the value as still unsettled.
pub const STABILITY_ATTEMPTS: u32 = 1024;

/// How many rounds a completion poll runs before reporting that the chip has
/// not answered yet.
pub const POLL_ATTEMPTS: u32 = 65536;

/// `op` is a read of `len` bytes from register `address` of block `register`.
pub open spec fn is_reg_read(register: u8, address: u16, len: int, op: BusOp) -> bool {
    &&& !op.is_write()
    &&& op.block() == register
    &&& op.address() == address
    &&& op.data().len() == len
}

/// The 16-bit value a two-byte frame carried.
pub open spec fn spec_data_u16(op: BusOp) -> u16 {
    spec_u16(op.data()[0], op.data()[1])
}

/// `op` is one of the reads a send-completion poll may issue: the TX pointers
/// or the interrupt register of block `register`.
pub open spec fn is_send_poll_read(register: u8, op: BusOp) -> bool {
    ||| is_reg_read(register, socketn::TX_DATA_READ_POINTER, 2, op)
    ||| is_reg_read(register, socketn::TX_DATA_WRITE_POINTER, 2, op)
    ||| is_reg_read(register, socketn::INTERRUPT, 1, op)
}

/// Every frame in `ops` is a send-completion poll read of block `register`.
pub open spec fn all_send_poll_reads(register: u8, ops: Seq<BusOp>) -> bool {
    forall|i: int| 0 <= i < ops.len() ==> is_send_poll_read(register, #[trigger] ops[i])
}

/// Every frame in `ops` is a one-byte read of the status register.
pub open spec fn all_status_reads(register: u8, ops: Seq<BusOp>) -> bool {
    forall|i: int| 0 <= i < ops.len() ==> is_reg_read(register, socketn::STATUS, 1, #[trigger] ops[i])
}

/// Every frame in `ops` is a one-byte read of the interrupt register.
pub open spec fn all_interrupt_reads(register: u8, ops: Seq<BusOp>) -> bool {
    forall|i: int|
        0 <= i < ops.len() ==> is_reg_read(register, socketn::INTERRUPT, 1, #[trigger] ops[i])
}

/// Frames read in pairs where no pair carried the same bytes twice: the
/// evidence an unsettled stability loop leaves behind.
pub open spec fn sample_pairs_disagree(ops: Seq<BusOp>) -> bool {
    forall|j: int| 0 <= j < ops.len() && j % 2 == 1 ==> (#[trigger] ops[j]).data() != ops[j - 1].data()
}

/// The register-file block of socket `index`.
pub open spec fn spec_sock_reg(index: u8) -> u8 {
    (4 * index + 1) as u8
}

/// The transmit-buffer block of socket `index`.
pub open spec fn spec_sock_tx(index: u8) -> u8 {
    (4 * index + 2) as u8
}

/// The receive-buffer block of socket `index`.
pub open spec fn spec_sock_rx(index: u8) -> u8 {
    (4 * index + 3) as u8
}

/// One of the eight sockets of the chip, with its three derived block
/// identifiers.
#[derive(Debug, Clone, Copy)]
pub struct Socket {
    pub index: u8,
    pub register: u8,
    pub tx_buffer: u8,
    pub rx_buffer: u8,
}

/// `op` is one two-byte read of the received-size register of block `register`.
pub open spec fn is_rsr_sample(register: u8, op: BusOp) -> bool {
    &&& !op.is_write()
    &&& op.block() == register
    &&& op.address() == socketn::RECEIVED_SIZE
    &&& op.data().len() == 2
}

/// Every frame in `ops` is a received-size sample of block `register`.
pub open spec fn all_rsr_samples(register: u8, ops: Seq<BusOp>) -> bool {
    forall|i: int| 0 <= i < ops.len() ==> is_rsr_sample(register, #[trigger] ops[i])
}

impl Socket {
    /// The index lies in 0..8 and the three block identifiers are the ones
    /// derived from it.
    pub open spec fn wf(self) -> bool {
        &&& self.index < 8
        &&& self.register == spec_sock_reg(self.index)
        &&& self.tx_buffer == spec_sock_tx(self.index)
        &&& self.rx_buffer == spec_sock_rx(self.index)
    }

    /// The register-file block this socket's accessors address.
    pub open spec fn spec_register(self) -> u8 {
        self.register
    }

    /// The transmit-buffer block of this socket.
    pub open spec fn spec_tx_buffer(self) -> u8 {
        self.tx_buffer
    }

    /// The receive-buffer block of this socket.
    pub open spec fn spec_rx_buffer(self) -> u8 {
        self.rx_buffer
    }

    pub fn new(index: u8) -> (r: Socket)
        requires
            index < 8,
        ensures
            r.wf() && r.index == index,
    {
        let block = index * 4;
        Socket { index, register: block + 1, tx_buffer: block + 2, rx_buffer: block + 3 }
    }

    pub fn register(&self) -> (r: u8)
        ensures
            r == self.spec_register(),
    {
        self.register
    }

    pub fn tx_buffer(&self) -> (r: u8)
        ensures
            r == self.spec_tx_buffer(),
    {
        self.tx_buffer
    }

    pub fn rx_buffer(&self) -> (r: u8)
        ensures
            r == self.spec_rx_buffer(),
    {
        self.rx_buffer
    }

    /// Select the socket's protocol in its mode register.
    pub fn set_mode<B: Bus>(&self, bus: &mut B, mode: socketn::Protocol) -> (r: Result<
        (),
        B::Error,
    >)
        requires
            self.wf(),
        ensures
            match r {
                Ok(_) => final (bus).ops() == old(bus).ops().push(
                    wr(self.spec_register(), socketn::MODE, seq![mode.spec_u8()]),
                ),
                Err(_) => final (bus).ops() == old(bus).ops(),
            },
    {
        write_u8(bus, self.register, socketn::MODE, mode.to_u8())
    }

    /// Write the raw mode register byte, protocol bits and flags together.
    pub fn set_mode_raw<B: Bus>(&self, bus: &mut B, mode: u8) -> (r: Result<(), B::Error>)
        requires
            self.wf(),
        ensures
            match r {
                Ok(_) => final (bus).ops() == old(bus).ops().push(
                    wr(self.spec_register(), socketn::MODE, seq![mode]),
                ),
                Err(_) => final (bus).ops() == old(bus).ops(),
            },
    {
        write_u8(bus, self.register, socketn::MODE, mode)
    }

    /// The raw status register byte.
    pub fn get_status<B: Bus>(&self, bus: &mut B) -> (r: Result<u8, B::Error>)
        requires
            self.wf(),
        ensures
            match r {
                Ok(v) => final (bus).ops() == old(bus).ops().push(
                    rd(self.spec_register(), socketn::STATUS, seq![v]),
                ),
                Err(_) => final (bus).ops() == old(bus).ops(),
            },
    {
        read_u8(bus, self.register, socketn::STATUS)
    }

    /// Clear an interrupt by writing its bit: the register is write-1-to-clear.
    pub fn reset_interrupt<B: Bus>(&self, bus: &mut B, code: socketn::Interrupt) -> (r: Result<
        (),
        B::Error,
    >)
        requires
            self.wf(),
        ensures
            match r {
                Ok(_) => final (bus).ops() == old(bus).ops().push(
                    wr(self.spec_register(), socketn::INTERRUPT, seq![code.spec_u8()]),
                ),
                Err(_) => final (bus).ops() == old(bus).ops(),
            },
    {
        write_u8(bus, self.register, socketn::INTERRUPT, code.to_u8())
    }

    /// The raw interrupt register byte.
    pub fn get_interrupt<B: Bus>(&self, bus: &mut B) -> (r: Result<u8, B::Error>)
        requires
            self.wf(),
        ensures
            match r {
                Ok(v) => final (bus).ops() == old(bus).ops().push(
                    rd(self.spec_register(), socketn::INTERRUPT, seq![v]),
                ),
                Err(_) => final (bus).ops() == old(bus).ops(),
            },
    {
        read_u8(bus, self.register, socketn::INTERRUPT)
    }

    /// Whether the interrupt register has `code`'s bit set.
    pub fn has_interrupt<B: Bus>(&self, bus: &mut B, code: socketn::Interrupt) -> (r: Result<
        bool,
        B::Error,
    >)
        requires
            self.wf(),
        ensures
            match r {
                Ok(b) => exists|ir: u8|
                    final (bus).ops() == old(bus).ops().push(
                        rd(self.spec_register(), socketn::INTERRUPT, seq![ir]),
                    ) && b == (ir & code.spec_u8() != 0),
                Err(_) => final (bus).ops() == old(bus).ops(),
            },
    {
        match read_u8(bus, self.register, socketn::INTERRUPT) {
            Ok(ir) => Ok(ir & code.to_u8() != 0),
            Err(e) => Err(e),
        }
    }

    pub fn set_source_port<B: Bus>(&self, bus: &mut B, port: u16) -> (r: Result<(), B::Error>)
        requires
            self.wf(),
        ensures
            match r {
                Ok(_) => final (bus).ops() == old(bus).ops().push(
                    wr(self.spec_register(), socketn::SOURCE_PORT, spec_be2(port)),
                ),
                Err(_) => final (bus).ops() == old(bus).ops(),
            },
    {
        write_u16(bus, self.register, socketn::SOURCE_PORT, port)
    }

    pub fn set_destination_ip<B: Bus>(&self, bus: &mut B, ip: Ipv4Addr) -> (r: Result<
        (),
        B::Error,
    >)
        requires
            self.wf(),
        ensures
            match r {
                Ok(_) => final (bus).ops() == old(bus).ops().push(
                    wr(self.spec_register(), socketn::DESTINATION_IP, ip.octets@),
                ),
                Err(_) => final (bus).ops() == old(bus).ops(),
            },
    {
        let mut data: Vec<u8> = Vec::new();
        data.push(ip.octets[0]);
        data.push(ip.octets[1]);
        data.push(ip.octets[2]);
        data.push(ip.octets[3]);
        proof {
            assert(data@ =~= ip.octets@);
        }
        bus.write_frame(self.register, socketn::DESTINATION_IP, &data)
    }

    pub fn set_destination_port<B: Bus>(&self, bus: &mut B, port: u16) -> (r: Result<(), B::Error>)
        requires
            self.wf(),
        ensures
            match r {
                Ok(_) => final (bus).ops() == old(bus).ops().push(
                    wr(self.spec_register(), socketn::DESTINATION_PORT, spec_be2(port)),
                ),
                Err(_) => final (bus).ops() == old(bus).ops(),
            },
    {
        write_u16(bus, self.register, socketn::DESTINATION_PORT, port)
    }

    pub fn get_tx_read_pointer<B: Bus>(&self, bus: &mut B) -> (r: Result<u16, B::Error>)
        requires
            self.wf(),
        ensures
            match r {
                Ok(v) => final (bus).ops() == old(bus).ops().push(
                    rd(self.spec_register(), socketn::TX_DATA_READ_POINTER, spec_be2(v)),
                ),
                Err(_) => final (bus).ops() == old(bus).ops(),
            },
    {
        read_u16(bus, self.register, socketn::TX_DATA_READ_POINTER)
    }

    pub fn set_tx_read_pointer<B: Bus>(&self, bus: &mut B, pointer: u16) -> (r: Result<
        (),
        B::Error,
    >)
        requires
            self.wf(),
        ensures
            match r {
                Ok(_) => final (bus).ops() == old(bus).ops().push(
                    wr(self.spec_register(), socketn::TX_DATA_READ_POINTER, spec_be2(pointer)),
                ),
                Err(_) => final (bus).ops() == old(bus).ops(),
            },
    {
        write_u16(bus, self.register, socketn::TX_DATA_READ_POINTER, pointer)
    }

    pub fn get_tx_write_pointer<B: Bus>(&self, bus: &mut B) -> (r: Result<u16, B::Error>)
        requires
            self.wf(),
        ensures
            match r {
                Ok(v) => final (bus).ops() == old(bus).ops().push(
                    rd(self.spec_register(), socketn::TX_DATA_WRITE_POINTER, spec_be2(v)),
                ),
                Err(_) => final (bus).ops() == old(bus).ops(),
            },
    {
        read_u16(bus, self.register, socketn::TX_DATA_WRITE_POINTER)
    }

    pub fn set_tx_write_pointer<B: Bus>(&self, bus: &mut B, pointer: u16) -> (r: Result<
        (),
        B::Error,
    >)
        requires
            self.wf(),
        ensures
            match r {
                Ok(_) => final (bus).ops() == old(bus).ops().push(
                    wr(self.spec_register(), socketn::TX_DATA_WRITE_POINTER, spec_be2(pointer)),
                ),
                Err(_) => final (bus).ops() == old(bus).ops(),
            },
    {
        write_u16(bus, self.register, socketn::TX_DATA_WRITE_POINTER, pointer)
    }

    pub fn get_rx_read_pointer<B: Bus>(&self, bus: &mut B) -> (r: Result<u16, B::Error>)
        requires
            self.wf(),
        ensures
            match r {
                Ok(v) => final (bus).ops() == old(bus).ops().push(
                    rd(self.spec_register(), socketn::RX_DATA_READ_POINTER, spec_be2(v)),
                ),
                Err(_) => final (bus).ops() == old(bus).ops(),
            },
    {
        read_u16(bus, self.register, socketn::RX_DATA_READ_POINTER)
    }

    pub fn set_rx_read_pointer<B: Bus>(&self, bus: &mut B, pointer: u16) -> (r: Result<
        (),
        B::Error,
    >)
        requires
            self.wf(),
        ensures
            match r {
                Ok(_) => final (bus).ops() == old(bus).ops().push(
                    wr(self.spec_register(), socketn::RX_DATA_READ_POINTER, spec_be2(pointer)),
                ),
                Err(_) => final (bus).ops() == old(bus).ops(),
            },
    {
        write_u16(bus, self.register, socketn::RX_DATA_READ_POINTER, pointer)
    }

    pub fn set_interrupt_mask<B: Bus>(&self, bus: &mut B, mask: u8) -> (r: Result<(), B::Error>)
        requires
            self.wf(),
        ensures
            match r {
                Ok(_) => final (bus).ops() == old(bus).ops().push(
                    wr(self.spec_register(), socketn::INTERRUPT_MASK, seq![mask]),
                ),
                Err(_) => final (bus).ops() == old(bus).ops(),
            },
    {
        write_u8(bus, self.register, socketn::INTERRUPT_MASK, mask)
    }

    /// Trigger a command by writing its code to the command register.
    pub fn command<B: Bus>(&self, bus: &mut B, command: socketn::Command) -> (r: Result<
        (),
        B::Error,
    >)
        requires
            self.wf(),
        ensures
            match r {
                Ok(_) => final (bus).ops() == old(bus).ops().push(
                    wr(self.spec_register(), socketn::COMMAND, seq![command.spec_u8()]),
                ),
                Err(_) => final (bus).ops() == old(bus).ops(),
            },
    {
        write_u8(bus, self.register, socketn::COMMAND, command.to_u8())
    }

    /// The received byte count of the socket's RX buffer.
    ///
    /// The chip may be mid-update while the two register bytes are read, so
    /// the register is sampled until two consecutive samples agree: a value is
    /// returned only when the last two reads both carried it.  When no stable
    /// pair arrives within [`STABILITY_ATTEMPTS`], none is returned, and the
    /// trace shows it: no sampled pair agreed.
    pub fn get_receive_size<B: Bus>(&self, bus: &mut B) -> (r: Result<Option<u16>, B::Error>)
        requires
            self.wf(),
        ensures
            ({
                let appended = appended_ops(old(bus).ops(), final (bus).ops());
                &&& extends(old(bus).ops(), final (bus).ops())
                &&& all_rsr_samples(self.spec_register(), appended)
                &&& (r matches Ok(Some(v)) ==> appended.len() >= 2 && appended[appended.len() - 1]
                    == rd(self.spec_register(), socketn::RECEIVED_SIZE, spec_be2(v))
                    && appended[appended.len() - 2] == rd(
                    self.spec_register(),
                    socketn::RECEIVED_SIZE,
                    spec_be2(v),
                ))
                &&& (r matches Ok(None) ==> appended.len() == 2 * STABILITY_ATTEMPTS
                    && sample_pairs_disagree(appended))
            }),
    {
        let ghost base = bus.ops();
        let ghost mut appended: Seq<BusOp> = Seq::empty();
        proof {
            assert(base + appended =~= base);
        }
        let mut attempts: u32 = STABILITY_ATTEMPTS;
        while attempts > 0
            invariant
                self.wf(),
                base == old(bus).ops(),
                bus.ops() == base + appended,
                all_rsr_samples(self.spec_register(), appended),
                appended.len() == 2 * (STABILITY_ATTEMPTS - attempts),
                sample_pairs_disagree(appended),
            decreases attempts,
        {
            let ghost pre_iter = appended;
            let sample_0 = match bus.read_frame(self.register, socketn::RECEIVED_SIZE, 2) {
                Ok(s) => s,
                Err(e) => {
                    proof {
                        lemma_extends(base, appended);
                    }
                    return Err(e);
                },
            };
            proof {
                let op = rd(self.spec_register(), socketn::RECEIVED_SIZE, sample_0@);
                assert(base + appended.push(op) =~= (base + appended).push(op));
                appended = appended.push(op);
                assert forall|i: int| 0 <= i < appended.len() implies is_rsr_sample(
                    self.spec_register(),
                    #[trigger] appended[i],
                ) by {}
            }
            let sample_1 = match bus.read_frame(self.register, socketn::RECEIVED_SIZE, 2) {
                Ok(s) => s,
                Err(e) => {
                    proof {
                        lemma_extends(base, appended);
                    }
                    return Err(e);
                },
            };
            proof {
                let op = rd(self.spec_register(), socketn::RECEIVED_SIZE, sample_1@);
                assert(base + appended.push(op) =~= (base + appended).push(op));
                appended = appended.push(op);
                assert forall|i: int| 0 <= i < appended.len() implies is_rsr_sample(
                    self.spec_register(),
                    #[trigger] appended[i],
                ) by {}
            }
            if sample_0[0] == sample_1[0] && sample_0[1] == sample_1[1] {
                let v = crate::frame::u16_from_be(sample_0[0], sample_0[1]);
                proof {
                    crate::frame::lemma_be2_roundtrip(sample_0@[0], sample_0@[1], v);
                    assert(sample_0@ =~= spec_be2(v));
                    assert(sample_1@ =~= spec_be2(v));
                    lemma_extends(base, appended);
                    assert(appended[appended.len() - 1] == rd(
                        self.spec_register(),
                        socketn::RECEIVED_SIZE,
                        spec_be2(v),
                    ));
                }
                return Ok(Some(v));
            }
            proof {
                assert(sample_0@ != sample_1@) by {
                    if sample_0@[0] == sample_1@[0] && sample_0@[1] == sample_1@[1] {
                        assert(sample_0@ =~= sample_1@);
                    }
                }
                assert forall|j: int|
                    0 <= j < appended.len() && j % 2 == 1 implies (#[trigger] appended[j]).data()
                    != appended[j - 1].data() by {
                    if j < appended.len() - 2 {
                        assert(pre_iter[j] == appended[j] && pre_iter[j - 1] == appended[j - 1]);
                        assert(sample_pairs_disagree(pre_iter));
                    } else {
                        assert(appended[appended.len() - 1].data() == sample_1@);
                        assert(appended[appended.len() - 2].data() == sample_0@);
                    }
                }
            }
            attempts = attempts - 1;
        }
        proof {
            lemma_extends(base, appended);
        }
        Ok(None)
    }

    /// The free byte count of the socket's TX buffer; it grows back once a
    /// SEND command completes.
    pub fn get_tx_free_size<B: Bus>(&self, bus: &mut B) -> (r: Result<u16, B::Error>)
        requires
            self.wf(),
        ensures
            match r {
                Ok(v) => final (bus).ops() == old(bus).ops().push(
                    rd(self.spec_register(), socketn::TX_FREE_SIZE, spec_be2(v)),
                ),
                Err(_) => final (bus).ops() == old(bus).ops(),
            },
    {
        read_u16(bus, self.register, socketn::TX_FREE_SIZE)
    }
}

} // verus!
