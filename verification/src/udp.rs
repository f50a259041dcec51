//! The UDP endpoint: open, send, send-to, receive and close over one socket.

use vstd::prelude::*;

use crate::bus::{appended_ops, extends, rd, touches_only, wr, Bus, BusOp};
use crate::frame::{add16, spec_be2, spec_u16};
use crate::net::SocketAddrV4;
use crate::register::socketn;
use crate::register::socketn::Status;
use crate::socket::{
    all_rsr_samples, all_send_poll_reads, all_status_reads, is_reg_read, is_send_poll_read,
    sample_pairs_disagree, spec_data_u16, Socket, POLL_ATTEMPTS,
};
use crate::{NbError, NbResult};

verus! {

/// Why a UDP operation failed.
#[derive(Clone, Debug)]
pub enum UdpSocketError<E> {
    /// All eight sockets are taken.
    NoMoreSockets,
    /// Only IPv4 is supported.
    UnsupportedAddress,
    /// The status register byte names no known state.
    UnrecognisedStatus,
    /// The receive buffer has no room while a datagram is pending.
    BufferOverflow,
    /// The TX buffer reports no free space at the start of a send.
    BufferFull,
    /// Sending needs a destination set by a connect or a send-to first.
    DestinationNotSet,
    /// The socket's status register disagrees with the endpoint.
    SocketNotOpen,
    Other(E),
    /// The TIMEOUT interrupt fired while a send was polled.
    WriteTimeout,
}

/// The header the chip prepends to every received UDP datagram: the origin
/// address and port, and the payload length in bytes.
#[derive(Clone, Copy, Debug)]
pub struct UdpHeader {
    /// The origin socket address.
    pub origin: SocketAddrV4,
    /// Length of the UDP payload in bytes.  The data read out may be shorter
    /// when the caller's buffer is smaller.
    pub len: usize,
}

/// A UDP endpoint: a socket, its local port, and the cached destination.
#[derive(Debug)]
pub struct UdpSocket {
    pub socket: Socket,
    /// The destination written to the chip, if any yet.
    pub destination: Option<SocketAddrV4>,
    /// The local port of the socket.
    pub port: u16,
}

/// The concatenated payloads of the writes to buffer block `txb`, in order.
pub open spec fn tx_buffer_writes(txb: u8, ops: Seq<BusOp>) -> Seq<u8>
    decreases ops.len(),
{
    if ops.len() == 0 {
        Seq::empty()
    } else {
        (if ops[0].is_write() && ops[0].block() == txb {
            ops[0].data()
        } else {
            Seq::empty()
        }) + tx_buffer_writes(txb, ops.drop_first())
    }
}

/// Buffer-payload concatenation distributes over trace concatenation.
pub proof fn lemma_tx_writes_concat(txb: u8, a: Seq<BusOp>, b: Seq<BusOp>)
    ensures
        tx_buffer_writes(txb, a + b) == tx_buffer_writes(txb, a) + tx_buffer_writes(txb, b),
    decreases a.len(),
{
    if a.len() == 0 {
        assert(a + b =~= b);
        assert(tx_buffer_writes(txb, a) + tx_buffer_writes(txb, b) =~= tx_buffer_writes(txb, b));
    } else {
        lemma_tx_writes_concat(txb, a.drop_first(), b);
        assert((a + b).drop_first() =~= a.drop_first() + b);
        assert((if a[0].is_write() && a[0].block() == txb {
            a[0].data()
        } else {
            Seq::empty()
        }) + (tx_buffer_writes(txb, a.drop_first()) + tx_buffer_writes(txb, b)) =~= ((if a[0].is_write()
            && a[0].block() == txb {
            a[0].data()
        } else {
            Seq::empty()
        }) + tx_buffer_writes(txb, a.drop_first())) + tx_buffer_writes(txb, b));
    }
}

/// A trace with no write to block `txb` carries no buffer payload.
pub proof fn lemma_tx_writes_none(txb: u8, ops: Seq<BusOp>)
    requires
        forall|i: int| 0 <= i < ops.len() ==> !(#[trigger] ops[i]).is_write() || ops[i].block() != txb,
    ensures
        tx_buffer_writes(txb, ops) == Seq::<u8>::empty(),
    decreases ops.len(),
{
    if ops.len() > 0 {
        assert(ops[0] == ops[0]);
        lemma_tx_writes_none(txb, ops.drop_first());
        assert(Seq::<u8>::empty() + Seq::<u8>::empty() =~= Seq::<u8>::empty());
    }
}

/// The buffer payload of a one-frame trace.
pub proof fn lemma_tx_writes_one(txb: u8, op: BusOp)
    ensures
        tx_buffer_writes(txb, seq![op]) == (if op.is_write() && op.block() == txb {
            op.data()
        } else {
            Seq::<u8>::empty()
        }),
{
    let s = seq![op];
    assert(s.len() == 1 && s[0] == op);
    assert(s.drop_first() =~= Seq::<BusOp>::empty());
    assert(tx_buffer_writes(txb, s.drop_first()) == Seq::<u8>::empty());
    assert(tx_buffer_writes(txb, s) == (if op.is_write() && op.block() == txb {
        op.data()
    } else {
        Seq::<u8>::empty()
    }) + Seq::<u8>::empty());
    assert((if op.is_write() && op.block() == txb {
        op.data()
    } else {
        Seq::<u8>::empty()
    }) + Seq::<u8>::empty() =~= (if op.is_write() && op.block() == txb {
        op.data()
    } else {
        Seq::<u8>::empty()
    }));
}

/// Whatever the operation wrote to TX buffer block `txb` is the next
/// contiguous slice of `payload` from `offset` on.
pub open spec fn spec_tx_prefix(txb: u8, payload: Seq<u8>, offset: int, appended: Seq<BusOp>) -> bool {
    &&& offset + tx_buffer_writes(txb, appended).len() <= payload.len()
    &&& tx_buffer_writes(txb, appended) == payload.subrange(
        offset,
        offset + tx_buffer_writes(txb, appended).len(),
    )
}

/// A trace without TX-buffer writes trivially continues the payload.
pub proof fn lemma_tx_prefix_empty(txb: u8, payload: Seq<u8>, offset: int, appended: Seq<BusOp>)
    requires
        0 <= offset <= payload.len(),
        forall|i: int| 0 <= i < appended.len() ==> !(#[trigger] appended[i]).is_write() || appended[i].block() != txb,
    ensures
        spec_tx_prefix(txb, payload, offset, appended),
{
    lemma_tx_writes_none(txb, appended);
    assert(payload.subrange(offset, offset) =~= Seq::<u8>::empty());
}

/// A committed batch's TX-buffer payload is exactly its one payload write:
/// three reads, the write to `txb`, then frames that never write to `txb`.
pub proof fn lemma_tx_writes_batch(txb: u8, reg: u8, appended: Seq<BusOp>, chunk: Seq<u8>)
    requires
        reg != txb,
        appended.len() >= 4,
        !appended[0].is_write(),
        !appended[1].is_write(),
        !appended[2].is_write(),
        appended[3].is_write() && appended[3].block() == txb && appended[3].data() == chunk,
        forall|i: int|
            4 <= i < appended.len() ==> !(#[trigger] appended[i]).is_write() || appended[i].block()
                == reg,
    ensures
        tx_buffer_writes(txb, appended) == chunk,
{
    let front = appended.take(3);
    let mid = seq![appended[3]];
    let tail = appended.skip(4);
    assert(appended =~= front + (mid + tail));
    lemma_tx_writes_concat(txb, front, mid + tail);
    lemma_tx_writes_concat(txb, mid, tail);
    assert forall|i: int|
        0 <= i < front.len() implies !(#[trigger] front[i]).is_write() || front[i].block()
        != txb by {
        assert(front[i] == appended[i]);
    }
    lemma_tx_writes_none(txb, front);
    lemma_tx_writes_one(txb, appended[3]);
    assert forall|i: int|
        0 <= i < tail.len() implies !(#[trigger] tail[i]).is_write() || tail[i].block() != txb by {
        assert(tail[i] == appended[4 + i]);
    }
    lemma_tx_writes_none(txb, tail);
    assert(Seq::<u8>::empty() + (chunk + Seq::<u8>::empty()) =~= chunk);
}

impl UdpSocket {
    pub open spec fn wf(self) -> bool {
        self.socket.wf()
    }

    /// The default ephemeral port base, 49152, plus the socket index.
    pub fn new(socket: Socket) -> (r: UdpSocket)
        requires
            socket.wf(),
        ensures
            r.wf(),
            r.socket == socket,
            r.destination is None,
            r.port == 49152 + socket.index,
    {
        let port: u16 = 49152 + socket.index as u16;
        UdpSocket { socket, destination: None, port }
    }

    /// The last set local port of the socket.
    pub fn get_port(&self) -> (r: u16)
        ensures
            r == self.port,
    {
        self.port
    }

    /// The index of the owned socket.
    pub fn index(&self) -> (r: u8)
        ensures
            r == self.socket.index,
    {
        self.socket.index
    }

    /// Open the socket for UDP: close whatever was there, clear interrupts,
    /// set the source port, select the UDP protocol, unmask the SEND_OK and
    /// TIMEOUT interrupts, issue OPEN, then wait briefly for the status
    /// register to reach the UDP state.  The wait gives up after
    /// [`POLL_ATTEMPTS`] reads; the trace shows which of the two happened.
    pub fn open<B: Bus>(&self, bus: &mut B) -> (r: Result<(), B::Error>)
        requires
            self.wf(),
        ensures
            extends(old(bus).ops(), final (bus).ops()),
            touches_only(
                appended_ops(old(bus).ops(), final (bus).ops()),
                Set::empty().insert(self.socket.spec_register()),
            ),
            r matches Ok(_) ==> ({
                let appended = appended_ops(old(bus).ops(), final (bus).ops());
                let k = appended.len();
                &&& k > 6
                &&& appended.take(6) == spec_udp_open_writes(self.socket.spec_register(), self.port)
                &&& all_status_reads(self.socket.spec_register(), appended.skip(6))
                &&& (forall|i: int| 6 <= i < k - 1 ==> (#[trigger] appended[i]).data()[0] != 0x22)
                &&& (appended[k - 1].data()[0] == 0x22 || k - 6 == POLL_ATTEMPTS)
            }),
    {
        let ghost base = bus.ops();
        match self.socket.command(bus, socketn::Command::Close) {
            Ok(_) => (),
            Err(e) => {
                proof {
                    assert(bus.ops() =~= base + bus.ops().skip(base.len() as int));
                }
                return Err(e);
            },
        }
        match self.socket.reset_interrupt(bus, socketn::Interrupt::All) {
            Ok(_) => (),
            Err(e) => {
                proof {
                    assert(bus.ops() =~= base + bus.ops().skip(base.len() as int));
                }
                return Err(e);
            },
        }
        match self.socket.set_source_port(bus, self.port) {
            Ok(_) => (),
            Err(e) => {
                proof {
                    assert(bus.ops() =~= base + bus.ops().skip(base.len() as int));
                }
                return Err(e);
            },
        }
        match self.socket.set_mode(bus, socketn::Protocol::Udp) {
            Ok(_) => (),
            Err(e) => {
                proof {
                    assert(bus.ops() =~= base + bus.ops().skip(base.len() as int));
                }
                return Err(e);
            },
        }
        match self.socket.set_interrupt_mask(bus, 0x18) {
            Ok(_) => (),
            Err(e) => {
                proof {
                    assert(bus.ops() =~= base + bus.ops().skip(base.len() as int));
                }
                return Err(e);
            },
        }
        match self.socket.command(bus, socketn::Command::Open) {
            Ok(_) => (),
            Err(e) => {
                proof {
                    assert(bus.ops() =~= base + bus.ops().skip(base.len() as int));
                }
                return Err(e);
            },
        }
        let ghost writes = spec_udp_open_writes(self.socket.spec_register(), self.port);
        proof {
            assert(bus.ops() =~= base + writes);
        }
        let ghost mut polls: Seq<BusOp> = Seq::empty();
        proof {
            assert(base + writes + polls =~= base + writes);
        }
        let mut attempts: u32 = POLL_ATTEMPTS;
        while attempts > 0
            invariant
                self.wf(),
                base == old(bus).ops(),
                bus.ops() == base + writes + polls,
                writes == spec_udp_open_writes(self.socket.spec_register(), self.port),
                all_status_reads(self.socket.spec_register(), polls),
                forall|i: int| 0 <= i < polls.len() ==> (#[trigger] polls[i]).data()[0] != 0x22,
                polls.len() == POLL_ATTEMPTS - attempts,
            decreases attempts,
        {
            let status_byte = match self.socket.get_status(bus) {
                Ok(v) => v,
                Err(e) => {
                    proof {
                        assert(bus.ops() =~= base + (writes + polls));
                        lemma_return_shape(base, writes + polls, bus.ops());
                        lemma_open_trace_blocks(
                            self.socket.spec_register(),
                            writes,
                            polls,
                            self.port,
                        );
                    }
                    return Err(e);
                },
            };
            proof {
                let op = rd(self.socket.spec_register(), socketn::STATUS, seq![status_byte]);
                assert(base + writes + polls.push(op) =~= (base + writes + polls).push(op));
                polls = polls.push(op);
                assert forall|i: int| 0 <= i < polls.len() implies is_reg_read(
                    self.socket.spec_register(),
                    socketn::STATUS,
                    1,
                    #[trigger] polls[i],
                ) by {}
            }
            if status_byte == 0x22 {
                proof {
                    let appended = writes + polls;
                    assert(bus.ops() =~= base + appended);
                    lemma_return_shape(base, appended, bus.ops());
                    lemma_open_trace_blocks(self.socket.spec_register(), writes, polls, self.port);
                    assert(appended.take(6) =~= writes);
                    assert(appended.skip(6) =~= polls);
                    assert(appended[appended.len() - 1].data() == seq![status_byte]);
                }
                return Ok(());
            }
            attempts = attempts - 1;
        }
        proof {
            let appended = writes + polls;
            assert(bus.ops() =~= base + appended);
            lemma_return_shape(base, appended, bus.ops());
            lemma_open_trace_blocks(self.socket.spec_register(), writes, polls, self.port);
            assert(appended.take(6) =~= writes);
            assert(appended.skip(6) =~= polls);
        }
        Ok(())
    }

    /// Set the local port and write it to the chip.
    pub fn set_port<B: Bus>(&mut self, bus: &mut B, local_port: u16) -> (r: Result<
        (),
        UdpSocketError<B::Error>,
    >)
        requires
            old(self).wf(),
        ensures
            final (self).wf(),
            final (self).socket == old(self).socket,
            final (self).destination == old(self).destination,
            extends(old(bus).ops(), final (bus).ops()),
            r matches Ok(_) ==> final (self).port == local_port && final (bus).ops() == old(
                bus,
            ).ops().push(
                wr(old(self).socket.spec_register(), socketn::SOURCE_PORT, spec_be2(local_port)),
            ),
            r matches Err(e) ==> e is Other && final (bus).ops() == old(bus).ops(),
    {
        self.port = local_port;
        match self.socket.set_source_port(bus, local_port) {
            Ok(_) => {
                proof {
                    assert(bus.ops() =~= old(bus).ops() + bus.ops().skip(old(bus).ops().len() as int));
                }
                Ok(())
            },
            Err(e) => {
                proof {
                    assert(bus.ops() =~= old(bus).ops() + bus.ops().skip(old(bus).ops().len() as int));
                }
                Err(UdpSocketError::Other(e))
            },
        }
    }

    /// Write the destination address and port to the chip when they differ
    /// from the cached destination, and cache them.
    pub fn set_destination<B: Bus>(&mut self, bus: &mut B, remote: SocketAddrV4) -> (r: Result<
        (),
        UdpSocketError<B::Error>,
    >)
        requires
            old(self).wf(),
        ensures
            final (self).wf(),
            final (self).socket == old(self).socket,
            final (self).port == old(self).port,
            extends(old(bus).ops(), final (bus).ops()),
            touches_only(
                appended_ops(old(bus).ops(), final (bus).ops()),
                Set::empty().insert(old(self).socket.spec_register()),
            ),
            r matches Err(e) ==> e is Other,
            r matches Ok(_) ==> final (self).destination == Some(remote) && (match old(
                self,
            ).destination {
                Some(dest) => if dest.ip.octets@ == remote.ip.octets@ && dest.port == remote.port {
                    final (bus).ops() == old(bus).ops()
                } else {
                    final (bus).ops() == old(bus).ops() + spec_destination_writes(
                        old(self).socket.spec_register(),
                        remote,
                    )
                },
                None => final (bus).ops() == old(bus).ops() + spec_destination_writes(
                    old(self).socket.spec_register(),
                    remote,
                ),
            }),
    {
        let ghost base = bus.ops();
        let changed: bool = match &self.destination {
            Some(dest) => !dest.eq(&remote),
            None => true,
        };
        if changed {
            match self.socket.set_destination_ip(bus, remote.ip) {
                Ok(_) => (),
                Err(e) => {
                    proof {
                        assert(bus.ops() =~= base + bus.ops().skip(base.len() as int));
                    }
                    return Err(UdpSocketError::Other(e));
                },
            }
            match self.socket.set_destination_port(bus, remote.port) {
                Ok(_) => (),
                Err(e) => {
                    proof {
                        assert(bus.ops() =~= base + bus.ops().skip(base.len() as int));
                    }
                    return Err(UdpSocketError::Other(e));
                },
            }
            self.destination = Some(remote);
            proof {
                assert(bus.ops() =~= base + bus.ops().skip(base.len() as int));
                assert(bus.ops() =~= base + spec_destination_writes(
                    self.socket.spec_register(),
                    remote,
                ));
            }
            Ok(())
        } else {
            self.destination = Some(remote);
            proof {
                assert(bus.ops() =~= base + bus.ops().skip(base.len() as int));
            }
            Ok(())
        }
    }
}

/// The six frames that open a socket for UDP: CLOSE, interrupt clear, the
/// source port, the UDP protocol, the SEND_OK|TIMEOUT interrupt mask, OPEN.
pub open spec fn spec_udp_open_writes(register: u8, port: u16) -> Seq<BusOp> {
    seq![
        wr(register, socketn::COMMAND, seq![0x10u8]),
        wr(register, socketn::INTERRUPT, seq![0xFFu8]),
        wr(register, socketn::SOURCE_PORT, spec_be2(port)),
        wr(register, socketn::MODE, seq![0x02u8]),
        wr(register, socketn::INTERRUPT_MASK, seq![0x18u8]),
        wr(register, socketn::COMMAND, seq![0x01u8]),
    ]
}

/// The two frames that set a socket's destination: the IP octets, then the
/// big-endian port.
pub open spec fn spec_destination_writes(register: u8, remote: SocketAddrV4) -> Seq<BusOp> {
    seq![
        wr(register, socketn::DESTINATION_IP, remote.ip.octets@),
        wr(register, socketn::DESTINATION_PORT, spec_be2(remote.port)),
    ]
}

/// A send-completion poll that ends in success: any poll reads, then a read
/// of TX_RD and one of TX_WR carrying the same value, a read of the
/// interrupt register with the SEND_OK bit set, and the write that clears it.
pub open spec fn spec_flush_tail_ok(reg: u8, appended: Seq<BusOp>) -> bool {
    let k = appended.len();
    &&& k >= 4
    &&& all_send_poll_reads(reg, appended.take(k - 1))
    &&& is_reg_read(reg, socketn::TX_DATA_READ_POINTER, 2, appended[k - 4])
    &&& is_reg_read(reg, socketn::TX_DATA_WRITE_POINTER, 2, appended[k - 3])
    &&& appended[k - 4].data() == appended[k - 3].data()
    &&& is_reg_read(reg, socketn::INTERRUPT, 1, appended[k - 2])
    &&& appended[k - 2].data()[0] & 0x10 != 0
    &&& appended[k - 1] == wr(reg, socketn::INTERRUPT, seq![0x10u8])
}

/// A send-completion poll that observed the TIMEOUT interrupt instead: the
/// pointers agreed, SEND_OK was clear, TIMEOUT was set and was cleared.
pub open spec fn spec_flush_tail_timeout(reg: u8, appended: Seq<BusOp>) -> bool {
    let k = appended.len();
    &&& k >= 4
    &&& all_send_poll_reads(reg, appended.take(k - 1))
    &&& is_reg_read(reg, socketn::TX_DATA_READ_POINTER, 2, appended[k - 4])
    &&& is_reg_read(reg, socketn::TX_DATA_WRITE_POINTER, 2, appended[k - 3])
    &&& appended[k - 4].data() == appended[k - 3].data()
    &&& is_reg_read(reg, socketn::INTERRUPT, 1, appended[k - 2])
    &&& appended[k - 2].data()[0] & 0x10 == 0
    &&& appended[k - 2].data()[0] & 0x08 != 0
    &&& appended[k - 1] == wr(reg, socketn::INTERRUPT, seq![0x08u8])
}

/// The frames that commit one batch of a send: the status read showing UDP,
/// the free-size read, the write-pointer read, the payload write at that
/// pointer, the pointer advanced by exactly the batch length modulo 2^16,
/// and the SEND command.
pub open spec fn spec_send_commit(
    reg: u8,
    txb: u8,
    payload: Seq<u8>,
    offset: int,
    appended: Seq<BusOp>,
) -> bool {
    let fs = spec_data_u16(appended[1]);
    let wp = spec_data_u16(appended[2]);
    let n = vstd::math::min(fs as int, payload.len() - offset);
    &&& appended.len() >= 6
    &&& appended[0] == rd(reg, socketn::STATUS, seq![0x22u8])
    &&& is_reg_read(reg, socketn::TX_FREE_SIZE, 2, appended[1])
    &&& is_reg_read(reg, socketn::TX_DATA_WRITE_POINTER, 2, appended[2])
    &&& fs > 0
    &&& appended[3] == wr(txb, wp, payload.subrange(offset, offset + n))
    &&& appended[4] == wr(reg, socketn::TX_DATA_WRITE_POINTER, spec_be2(add16(wp, n)))
    &&& appended[5] == wr(reg, socketn::COMMAND, seq![0x20u8])
    &&& tx_buffer_writes(txb, appended) == payload.subrange(offset, offset + n)
}

impl UdpSocket {
    /// Poll for completion of a SEND command: wait until the TX read pointer
    /// has caught up with the write pointer and the SEND_OK interrupt fires,
    /// then clear it.  A TIMEOUT interrupt is cleared and surfaced as
    /// `WriteTimeout`; an unanswered poll budget surfaces as would-block.
    fn flush_send<B: Bus>(&self, bus: &mut B) -> (r: NbResult<(), UdpSocketError<B::Error>>)
        requires
            self.wf(),
        ensures
            ({
                let appended = appended_ops(old(bus).ops(), final (bus).ops());
                let reg = self.socket.spec_register();
                &&& extends(old(bus).ops(), final (bus).ops())
                &&& touches_only(appended, Set::empty().insert(reg))
                &&& (r matches Ok(_) ==> spec_flush_tail_ok(reg, appended))
                &&& (r matches Err(e) ==> match e {
                    NbError::Other(ue) => match ue {
                        UdpSocketError::WriteTimeout => spec_flush_tail_timeout(reg, appended),
                        UdpSocketError::Other(_) => all_send_poll_reads(reg, appended),
                        _ => false,
                    },
                    NbError::WouldBlock => all_send_poll_reads(reg, appended),
                })
            }),
    {
        let ghost base = bus.ops();
        let ghost mut appended: Seq<BusOp> = Seq::empty();
        proof {
            assert(base + appended =~= base);
        }
        let reg = self.socket.register();
        let mut attempts: u32 = POLL_ATTEMPTS;
        while attempts > 0
            invariant
                self.wf(),
                reg == self.socket.spec_register(),
                base == old(bus).ops(),
                bus.ops() == base + appended,
                all_send_poll_reads(self.socket.spec_register(), appended),
            decreases attempts,
        {
            let tx_rd = match self.socket.get_tx_read_pointer(bus) {
                Ok(v) => v,
                Err(e) => {
                    proof {
                        lemma_return_shape(base, appended, bus.ops());
                    }
                    return Err(NbError::Other(UdpSocketError::Other(e)));
                },
            };
            proof {
                let op = rd(reg, socketn::TX_DATA_READ_POINTER, spec_be2(tx_rd));
                assert(base + appended.push(op) =~= (base + appended).push(op));
                appended = appended.push(op);
                assert forall|i: int| 0 <= i < appended.len() implies is_send_poll_read(
                    self.socket.spec_register(),
                    #[trigger] appended[i],
                ) by {}
            }
            let tx_wr = match self.socket.get_tx_write_pointer(bus) {
                Ok(v) => v,
                Err(e) => {
                    proof {
                        lemma_return_shape(base, appended, bus.ops());
                    }
                    return Err(NbError::Other(UdpSocketError::Other(e)));
                },
            };
            proof {
                let op = rd(reg, socketn::TX_DATA_WRITE_POINTER, spec_be2(tx_wr));
                assert(base + appended.push(op) =~= (base + appended).push(op));
                appended = appended.push(op);
                assert forall|i: int| 0 <= i < appended.len() implies is_send_poll_read(
                    self.socket.spec_register(),
                    #[trigger] appended[i],
                ) by {}
            }
            if tx_rd == tx_wr {
                let ir = match self.socket.get_interrupt(bus) {
                    Ok(v) => v,
                    Err(e) => {
                        proof {
                            lemma_return_shape(base, appended, bus.ops());
                        }
                        return Err(NbError::Other(UdpSocketError::Other(e)));
                    },
                };
                proof {
                    let op = rd(reg, socketn::INTERRUPT, seq![ir]);
                    assert(base + appended.push(op) =~= (base + appended).push(op));
                    appended = appended.push(op);
                    assert forall|i: int| 0 <= i < appended.len() implies is_send_poll_read(
                        self.socket.spec_register(),
                        #[trigger] appended[i],
                    ) by {}
                }
                if ir & 0x10 != 0 {
                    match self.socket.reset_interrupt(bus, socketn::Interrupt::SendOk) {
                        Ok(_) => (),
                        Err(e) => {
                            proof {
                                lemma_return_shape(base, appended, bus.ops());
                            }
                            return Err(NbError::Other(UdpSocketError::Other(e)));
                        },
                    }
                    proof {
                        let op = wr(reg, socketn::INTERRUPT, seq![0x10u8]);
                        assert(base + appended.push(op) =~= (base + appended).push(op));
                        appended = appended.push(op);
                        lemma_return_shape(base, appended, bus.ops());
                        let k = appended.len();
                        assert(appended.take(k - 1) =~= appended.subrange(0, k - 1));
                        assert(all_send_poll_reads(
                            self.socket.spec_register(),
                            appended.take(k - 1),
                        ));
                        assert(spec_be2(tx_rd) == spec_be2(tx_wr));
                    }
                    return Ok(());
                }
                if ir & 0x08 != 0 {
                    match self.socket.reset_interrupt(bus, socketn::Interrupt::Timeout) {
                        Ok(_) => (),
                        Err(e) => {
                            proof {
                                lemma_return_shape(base, appended, bus.ops());
                            }
                            return Err(NbError::Other(UdpSocketError::Other(e)));
                        },
                    }
                    proof {
                        let op = wr(reg, socketn::INTERRUPT, seq![0x08u8]);
                        assert(base + appended.push(op) =~= (base + appended).push(op));
                        appended = appended.push(op);
                        lemma_return_shape(base, appended, bus.ops());
                        let k = appended.len();
                        assert(appended.take(k - 1) =~= appended.subrange(0, k - 1));
                        assert(all_send_poll_reads(
                            self.socket.spec_register(),
                            appended.take(k - 1),
                        ));
                        assert(spec_be2(tx_rd) == spec_be2(tx_wr));
                    }
                    return Err(NbError::Other(UdpSocketError::WriteTimeout));
                }
            }
            attempts = attempts - 1;
        }
        proof {
            lemma_return_shape(base, appended, bus.ops());
        }
        Err(NbError::WouldBlock)
    }
}

impl UdpSocket {
    /// Send one batch from `send_buffer` starting at `offset`: as many bytes
    /// as the TX buffer has free, at most what remains.  The batch is written
    /// at the TX write pointer, the pointer is advanced by exactly the batch
    /// length modulo 2^16, SEND is issued, and the completion is polled.
    /// Returns how many bytes were committed.
    #[verifier::rlimit(60)]
    pub fn socket_send<B: Bus>(&self, bus: &mut B, send_buffer: &Vec<u8>, offset: usize) -> (r:
        NbResult<usize, UdpSocketError<B::Error>>)
        requires
            self.wf(),
            offset <= send_buffer@.len(),
        ensures
            ({
                let appended = appended_ops(old(bus).ops(), final (bus).ops());
                let reg = self.socket.spec_register();
                let txb = self.socket.spec_tx_buffer();
                &&& extends(old(bus).ops(), final (bus).ops())
                &&& touches_only(appended, Set::empty().insert(reg).insert(txb))
                &&& spec_tx_prefix(txb, send_buffer@, offset as int, appended)
                &&& (r matches Ok(n) ==> spec_send_commit(reg, txb, send_buffer@, offset as int, appended)
                    && n == vstd::math::min(
                    spec_data_u16(appended[1]) as int,
                    send_buffer@.len() - offset,
                ) && spec_flush_tail_ok(reg, appended.skip(6)))
                &&& (r matches Err(e) ==> match e {
                    NbError::WouldBlock => spec_send_commit(reg, txb, send_buffer@, offset as int, appended)
                        && all_send_poll_reads(reg, appended.skip(6)),
                    NbError::Other(ue) => match ue {
                        UdpSocketError::WriteTimeout => spec_send_commit(
                            reg,
                            txb,
                            send_buffer@,
                            offset as int,
                            appended,
                        ) && spec_flush_tail_timeout(reg, appended.skip(6)),
                        UdpSocketError::SocketNotOpen => appended.len() == 1 && is_reg_read(
                            reg,
                            socketn::STATUS,
                            1,
                            appended[0],
                        ) && (Status::spec_from_u8(appended[0].data()[0]) matches Some(st) && st
                            != Status::Udp),
                        UdpSocketError::UnrecognisedStatus => appended.len() == 1 && is_reg_read(
                            reg,
                            socketn::STATUS,
                            1,
                            appended[0],
                        ) && Status::spec_from_u8(appended[0].data()[0]) is None,
                        UdpSocketError::DestinationNotSet => appended.len() == 1 && appended[0]
                            == rd(reg, socketn::STATUS, seq![0x22u8]) && self.destination is None,
                        UdpSocketError::BufferFull => appended.len() == 2 && appended[0] == rd(
                            reg,
                            socketn::STATUS,
                            seq![0x22u8],
                        ) && appended[1] == rd(reg, socketn::TX_FREE_SIZE, spec_be2(0)),
                        UdpSocketError::Other(_) => true,
                        _ => false,
                    },
                })
            }),
    {
        let ghost base = bus.ops();
        let reg = self.socket.register();
        let status_byte = match self.socket.get_status(bus) {
            Ok(v) => v,
            Err(e) => {
                proof {
                    assert(base + Seq::<BusOp>::empty() =~= base);
                    lemma_return_shape(base, Seq::empty(), bus.ops());
                    lemma_tx_prefix_empty(
                        self.socket.spec_tx_buffer(),
                        send_buffer@,
                        offset as int,
                        Seq::empty(),
                    );
                }
                return Err(NbError::Other(UdpSocketError::Other(e)));
            },
        };
        let ghost op0 = rd(reg, socketn::STATUS, seq![status_byte]);
        match Status::from_u8(status_byte) {
            Some(Status::Udp) => (),
            Some(_) => {
                proof {
                    assert(base.push(op0) =~= base + seq![op0]);
                    lemma_return_shape(base, seq![op0], bus.ops());
                    lemma_tx_prefix_empty(
                        self.socket.spec_tx_buffer(),
                        send_buffer@,
                        offset as int,
                        seq![op0],
                    );
                }
                return Err(NbError::Other(UdpSocketError::SocketNotOpen));
            },
            None => {
                proof {
                    assert(base.push(op0) =~= base + seq![op0]);
                    lemma_return_shape(base, seq![op0], bus.ops());
                    lemma_tx_prefix_empty(
                        self.socket.spec_tx_buffer(),
                        send_buffer@,
                        offset as int,
                        seq![op0],
                    );
                }
                return Err(NbError::Other(UdpSocketError::UnrecognisedStatus));
            },
        }
        match &self.destination {
            Some(_) => (),
            None => {
                proof {
                    assert(base.push(op0) =~= base + seq![op0]);
                    lemma_return_shape(base, seq![op0], bus.ops());
                    lemma_tx_prefix_empty(
                        self.socket.spec_tx_buffer(),
                        send_buffer@,
                        offset as int,
                        seq![op0],
                    );
                }
                return Err(NbError::Other(UdpSocketError::DestinationNotSet));
            },
        }
        let free_size = match self.socket.get_tx_free_size(bus) {
            Ok(v) => v,
            Err(e) => {
                proof {
                    assert(base.push(op0) =~= base + seq![op0]);
                    lemma_return_shape(base, seq![op0], bus.ops());
                    lemma_tx_prefix_empty(
                        self.socket.spec_tx_buffer(),
                        send_buffer@,
                        offset as int,
                        seq![op0],
                    );
                }
                return Err(NbError::Other(UdpSocketError::Other(e)));
            },
        };
        let ghost op1 = rd(reg, socketn::TX_FREE_SIZE, spec_be2(free_size));
        if free_size == 0 {
            proof {
                assert(base.push(op0).push(op1) =~= base + seq![op0, op1]);
                lemma_return_shape(base, seq![op0, op1], bus.ops());
                    lemma_tx_prefix_empty(
                        self.socket.spec_tx_buffer(),
                        send_buffer@,
                        offset as int,
                        seq![op0, op1],
                    );
            }
            return Err(NbError::Other(UdpSocketError::BufferFull));
        }
        let write_pointer = match self.socket.get_tx_write_pointer(bus) {
            Ok(v) => v,
            Err(e) => {
                proof {
                    assert(base.push(op0).push(op1) =~= base + seq![op0, op1]);
                    lemma_return_shape(base, seq![op0, op1], bus.ops());
                    lemma_tx_prefix_empty(
                        self.socket.spec_tx_buffer(),
                        send_buffer@,
                        offset as int,
                        seq![op0, op1],
                    );
                }
                return Err(NbError::Other(UdpSocketError::Other(e)));
            },
        };
        let ghost op2 = rd(reg, socketn::TX_DATA_WRITE_POINTER, spec_be2(write_pointer));
        let remaining = send_buffer.len() - offset;
        let n: usize = if (free_size as usize) < remaining {
            free_size as usize
        } else {
            remaining
        };
        let mut chunk: Vec<u8> = Vec::new();
        let end: usize = offset + n;
        let mut i: usize = offset;
        while i < end
            invariant
                offset <= i <= end,
                end == offset + n,
                end <= send_buffer@.len(),
                chunk@ == send_buffer@.subrange(offset as int, i as int),
            decreases end - i,
        {
            chunk.push(send_buffer[i]);
            i = i + 1;
            assert(chunk@ =~= send_buffer@.subrange(offset as int, i as int));
        }
        match bus.write_frame(self.socket.tx_buffer(), write_pointer, &chunk) {
            Ok(_) => (),
            Err(e) => {
                proof {
                    assert(base.push(op0).push(op1).push(op2) =~= base + seq![op0, op1, op2]);
                    lemma_return_shape(base, seq![op0, op1, op2], bus.ops());
                    lemma_tx_prefix_empty(
                        self.socket.spec_tx_buffer(),
                        send_buffer@,
                        offset as int,
                        seq![op0, op1, op2],
                    );
                }
                return Err(NbError::Other(UdpSocketError::Other(e)));
            },
        }
        let ghost op3 = wr(self.socket.spec_tx_buffer(), write_pointer, chunk@);
        let new_write_pointer = crate::frame::wrap_add16(write_pointer, n as u16);
        match self.socket.set_tx_write_pointer(bus, new_write_pointer) {
            Ok(_) => (),
            Err(e) => {
                proof {
                    assert(base.push(op0).push(op1).push(op2).push(op3) =~= base + seq![
                        op0,
                        op1,
                        op2,
                        op3,
                    ]);
                    lemma_return_shape(base, seq![op0, op1, op2, op3], bus.ops());
                    lemma_tx_writes_batch(
                        self.socket.spec_tx_buffer(),
                        self.socket.spec_register(),
                        seq![op0, op1, op2, op3],
                        chunk@,
                    );
                    assert(send_buffer@.subrange(offset as int, offset + n) =~= chunk@);
                }
                return Err(NbError::Other(UdpSocketError::Other(e)));
            },
        }
        let ghost op4 = wr(reg, socketn::TX_DATA_WRITE_POINTER, spec_be2(add16(write_pointer, n as int)));
        match self.socket.command(bus, socketn::Command::Send) {
            Ok(_) => (),
            Err(e) => {
                proof {
                    assert(base.push(op0).push(op1).push(op2).push(op3).push(op4) =~= base + seq![
                        op0,
                        op1,
                        op2,
                        op3,
                        op4,
                    ]);
                    lemma_return_shape(base, seq![op0, op1, op2, op3, op4], bus.ops());
                    lemma_tx_writes_batch(
                        self.socket.spec_tx_buffer(),
                        self.socket.spec_register(),
                        seq![op0, op1, op2, op3, op4],
                        chunk@,
                    );
                    assert(send_buffer@.subrange(offset as int, offset + n) =~= chunk@);
                }
                return Err(NbError::Other(UdpSocketError::Other(e)));
            },
        }
        let ghost op5 = wr(reg, socketn::COMMAND, seq![0x20u8]);
        let ghost prefix = seq![op0, op1, op2, op3, op4, op5];
        proof {
            assert(bus.ops() =~= base + prefix);
        }
        let ghost mid = bus.ops();
        let flushed = self.flush_send(bus);
        proof {
            let tail = appended_ops(mid, bus.ops());
            assert(bus.ops() == mid + tail);
            assert(bus.ops() =~= base + (prefix + tail));
            lemma_return_shape(base, prefix + tail, bus.ops());
            let appended = prefix + tail;
            assert(appended.skip(6) =~= tail);
            assert(appended[0] == op0 && appended[1] == op1 && appended[2] == op2 && appended[3]
                == op3 && appended[4] == op4 && appended[5] == op5);
            assert(tx_buffer_writes(self.socket.spec_tx_buffer(), appended) == chunk@) by {
                assert forall|i: int|
                    4 <= i < appended.len() implies !(#[trigger] appended[i]).is_write()
                    || appended[i].block() == self.socket.spec_register() by {
                    if i >= 6 {
                        assert(tail[i - 6].block() == self.socket.spec_register());
                    }
                }
                lemma_tx_writes_batch(
                    self.socket.spec_tx_buffer(),
                    self.socket.spec_register(),
                    appended,
                    chunk@,
                );
            }
            assert(spec_send_commit(
                self.socket.spec_register(),
                self.socket.spec_tx_buffer(),
                send_buffer@,
                offset as int,
                appended,
            )) by {
                crate::frame::lemma_be2_roundtrip(0, 0, free_size);
                crate::frame::lemma_be2_roundtrip(0, 0, write_pointer);
                assert(spec_data_u16(appended[1]) == free_size);
                assert(spec_data_u16(appended[2]) == write_pointer);
                assert(n == vstd::math::min(free_size as int, send_buffer@.len() - offset));
            }
            assert forall|i: int| 0 <= i < appended.len() implies (Set::empty().insert(
                self.socket.spec_register(),
            ).insert(self.socket.spec_tx_buffer())).contains(#[trigger] appended[i].block()) by {
                if i >= 6 {
                    assert(tail[i - 6].block() == self.socket.spec_register());
                }
            }
        }
        match flushed {
            Ok(_) => Ok(n),
            Err(e) => Err(e),
        }
    }
}

/// A trace whose earlier frames wrote `payload[..upto]` to the TX buffer
/// and whose latest operation continued contiguously from `upto` covers, in
/// all, a prefix of `payload` from its start.
pub proof fn lemma_send_all_prefix(
    txb: u8,
    payload: Seq<u8>,
    upto: int,
    pre: Seq<BusOp>,
    batch: Seq<BusOp>,
)
    requires
        0 <= upto <= payload.len(),
        tx_buffer_writes(txb, pre) == payload.take(upto),
        spec_tx_prefix(txb, payload, upto, batch),
    ensures
        spec_tx_prefix(txb, payload, 0, pre + batch),
{
    lemma_tx_writes_concat(txb, pre, batch);
    let w = tx_buffer_writes(txb, batch).len() as int;
    assert(payload.take(upto) + payload.subrange(upto, upto + w) =~= payload.subrange(
        0,
        upto + w,
    ));
    assert(tx_buffer_writes(txb, pre + batch) == payload.take(upto) + payload.subrange(
        upto,
        upto + w,
    ));
}

/// The trace of a completed multi-batch send covering `payload[..upto]`.
/// Read from the right, it is empty (nothing sent yet), or a shorter such
/// trace followed by a full-buffer probe — the status read showing UDP and a
/// free-size read of zero, the wait taken mid-send when the TX buffer has no
/// room — or by one committed batch: the commit of the next slice at the TX
/// write pointer, the pointer advanced by exactly the slice length, SEND,
/// and a completion poll that observed the pointers equal and SEND_OK.
pub open spec fn spec_send_batches(
    reg: u8,
    txb: u8,
    payload: Seq<u8>,
    upto: int,
    appended: Seq<BusOp>,
) -> bool
    decreases appended.len(),
{
    if appended.len() == 0 {
        upto == 0
    } else {
        ||| (exists|bk: int, n: int|
            #![trigger appended.take(appended.len() - bk), payload.subrange(upto - n, upto)]
            {
                &&& 6 <= bk <= appended.len()
                &&& 0 < n <= upto
                &&& n == vstd::math::min(
                    spec_data_u16(appended.skip(appended.len() - bk)[1]) as int,
                    payload.len() - (upto - n),
                )
                &&& spec_send_batches(reg, txb, payload, upto - n, appended.take(appended.len() - bk))
                &&& spec_send_commit(reg, txb, payload, upto - n, appended.skip(appended.len() - bk))
                &&& spec_flush_tail_ok(reg, appended.skip(appended.len() - bk).skip(6))
            })
        ||| (appended.len() >= 2 && upto > 0 && appended[appended.len() - 2] == rd(
            reg,
            socketn::STATUS,
            seq![0x22u8],
        ) && is_reg_read(reg, socketn::TX_FREE_SIZE, 2, appended[appended.len() - 1])
            && spec_data_u16(appended[appended.len() - 1]) == 0 && spec_send_batches(
            reg,
            txb,
            payload,
            upto,
            appended.take(appended.len() - 2),
        ))
    }
}

impl UdpSocket {
    /// Send all of `send_buffer`, batch by batch, each batch as large as the
    /// TX buffer's free space allows.  A mid-send round that finds no TX
    /// space after earlier progress waits and retries; no space at the very
    /// start is `BufferFull`.  On success the payloads written to the
    /// socket's TX buffer, concatenated in order, are exactly the buffer,
    /// and the trace decomposes into committed, completion-polled batches.
    #[verifier::rlimit(100)]
    pub fn socket_send_all<B: Bus>(&self, bus: &mut B, send_buffer: &Vec<u8>) -> (r: NbResult<
        (),
        UdpSocketError<B::Error>,
    >)
        requires
            self.wf(),
        ensures
            ({
                let appended = appended_ops(old(bus).ops(), final (bus).ops());
                let reg = self.socket.spec_register();
                let txb = self.socket.spec_tx_buffer();
                let k = appended.len();
                &&& extends(old(bus).ops(), final (bus).ops())
                &&& touches_only(appended, Set::empty().insert(reg).insert(txb))
                &&& spec_tx_prefix(txb, send_buffer@, 0, appended)
                &&& (r matches Ok(_) ==> tx_buffer_writes(txb, appended) == send_buffer@
                    && spec_send_batches(reg, txb, send_buffer@, send_buffer@.len() as int, appended))
                &&& (r matches Err(e) ==> match e {
                    NbError::WouldBlock => k >= 2 && ((appended[k - 2] == rd(
                        reg,
                        socketn::STATUS,
                        seq![0x22u8],
                    ) && is_reg_read(reg, socketn::TX_FREE_SIZE, 2, appended[k - 1])
                        && spec_data_u16(appended[k - 1]) == 0) || is_send_poll_read(
                        reg,
                        appended[k - 1],
                    ) || appended[k - 1] == wr(reg, socketn::COMMAND, seq![0x20u8])),
                    NbError::Other(ue) => match ue {
                        UdpSocketError::SocketNotOpen => k >= 1 && is_reg_read(
                            reg,
                            socketn::STATUS,
                            1,
                            appended[k - 1],
                        ) && (Status::spec_from_u8(appended[k - 1].data()[0]) matches Some(st)
                            && st != Status::Udp),
                        UdpSocketError::UnrecognisedStatus => k >= 1 && is_reg_read(
                            reg,
                            socketn::STATUS,
                            1,
                            appended[k - 1],
                        ) && Status::spec_from_u8(appended[k - 1].data()[0]) is None,
                        UdpSocketError::DestinationNotSet => k >= 1 && appended[k - 1] == rd(
                            reg,
                            socketn::STATUS,
                            seq![0x22u8],
                        ) && self.destination is None,
                        UdpSocketError::BufferFull => k >= 2 && appended[k - 2] == rd(
                            reg,
                            socketn::STATUS,
                            seq![0x22u8],
                        ) && appended[k - 1] == rd(reg, socketn::TX_FREE_SIZE, spec_be2(0))
                            && tx_buffer_writes(txb, appended) == Seq::<u8>::empty(),
                        UdpSocketError::WriteTimeout => k >= 4 && spec_flush_tail_timeout(
                            reg,
                            appended.skip(k - 4),
                        ),
                        UdpSocketError::Other(_) => true,
                        _ => false,
                    },
                })
            }),
    {
        let ghost base = bus.ops();
        let ghost mut appended: Seq<BusOp> = Seq::empty();
        let ghost blocks = Set::empty().insert(self.socket.spec_register()).insert(
            self.socket.spec_tx_buffer(),
        );
        proof {
            assert(base + appended =~= base);
            assert(send_buffer@.take(0) =~= Seq::<u8>::empty());
            assert(send_buffer@.subrange(0, 0) =~= Seq::<u8>::empty());
        }
        let mut total_sent: usize = 0;
        let mut stalls: u32 = POLL_ATTEMPTS;
        while total_sent < send_buffer.len()
            invariant
                self.wf(),
                total_sent <= send_buffer@.len(),
                base == old(bus).ops(),
                bus.ops() == base + appended,
                blocks == Set::empty().insert(self.socket.spec_register()).insert(
                    self.socket.spec_tx_buffer(),
                ),
                touches_only(appended, blocks),
                tx_buffer_writes(self.socket.spec_tx_buffer(), appended) == send_buffer@.take(
                    total_sent as int,
                ),
                spec_send_batches(
                    self.socket.spec_register(),
                    self.socket.spec_tx_buffer(),
                    send_buffer@,
                    total_sent as int,
                    appended,
                ),
            decreases send_buffer@.len() - total_sent, stalls,
        {
            let ghost mid = bus.ops();
            let ghost pre_batch = appended;
            let ghost reg = self.socket.spec_register();
            let ghost txb = self.socket.spec_tx_buffer();
            match self.socket_send(bus, send_buffer, total_sent) {
                Ok(sent) => {
                    proof {
                        let batch = appended_ops(mid, bus.ops());
                        assert(bus.ops() =~= base + (pre_batch + batch));
                        appended = pre_batch + batch;
                        assert forall|i: int|
                            0 <= i < appended.len() implies blocks.contains(
                            #[trigger] appended[i].block(),
                        ) by {
                            if i < pre_batch.len() {
                                assert(blocks.contains(pre_batch[i].block()));
                            } else {
                                assert(blocks.contains(batch[i - pre_batch.len()].block()));
                            }
                        }
                        lemma_tx_writes_concat(txb, pre_batch, batch);
                        assert(tx_buffer_writes(txb, appended) =~= send_buffer@.take(
                            total_sent + sent,
                        ));
                        let upto = total_sent + sent as int;
                        let bk = batch.len() as int;
                        let nn = sent as int;
                        assert(appended.take(appended.len() - bk) =~= pre_batch);
                        assert(appended.skip(appended.len() - bk) =~= batch);
                        assert(spec_send_commit(reg, txb, send_buffer@, total_sent as int, batch));
                        assert(batch.len() >= 6);
                        assert(batch.skip(6).len() >= 4);
                        assert(6 <= bk <= appended.len());
                        assert(spec_data_u16(batch[1]) > 0);
                        assert(0 < nn <= upto);
                        assert(nn == vstd::math::min(
                            spec_data_u16(appended.skip(appended.len() - bk)[1]) as int,
                            send_buffer@.len() - (upto - nn),
                        ));
                        assert(spec_send_batches(
                            reg,
                            txb,
                            send_buffer@,
                            upto - nn,
                            appended.take(appended.len() - bk),
                        ));
                        assert(spec_send_commit(
                            reg,
                            txb,
                            send_buffer@,
                            upto - nn,
                            appended.skip(appended.len() - bk),
                        ));
                        assert(spec_flush_tail_ok(reg, appended.skip(appended.len() - bk).skip(6)));
                        assert(appended.take(appended.len() - bk) =~= pre_batch);
                        assert(send_buffer@.subrange(upto - nn, upto) =~= send_buffer@.subrange(
                            upto - nn,
                            upto,
                        ));
                        assert(spec_send_batches(reg, txb, send_buffer@, upto, appended));
                    }
                    total_sent = total_sent + sent;
                    stalls = POLL_ATTEMPTS;
                },
                Err(e) => {
                    let retry: bool = match &e {
                        NbError::Other(UdpSocketError::BufferFull) => total_sent > 0,
                        _ => false,
                    };
                    proof {
                        let batch = appended_ops(mid, bus.ops());
                        assert(bus.ops() =~= base + (pre_batch + batch));
                        appended = pre_batch + batch;
                        assert forall|i: int|
                            0 <= i < appended.len() implies blocks.contains(
                            #[trigger] appended[i].block(),
                        ) by {
                            if i < pre_batch.len() {
                                assert(blocks.contains(pre_batch[i].block()));
                            } else {
                                assert(blocks.contains(batch[i - pre_batch.len()].block()));
                            }
                        }
                        lemma_tx_writes_concat(txb, pre_batch, batch);
                    }
                    if retry {
                        proof {
                            let batch = appended_ops(mid, bus.ops());
                            assert(batch.len() == 2);
                            lemma_tx_writes_none(txb, batch);
                            assert(tx_buffer_writes(txb, appended) =~= send_buffer@.take(
                                total_sent as int,
                            ));
                            assert(appended.take(appended.len() - 2) =~= pre_batch);
                            assert(appended[appended.len() - 2] == batch[0]);
                            assert(appended[appended.len() - 1] == batch[1]);
                            assert(spec_be2(0) =~= seq![0u8, 0u8]);
                            assert(spec_data_u16(appended[appended.len() - 1]) == 0);
                            assert(spec_send_batches(
                                reg,
                                txb,
                                send_buffer@,
                                total_sent as int,
                                appended,
                            ));
                        }
                        if stalls == 0 {
                            proof {
                                lemma_return_shape(base, appended, bus.ops());
                                lemma_send_all_prefix(
                                    txb,
                                    send_buffer@,
                                    total_sent as int,
                                    pre_batch,
                                    appended_ops(mid, bus.ops()),
                                );
                            }
                            return Err(NbError::WouldBlock);
                        }
                        stalls = stalls - 1;
                    } else {
                        proof {
                            let batch = appended_ops(mid, bus.ops());
                            lemma_return_shape(base, appended, bus.ops());
                            lemma_send_all_prefix(
                                txb,
                                send_buffer@,
                                total_sent as int,
                                pre_batch,
                                batch,
                            );
                            let k = appended.len();
                            match e {
                                NbError::WouldBlock => {
                                    if batch.len() > 6 {
                                        assert(is_send_poll_read(
                                            reg,
                                            batch.skip(6)[batch.len() - 7],
                                        ));
                                        assert(appended[k - 1] == batch[batch.len() - 1]);
                                    } else {
                                        assert(batch.len() == 6);
                                        assert(appended[k - 1] == batch[5]);
                                    }
                                },
                                NbError::Other(UdpSocketError::WriteTimeout) => {
                                    let t = batch.skip(6);
                                    let l4 = appended.skip(k - 4);
                                    assert(l4 =~= t.skip(t.len() - 4));
                                    assert(l4.len() == 4);
                                    assert(l4[0] == t[t.len() - 4] && l4[1] == t[t.len() - 3]
                                        && l4[2] == t[t.len() - 2] && l4[3] == t[t.len() - 1]);
                                    assert forall|i: int|
                                        0 <= i < 3 implies is_send_poll_read(
                                        reg,
                                        #[trigger] l4.take(3)[i],
                                    ) by {
                                        assert(l4.take(3)[i] == t[t.len() - 4 + i]);
                                        assert(is_send_poll_read(
                                            reg,
                                            t.take(t.len() - 1)[t.len() - 4 + i],
                                        ));
                                    }
                                    assert(spec_flush_tail_timeout(reg, l4));
                                },
                                NbError::Other(UdpSocketError::BufferFull) => {
                                    assert(total_sent == 0);
                                    assert(batch.len() == 2);
                                    lemma_tx_writes_none(txb, batch);
                                    assert(tx_buffer_writes(txb, appended)
                                        =~= Seq::<u8>::empty());
                                    assert(appended[k - 2] == batch[0]);
                                    assert(appended[k - 1] == batch[1]);
                                },
                                NbError::Other(_) => {
                                    if batch.len() >= 1 {
                                        assert(appended[k - 1] == batch[batch.len() - 1]);
                                    }
                                },
                            }
                        }
                        return Err(e);
                    }
                },
            }
        }
        proof {
            lemma_return_shape(base, appended, bus.ops());
            assert(send_buffer@.take(send_buffer@.len() as int) =~= send_buffer@);
            assert(send_buffer@.subrange(0, send_buffer@.len() as int) =~= send_buffer@);
        }
        Ok(())
    }

    /// Set the destination — writing it only when it differs from the cached
    /// one — then send all of `send_buffer` batch by batch.
    #[verifier::rlimit(100)]
    pub fn socket_send_to<B: Bus>(
        &mut self,
        bus: &mut B,
        remote: SocketAddrV4,
        send_buffer: &Vec<u8>,
    ) -> (r: NbResult<(), UdpSocketError<B::Error>>)
        requires
            old(self).wf(),
        ensures
            final (self).wf(),
            final (self).socket == old(self).socket,
            ({
                let appended = appended_ops(old(bus).ops(), final (bus).ops());
                let reg = old(self).socket.spec_register();
                let txb = old(self).socket.spec_tx_buffer();
                let k = appended.len();
                let wrote_dest: bool = match old(self).destination {
                    Some(dest) => !(dest.ip.octets@ == remote.ip.octets@ && dest.port
                        == remote.port),
                    None => true,
                };
                let d: int = if wrote_dest {
                    2
                } else {
                    0
                };
                &&& extends(old(bus).ops(), final (bus).ops())
                &&& touches_only(appended, Set::empty().insert(reg).insert(txb))
                &&& spec_tx_prefix(txb, send_buffer@, 0, appended)
                &&& (r matches Ok(_) ==> (k >= d && (wrote_dest ==> appended.take(2)
                    == spec_destination_writes(reg, remote)) && spec_send_batches(
                    reg,
                    txb,
                    send_buffer@,
                    send_buffer@.len() as int,
                    appended.skip(d),
                ) && tx_buffer_writes(txb, appended) == send_buffer@ && final (self).destination
                    == Some(remote)))
                &&& (r matches Err(e) ==> match e {
                    NbError::WouldBlock => k >= 2 && ((appended[k - 2] == rd(
                        reg,
                        socketn::STATUS,
                        seq![0x22u8],
                    ) && is_reg_read(reg, socketn::TX_FREE_SIZE, 2, appended[k - 1])
                        && spec_data_u16(appended[k - 1]) == 0) || is_send_poll_read(
                        reg,
                        appended[k - 1],
                    ) || appended[k - 1] == wr(reg, socketn::COMMAND, seq![0x20u8])),
                    NbError::Other(ue) => match ue {
                        UdpSocketError::SocketNotOpen => k >= 1 && is_reg_read(
                            reg,
                            socketn::STATUS,
                            1,
                            appended[k - 1],
                        ) && (Status::spec_from_u8(appended[k - 1].data()[0]) matches Some(st)
                            && st != Status::Udp),
                        UdpSocketError::UnrecognisedStatus => k >= 1 && is_reg_read(
                            reg,
                            socketn::STATUS,
                            1,
                            appended[k - 1],
                        ) && Status::spec_from_u8(appended[k - 1].data()[0]) is None,
                        UdpSocketError::DestinationNotSet => false,
                        UdpSocketError::BufferFull => k >= 2 && appended[k - 2] == rd(
                            reg,
                            socketn::STATUS,
                            seq![0x22u8],
                        ) && appended[k - 1] == rd(reg, socketn::TX_FREE_SIZE, spec_be2(0))
                            && tx_buffer_writes(txb, appended) == Seq::<u8>::empty(),
                        UdpSocketError::WriteTimeout => k >= 4 && spec_flush_tail_timeout(
                            reg,
                            appended.skip(k - 4),
                        ),
                        UdpSocketError::Other(_) => true,
                        _ => false,
                    },
                })
            }),
    {
        let ghost base = bus.ops();
        let ghost reg = self.socket.spec_register();
        let ghost txb = self.socket.spec_tx_buffer();
        match self.set_destination(bus, remote) {
            Ok(_) => (),
            Err(e) => {
                proof {
                    let dst = appended_ops(base, bus.ops());
                    assert(bus.ops() =~= base + dst);
                    lemma_return_shape(base, dst, bus.ops());
                    assert forall|i: int|
                        0 <= i < dst.len() implies !(#[trigger] dst[i]).is_write() || dst[i].block()
                        != txb by {
                        assert(Set::empty().insert(reg).contains(dst[i].block()));
                    }
                    lemma_tx_prefix_empty(txb, send_buffer@, 0, dst);
                }
                return Err(NbError::Other(e));
            },
        }
        let ghost mid = bus.ops();
        let ghost dst = appended_ops(base, bus.ops());
        let r = self.socket_send_all(bus, send_buffer);
        proof {
            let part = appended_ops(mid, bus.ops());
            let appended = dst + part;
            assert(bus.ops() =~= base + appended);
            lemma_return_shape(base, appended, bus.ops());
            let blocks = Set::empty().insert(reg).insert(txb);
            assert forall|i: int|
                0 <= i < appended.len() implies blocks.contains(
                #[trigger] appended[i].block(),
            ) by {
                if i < dst.len() {
                    assert(Set::empty().insert(reg).contains(dst[i].block()));
                } else {
                    assert(blocks.contains(part[i - dst.len()].block()));
                }
            }
            assert forall|i: int|
                0 <= i < dst.len() implies !(#[trigger] dst[i]).is_write() || dst[i].block()
                != txb by {
                assert(Set::empty().insert(reg).contains(dst[i].block()));
            }
            lemma_tx_writes_none(txb, dst);
            assert(send_buffer@.take(0) =~= Seq::<u8>::empty());
            lemma_send_all_prefix(txb, send_buffer@, 0, dst, part);
            let k = appended.len();
            let kp = part.len() as int;
            assert(appended.skip(dst.len() as int) =~= part);
            assert(dst.len() == 0 || dst.len() == 2);
            if dst.len() == 2 {
                assert(appended.take(2) =~= dst);
            }
            match &r {
                Ok(_) => {
                    lemma_tx_writes_concat(txb, dst, part);
                    assert(tx_buffer_writes(txb, appended) =~= send_buffer@);
                },
                Err(e) => {
                    match e {
                        NbError::WouldBlock => {
                            assert(appended[k - 1] == part[kp - 1]);
                            assert(appended[k - 2] == part[kp - 2]);
                        },
                        NbError::Other(ue) => {
                            match ue {
                                UdpSocketError::SocketNotOpen
                                | UdpSocketError::UnrecognisedStatus => {
                                    assert(appended[k - 1] == part[kp - 1]);
                                },
                                UdpSocketError::DestinationNotSet => {
                                    assert(false);
                                },
                                UdpSocketError::BufferFull => {
                                    assert(appended[k - 1] == part[kp - 1]);
                                    assert(appended[k - 2] == part[kp - 2]);
                                    lemma_tx_writes_concat(txb, dst, part);
                                    assert(tx_buffer_writes(txb, appended)
                                        =~= Seq::<u8>::empty());
                                },
                                UdpSocketError::WriteTimeout => {
                                    assert(appended.skip(k - 4) =~= part.skip(kp - 4));
                                },
                                _ => {},
                            }
                        },
                    }
                },
            }
        }
        r
    }

    /// Close the socket: select the closed protocol and issue CLOSE.
    pub fn socket_close<B: Bus>(&self, bus: &mut B) -> (r: Result<(), UdpSocketError<B::Error>>)
        requires
            self.wf(),
        ensures
            extends(old(bus).ops(), final (bus).ops()),
            touches_only(
                appended_ops(old(bus).ops(), final (bus).ops()),
                Set::empty().insert(self.socket.spec_register()),
            ),
            r matches Ok(_) ==> final (bus).ops() == old(bus).ops() + seq![
                wr(self.socket.spec_register(), socketn::MODE, seq![0x00u8]),
                wr(self.socket.spec_register(), socketn::COMMAND, seq![0x10u8]),
            ],
            r matches Err(e) ==> e is Other,
    {
        let ghost base = bus.ops();
        match self.socket.set_mode(bus, socketn::Protocol::Closed) {
            Ok(_) => (),
            Err(e) => {
                proof {
                    assert(bus.ops() =~= base + bus.ops().skip(base.len() as int));
                }
                return Err(UdpSocketError::Other(e));
            },
        }
        match self.socket.command(bus, socketn::Command::Close) {
            Ok(_) => (),
            Err(e) => {
                proof {
                    assert(bus.ops() =~= base + bus.ops().skip(base.len() as int));
                }
                return Err(UdpSocketError::Other(e));
            },
        }
        proof {
            assert(bus.ops() =~= base + seq![
                wr(self.socket.spec_register(), socketn::MODE, seq![0x00u8]),
                wr(self.socket.spec_register(), socketn::COMMAND, seq![0x10u8]),
            ]);
            assert(bus.ops() =~= base + bus.ops().skip(base.len() as int));
        }
        Ok(())
    }
}

/// The trace of a UDP receive that had nothing to hand out: the status read
/// showing UDP, the interrupt read, and then — only when the RECV bit was
/// set — received-size samples that either never settled on a pair or
/// settled at zero.
pub open spec fn spec_udp_recv_blocked(reg: u8, appended: Seq<BusOp>) -> bool {
    let k = appended.len();
    &&& k >= 2
    &&& appended[0] == rd(reg, socketn::STATUS, seq![0x22u8])
    &&& is_reg_read(reg, socketn::INTERRUPT, 1, appended[1])
    &&& all_rsr_samples(reg, appended.skip(2))
    &&& (appended[1].data()[0] & 0x04 == 0 ==> k == 2)
    &&& (appended[1].data()[0] & 0x04 != 0 ==> (sample_pairs_disagree(appended.skip(2)) || (k >= 4
        && appended[k - 1] == appended[k - 2] && appended[k - 1] == rd(
        reg,
        socketn::RECEIVED_SIZE,
        spec_be2(0),
    ))))
}

/// The trace of a UDP receive refused for want of room: a datagram is
/// pending — the RECV bit was set and the received size settled above zero —
/// but the caller offered no room at all.
pub open spec fn spec_udp_recv_overflow(reg: u8, appended: Seq<BusOp>) -> bool {
    let k = appended.len();
    &&& k >= 4
    &&& appended[0] == rd(reg, socketn::STATUS, seq![0x22u8])
    &&& is_reg_read(reg, socketn::INTERRUPT, 1, appended[1])
    &&& appended[1].data()[0] & 0x04 != 0
    &&& all_rsr_samples(reg, appended.skip(2))
    &&& appended[k - 1] == appended[k - 2]
    &&& is_reg_read(reg, socketn::RECEIVED_SIZE, 2, appended[k - 1])
    &&& spec_data_u16(appended[k - 1]) > 0
}

/// The frames of a completed UDP receive.  After the status read showing UDP
/// and the interrupt read with RECV set come the stability samples of the
/// received size, ending in a stable pair carrying `s > 0`; then the read of
/// the RX read pointer `rp`, the eight header bytes read at `rp`, the payload
/// read at `rp + 8` of min(header length, buffer room) bytes, the pointer
/// advanced by exactly `s` modulo 2^16 — however much of the datagram the
/// caller could take — the RECV command, and the interrupt clear.
pub open spec fn spec_udp_receive_trace(
    reg: u8,
    rxb: u8,
    max_len: int,
    data: Seq<u8>,
    header: UdpHeader,
    appended: Seq<BusOp>,
) -> bool {
    let k = appended.len();
    let s = spec_data_u16(appended[k - 7]);
    let rp = spec_data_u16(appended[k - 6]);
    let hdr = appended[k - 5].data();
    &&& k >= 10
    &&& appended[0] == rd(reg, socketn::STATUS, seq![0x22u8])
    &&& is_reg_read(reg, socketn::INTERRUPT, 1, appended[1])
    &&& appended[1].data()[0] & 0x04 != 0
    &&& all_rsr_samples(reg, appended.subrange(2, k - 6))
    &&& appended[k - 8] == appended[k - 7]
    &&& s > 0
    &&& is_reg_read(reg, socketn::RX_DATA_READ_POINTER, 2, appended[k - 6])
    &&& !appended[k - 5].is_write() && appended[k - 5].block() == rxb && appended[k - 5].address()
        == rp && hdr.len() == 8
    &&& header.origin == SocketAddrV4::spec_from_header(hdr)
    &&& header.len == spec_u16(hdr[6], hdr[7])
    &&& !appended[k - 4].is_write() && appended[k - 4].block() == rxb && appended[k - 4].address()
        == add16(rp, 8) && appended[k - 4].data() == data
    &&& data.len() == vstd::math::min(header.len as int, max_len)
    &&& appended[k - 3] == wr(reg, socketn::RX_DATA_READ_POINTER, spec_be2(add16(rp, s as int)))
    &&& appended[k - 2] == wr(reg, socketn::COMMAND, seq![0x40u8])
    &&& appended[k - 1] == wr(reg, socketn::INTERRUPT, seq![0x04u8])
}

impl UdpSocket {
    /// Receive one pending datagram, copying at most `max_len` payload bytes;
    /// the chip-prepended header names the origin and the full payload
    /// length.  An oversize datagram is truncated, never re-read: the RX read
    /// pointer advances over all of it.  Would-block is returned when the
    /// RECV interrupt is clear, when the received size has not settled, or
    /// when it is zero.
    #[verifier::rlimit(60)]
    pub fn socket_receive<B: Bus>(&self, bus: &mut B, max_len: usize) -> (r: NbResult<
        (Vec<u8>, UdpHeader),
        UdpSocketError<B::Error>,
    >)
        requires
            self.wf(),
        ensures
            ({
                let appended = appended_ops(old(bus).ops(), final (bus).ops());
                let reg = self.socket.spec_register();
                let rxb = self.socket.spec_rx_buffer();
                &&& extends(old(bus).ops(), final (bus).ops())
                &&& touches_only(appended, Set::empty().insert(reg).insert(rxb))
                &&& (r matches Ok(out) ==> spec_udp_receive_trace(
                    reg,
                    rxb,
                    max_len as int,
                    out.0@,
                    out.1,
                    appended,
                ))
                &&& (r matches Err(e) ==> match e {
                    NbError::WouldBlock => spec_udp_recv_blocked(reg, appended),
                    NbError::Other(ue) => match ue {
                        UdpSocketError::SocketNotOpen => appended.len() == 1 && is_reg_read(
                            reg,
                            socketn::STATUS,
                            1,
                            appended[0],
                        ) && (Status::spec_from_u8(appended[0].data()[0]) matches Some(st) && st
                            != Status::Udp),
                        UdpSocketError::UnrecognisedStatus => appended.len() == 1 && is_reg_read(
                            reg,
                            socketn::STATUS,
                            1,
                            appended[0],
                        ) && Status::spec_from_u8(appended[0].data()[0]) is None,
                        UdpSocketError::BufferOverflow => max_len == 0 && spec_udp_recv_overflow(
                            reg,
                            appended,
                        ),
                        UdpSocketError::Other(_) => true,
                        _ => false,
                    },
                })
            }),
    {
        let ghost base = bus.ops();
        let reg = self.socket.register();
        let status_byte = match self.socket.get_status(bus) {
            Ok(v) => v,
            Err(e) => {
                proof {
                    assert(base + Seq::<BusOp>::empty() =~= base);
                    lemma_return_shape(base, Seq::empty(), bus.ops());
                }
                return Err(NbError::Other(UdpSocketError::Other(e)));
            },
        };
        let ghost op0 = rd(reg, socketn::STATUS, seq![status_byte]);
        match Status::from_u8(status_byte) {
            Some(Status::Udp) => (),
            Some(_) => {
                proof {
                    assert(base.push(op0) =~= base + seq![op0]);
                    lemma_return_shape(base, seq![op0], bus.ops());
                }
                return Err(NbError::Other(UdpSocketError::SocketNotOpen));
            },
            None => {
                proof {
                    assert(base.push(op0) =~= base + seq![op0]);
                    lemma_return_shape(base, seq![op0], bus.ops());
                }
                return Err(NbError::Other(UdpSocketError::UnrecognisedStatus));
            },
        }
        let ir = match self.socket.get_interrupt(bus) {
            Ok(v) => v,
            Err(e) => {
                proof {
                    assert(base.push(op0) =~= base + seq![op0]);
                    lemma_return_shape(base, seq![op0], bus.ops());
                }
                return Err(NbError::Other(UdpSocketError::Other(e)));
            },
        };
        let ghost op1 = rd(reg, socketn::INTERRUPT, seq![ir]);
        proof {
            assert(base.push(op0).push(op1) =~= base + seq![op0, op1]);
        }
        if ir & 0x04 == 0 {
            proof {
                lemma_return_shape(base, seq![op0, op1], bus.ops());
                assert(seq![op0, op1].skip(2) =~= Seq::<BusOp>::empty());
            }
            return Err(NbError::WouldBlock);
        }
        let ghost mid = bus.ops();
        let rx_size = match self.socket.get_receive_size(bus) {
            Ok(Some(v)) => v,
            Ok(None) => {
                proof {
                    let samples = appended_ops(mid, bus.ops());
                    assert(bus.ops() =~= base + (seq![op0, op1] + samples));
                    lemma_return_shape(base, seq![op0, op1] + samples, bus.ops());
                    assert((seq![op0, op1] + samples).skip(2) =~= samples);
                    assert(sample_pairs_disagree(samples));
                }
                return Err(NbError::WouldBlock);
            },
            Err(e) => {
                proof {
                    let samples = appended_ops(mid, bus.ops());
                    assert(bus.ops() =~= base + (seq![op0, op1] + samples));
                    lemma_return_shape(base, seq![op0, op1] + samples, bus.ops());
                }
                return Err(NbError::Other(UdpSocketError::Other(e)));
            },
        };
        let ghost samples = appended_ops(mid, bus.ops());
        proof {
            assert(bus.ops() =~= base + (seq![op0, op1] + samples));
        }
        if rx_size == 0 {
            proof {
                lemma_return_shape(base, seq![op0, op1] + samples, bus.ops());
                let appended = seq![op0, op1] + samples;
                assert(appended.skip(2) =~= samples);
                assert(appended[appended.len() - 1] == samples[samples.len() - 1]);
                assert(appended[appended.len() - 2] == samples[samples.len() - 2]);
                assert(appended[appended.len() - 1] == rd(
                    reg,
                    socketn::RECEIVED_SIZE,
                    spec_be2(0),
                ));
            }
            return Err(NbError::WouldBlock);
        }
        if max_len == 0 {
            proof {
                lemma_return_shape(base, seq![op0, op1] + samples, bus.ops());
                let appended = seq![op0, op1] + samples;
                assert(appended.skip(2) =~= samples);
                assert(appended[appended.len() - 1] == samples[samples.len() - 1]);
                assert(appended[appended.len() - 2] == samples[samples.len() - 2]);
                crate::frame::lemma_be2_roundtrip(0, 0, rx_size);
                assert(spec_data_u16(appended[appended.len() - 1]) == rx_size);
            }
            return Err(NbError::Other(UdpSocketError::BufferOverflow));
        }
        let read_pointer = match self.socket.get_rx_read_pointer(bus) {
            Ok(v) => v,
            Err(e) => {
                proof {
                    lemma_return_shape(base, seq![op0, op1] + samples, bus.ops());
                }
                return Err(NbError::Other(UdpSocketError::Other(e)));
            },
        };
        let ghost op_rp = rd(reg, socketn::RX_DATA_READ_POINTER, spec_be2(read_pointer));
        proof {
            assert(bus.ops() =~= base + (seq![op0, op1] + samples + seq![op_rp]));
        }
        let header_bytes = match bus.read_frame(self.socket.rx_buffer(), read_pointer, 8) {
            Ok(v) => v,
            Err(e) => {
                proof {
                    lemma_return_shape(base, seq![op0, op1] + samples + seq![op_rp], bus.ops());
                }
                return Err(NbError::Other(UdpSocketError::Other(e)));
            },
        };
        let ghost op_hdr = rd(self.socket.spec_rx_buffer(), read_pointer, header_bytes@);
        proof {
            assert(bus.ops() =~= base + (seq![op0, op1] + samples + seq![op_rp, op_hdr]));
        }
        let origin = SocketAddrV4::new(
            crate::net::Ipv4Addr::new(
                header_bytes[0],
                header_bytes[1],
                header_bytes[2],
                header_bytes[3],
            ),
            crate::frame::u16_from_be(header_bytes[4], header_bytes[5]),
        );
        let packet_len = crate::frame::u16_from_be(header_bytes[6], header_bytes[7]) as usize;
        let header = UdpHeader { origin, len: packet_len };
        let n: usize = if packet_len < max_len {
            packet_len
        } else {
            max_len
        };
        let data_pointer = crate::frame::wrap_add16(read_pointer, 8);
        let data = match bus.read_frame(self.socket.rx_buffer(), data_pointer, n) {
            Ok(v) => v,
            Err(e) => {
                proof {
                    lemma_return_shape(base, seq![op0, op1] + samples + seq![op_rp, op_hdr], bus.ops());
                }
                return Err(NbError::Other(UdpSocketError::Other(e)));
            },
        };
        let ghost op_data = rd(self.socket.spec_rx_buffer(), add16(read_pointer as int as u16, 8), data@);
        proof {
            assert(bus.ops() =~= base + (seq![op0, op1] + samples + seq![op_rp, op_hdr, op_data]));
        }
        let new_read_pointer = crate::frame::wrap_add16(read_pointer, rx_size);
        match self.socket.set_rx_read_pointer(bus, new_read_pointer) {
            Ok(_) => (),
            Err(e) => {
                proof {
                    lemma_return_shape(
                        base,
                        seq![op0, op1] + samples + seq![op_rp, op_hdr, op_data],
                        bus.ops(),
                    );
                }
                return Err(NbError::Other(UdpSocketError::Other(e)));
            },
        }
        let ghost op_wrp = wr(
            reg,
            socketn::RX_DATA_READ_POINTER,
            spec_be2(add16(read_pointer, rx_size as int)),
        );
        proof {
            assert(bus.ops() =~= base + (seq![op0, op1] + samples + seq![
                op_rp,
                op_hdr,
                op_data,
                op_wrp,
            ]));
        }
        match self.socket.command(bus, socketn::Command::Receive) {
            Ok(_) => (),
            Err(e) => {
                proof {
                    lemma_return_shape(
                        base,
                        seq![op0, op1] + samples + seq![op_rp, op_hdr, op_data, op_wrp],
                        bus.ops(),
                    );
                }
                return Err(NbError::Other(UdpSocketError::Other(e)));
            },
        }
        let ghost op_cmd = wr(reg, socketn::COMMAND, seq![0x40u8]);
        proof {
            assert(bus.ops() =~= base + (seq![op0, op1] + samples + seq![
                op_rp,
                op_hdr,
                op_data,
                op_wrp,
                op_cmd,
            ]));
        }
        match self.socket.reset_interrupt(bus, socketn::Interrupt::Receive) {
            Ok(_) => (),
            Err(e) => {
                proof {
                    lemma_return_shape(
                        base,
                        seq![op0, op1] + samples + seq![op_rp, op_hdr, op_data, op_wrp, op_cmd],
                        bus.ops(),
                    );
                }
                return Err(NbError::Other(UdpSocketError::Other(e)));
            },
        }
        let ghost op_int = wr(reg, socketn::INTERRUPT, seq![0x04u8]);
        proof {
            let appended = seq![op0, op1] + samples + seq![
                op_rp,
                op_hdr,
                op_data,
                op_wrp,
                op_cmd,
                op_int,
            ];
            assert(bus.ops() =~= base + appended);
            lemma_return_shape(base, appended, bus.ops());
            let k = appended.len();
            let m = samples.len();
            assert(m >= 2);
            assert(k == m + 8);
            assert(appended.subrange(2, k - 6) =~= samples);
            assert(appended[k - 7] == samples[m - 1]);
            assert(appended[k - 8] == samples[m - 2]);
            crate::frame::lemma_be2_roundtrip(0, 0, rx_size);
            crate::frame::lemma_be2_roundtrip(0, 0, read_pointer);
            assert(spec_data_u16(appended[k - 7]) == rx_size);
            assert(spec_data_u16(appended[k - 6]) == read_pointer);
            crate::frame::lemma_be2_roundtrip(header_bytes@[4], header_bytes@[5], 0);
            crate::frame::lemma_be2_roundtrip(header_bytes@[6], header_bytes@[7], 0);
            assert(header.origin == SocketAddrV4::spec_from_header(header_bytes@));
            assert(spec_udp_receive_trace(
                self.socket.spec_register(),
                self.socket.spec_rx_buffer(),
                max_len as int,
                data@,
                header,
                appended,
            ));
        }
        Ok((data, header))
    }
}

/// The UDP open writes followed by status polls address only the socket's
/// register block.
pub proof fn lemma_open_trace_blocks(reg: u8, writes: Seq<BusOp>, polls: Seq<BusOp>, port: u16)
    requires
        writes == spec_udp_open_writes(reg, port),
        all_status_reads(reg, polls),
    ensures
        touches_only(writes + polls, Set::empty().insert(reg)),
{
    assert forall|i: int| 0 <= i < (writes + polls).len() implies (Set::empty().insert(
        reg,
    )).contains(#[trigger] (writes + polls)[i].block()) by {
        if i < writes.len() {
            assert(writes[i].block() == reg);
        } else {
            assert(is_reg_read(reg, socketn::STATUS, 1, polls[i - writes.len()]));
        }
    }
}

/// At a return point the current trace extends the base it grew from, and its
/// appended part is exactly what was pushed since.
pub proof fn lemma_return_shape(base: Seq<BusOp>, tail: Seq<BusOp>, cur: Seq<BusOp>)
    requires
        cur == base + tail,
    ensures
        extends(base, cur),
        appended_ops(base, cur) == tail,
{
    assert(cur.skip(base.len() as int) =~= tail);
    assert(cur =~= base + cur.skip(base.len() as int));
}

} // verus!
