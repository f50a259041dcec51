//! The TCP client endpoint: open, connect, send, receive, disconnect and
//! close over one socket.

use vstd::prelude::*;

use crate::bus::{appended_ops, extends, rd, touches_only, wr, Bus, BusOp};
use crate::frame::{add16, spec_be2};
use crate::net::SocketAddrV4;
use crate::register::socketn;
use crate::register::socketn::Status;
use crate::socket::{
    all_interrupt_reads, all_rsr_samples, all_status_reads, is_reg_read, sample_pairs_disagree,
    spec_data_u16, Socket, POLL_ATTEMPTS,
};
use crate::udp::{lemma_return_shape, spec_destination_writes};
use crate::{NbError, NbResult};

verus! {

/// Why a TCP operation failed.
#[derive(Clone, Debug)]
pub enum TcpSocketError<E> {
    /// All eight sockets are taken.
    NoMoreSockets,
    /// The socket is not in the established state.
    NotConnected,
    /// Only IPv4 is supported.
    UnsupportedAddress,
    Other(E),
    /// The socket is in UDP or MACRAW mode, or its status byte names no
    /// known state; it must be re-opened before TCP can use it.
    UnsupportedMode,
}

/// A TCP endpoint over one socket.
#[derive(Debug)]
pub struct TcpSocket {
    pub socket: Socket,
}

/// The six frames that open a socket for TCP on a source port: CLOSE,
/// interrupt clear, the source port, the TCP protocol, the SEND_OK|TIMEOUT
/// interrupt mask, OPEN.
pub open spec fn spec_tcp_open_writes(reg: u8, port: u16) -> Seq<BusOp> {
    seq![
        wr(reg, socketn::COMMAND, seq![0x10u8]),
        wr(reg, socketn::INTERRUPT, seq![0xFFu8]),
        wr(reg, socketn::SOURCE_PORT, spec_be2(port)),
        wr(reg, socketn::MODE, seq![0x01u8]),
        wr(reg, socketn::INTERRUPT_MASK, seq![0x18u8]),
        wr(reg, socketn::COMMAND, seq![0x01u8]),
    ]
}

/// The TCP open writes followed by status polls address only the socket's
/// register block.
pub proof fn lemma_tcp_open_blocks(reg: u8, writes: Seq<BusOp>, polls: Seq<BusOp>, port: u16)
    requires
        writes == spec_tcp_open_writes(reg, port),
        all_status_reads(reg, polls),
    ensures
        touches_only(writes + polls, Set::empty().insert(reg)),
{
    assert forall|i: int| 0 <= i < (writes + polls).len() implies (Set::empty().insert(
        reg,
    )).contains(#[trigger] (writes + polls)[i].block()) by {
        if i < writes.len() {
            assert(writes[i].block() == reg);
        } else {
            assert(is_reg_read(reg, socketn::STATUS, 1, polls[i - writes.len()]));
        }
    }
}

/// The trace of a TCP receive that had nothing to hand out: the status read
/// showing ESTABLISHED, the interrupt read, and — only when the RECV bit was
/// set — received-size samples that never settled on a pair.
pub open spec fn spec_tcp_recv_blocked(reg: u8, appended: Seq<BusOp>) -> bool {
    let k = appended.len();
    &&& k >= 2
    &&& appended[0] == rd(reg, socketn::STATUS, seq![0x17u8])
    &&& is_reg_read(reg, socketn::INTERRUPT, 1, appended[1])
    &&& all_rsr_samples(reg, appended.skip(2))
    &&& (appended[1].data()[0] & 0x04 == 0 ==> k == 2)
    &&& (appended[1].data()[0] & 0x04 != 0 ==> sample_pairs_disagree(appended.skip(2)))
}

/// The two frames that close a socket: the closed protocol, then CLOSE.
pub open spec fn spec_tcp_close_ops(reg: u8) -> Seq<BusOp> {
    seq![
        wr(reg, socketn::MODE, seq![0x00u8]),
        wr(reg, socketn::COMMAND, seq![0x10u8]),
    ]
}

/// The five frames that re-open a socket for TCP without touching its source
/// port: CLOSE, interrupt clear, TCP mode, interrupt mask, OPEN.
pub open spec fn spec_tcp_reopen_ops(reg: u8) -> Seq<BusOp> {
    seq![
        wr(reg, socketn::COMMAND, seq![0x10u8]),
        wr(reg, socketn::INTERRUPT, seq![0xFFu8]),
        wr(reg, socketn::MODE, seq![0x01u8]),
        wr(reg, socketn::INTERRUPT_MASK, seq![0x18u8]),
        wr(reg, socketn::COMMAND, seq![0x01u8]),
    ]
}

impl TcpSocket {
    pub open spec fn wf(self) -> bool {
        self.socket.wf()
    }

    pub fn new(socket: Socket) -> (r: TcpSocket)
        requires
            socket.wf(),
        ensures
            r.wf(),
            r.socket == socket,
    {
        TcpSocket { socket }
    }

    /// Open the socket for TCP on `local_port`: close whatever was there,
    /// clear interrupts, set the source port, select the TCP protocol,
    /// unmask the SEND_OK and TIMEOUT interrupts, issue OPEN, then wait for
    /// the status register to reach the INIT state.  The wait gives up after
    /// [`POLL_ATTEMPTS`] reads; the trace shows which of the two happened.
    pub fn open<B: Bus>(&mut self, bus: &mut B, local_port: u16) -> (r: Result<
        (),
        TcpSocketError<B::Error>,
    >)
        requires
            old(self).wf(),
        ensures
            *final (self) == *old(self),
            extends(old(bus).ops(), final (bus).ops()),
            touches_only(
                appended_ops(old(bus).ops(), final (bus).ops()),
                Set::empty().insert(old(self).socket.spec_register()),
            ),
            r matches Err(e) ==> e is Other,
            r matches Ok(_) ==> ({
                let appended = appended_ops(old(bus).ops(), final (bus).ops());
                let k = appended.len();
                &&& k > 6
                &&& appended.take(6) == spec_tcp_open_writes(
                    old(self).socket.spec_register(),
                    local_port,
                )
                &&& all_status_reads(old(self).socket.spec_register(), appended.skip(6))
                &&& (forall|i: int| 6 <= i < k - 1 ==> (#[trigger] appended[i]).data()[0] != 0x13)
                &&& (appended[k - 1].data()[0] == 0x13 || k - 6 == POLL_ATTEMPTS)
            }),
    {
        let ghost base = bus.ops();
        match self.socket.command(bus, socketn::Command::Close) {
            Ok(_) => (),
            Err(e) => {
                proof {
                    assert(bus.ops() =~= base + bus.ops().skip(base.len() as int));
                }
                return Err(TcpSocketError::Other(e));
            },
        }
        match self.socket.reset_interrupt(bus, socketn::Interrupt::All) {
            Ok(_) => (),
            Err(e) => {
                proof {
                    assert(bus.ops() =~= base + bus.ops().skip(base.len() as int));
                }
                return Err(TcpSocketError::Other(e));
            },
        }
        match self.socket.set_source_port(bus, local_port) {
            Ok(_) => (),
            Err(e) => {
                proof {
                    assert(bus.ops() =~= base + bus.ops().skip(base.len() as int));
                }
                return Err(TcpSocketError::Other(e));
            },
        }
        match self.socket.set_mode(bus, socketn::Protocol::Tcp) {
            Ok(_) => (),
            Err(e) => {
                proof {
                    assert(bus.ops() =~= base + bus.ops().skip(base.len() as int));
                }
                return Err(TcpSocketError::Other(e));
            },
        }
        match self.socket.set_interrupt_mask(bus, 0x18) {
            Ok(_) => (),
            Err(e) => {
                proof {
                    assert(bus.ops() =~= base + bus.ops().skip(base.len() as int));
                }
                return Err(TcpSocketError::Other(e));
            },
        }
        match self.socket.command(bus, socketn::Command::Open) {
            Ok(_) => (),
            Err(e) => {
                proof {
                    assert(bus.ops() =~= base + bus.ops().skip(base.len() as int));
                }
                return Err(TcpSocketError::Other(e));
            },
        }
        let ghost writes = spec_tcp_open_writes(self.socket.spec_register(), local_port);
        proof {
            assert(bus.ops() =~= base + writes);
        }
        let ghost mut polls: Seq<BusOp> = Seq::empty();
        proof {
            assert(base + writes + polls =~= base + writes);
        }
        let mut attempts: u32 = POLL_ATTEMPTS;
        while attempts > 0
            invariant
                self.wf(),
                *self == *old(self),
                base == old(bus).ops(),
                bus.ops() == base + writes + polls,
                writes == spec_tcp_open_writes(self.socket.spec_register(), local_port),
                all_status_reads(self.socket.spec_register(), polls),
                forall|i: int| 0 <= i < polls.len() ==> (#[trigger] polls[i]).data()[0] != 0x13,
                polls.len() == POLL_ATTEMPTS - attempts,
            decreases attempts,
        {
            let status_byte = match self.socket.get_status(bus) {
                Ok(v) => v,
                Err(e) => {
                    proof {
                        assert(bus.ops() =~= base + (writes + polls));
                        lemma_return_shape(base, writes + polls, bus.ops());
                        lemma_tcp_open_blocks(
                            self.socket.spec_register(),
                            writes,
                            polls,
                            local_port,
                        );
                    }
                    return Err(TcpSocketError::Other(e));
                },
            };
            proof {
                let op = rd(self.socket.spec_register(), socketn::STATUS, seq![status_byte]);
                assert(base + writes + polls.push(op) =~= (base + writes + polls).push(op));
                polls = polls.push(op);
                assert forall|i: int| 0 <= i < polls.len() implies is_reg_read(
                    self.socket.spec_register(),
                    socketn::STATUS,
                    1,
                    #[trigger] polls[i],
                ) by {}
            }
            if status_byte == 0x13 {
                proof {
                    let appended = writes + polls;
                    assert(bus.ops() =~= base + appended);
                    lemma_return_shape(base, appended, bus.ops());
                    lemma_tcp_open_blocks(self.socket.spec_register(), writes, polls, local_port);
                    assert(appended.take(6) =~= writes);
                    assert(appended.skip(6) =~= polls);
                    assert(appended[appended.len() - 1].data() == seq![status_byte]);
                }
                return Ok(());
            }
            attempts = attempts - 1;
        }
        proof {
            let appended = writes + polls;
            assert(bus.ops() =~= base + appended);
            lemma_return_shape(base, appended, bus.ops());
            lemma_tcp_open_blocks(self.socket.spec_register(), writes, polls, local_port);
            assert(appended.take(6) =~= writes);
            assert(appended.skip(6) =~= polls);
        }
        Ok(())
    }

    /// Re-open the socket for TCP, keeping the configured source port.
    fn reopen<B: Bus>(&self, bus: &mut B) -> (r: Result<(), TcpSocketError<B::Error>>)
        requires
            self.wf(),
        ensures
            extends(old(bus).ops(), final (bus).ops()),
            touches_only(
                appended_ops(old(bus).ops(), final (bus).ops()),
                Set::empty().insert(self.socket.spec_register()),
            ),
            r matches Ok(_) ==> final (bus).ops() == old(bus).ops() + spec_tcp_reopen_ops(
                self.socket.spec_register(),
            ),
            r matches Err(e) ==> e is Other,
    {
        let ghost base = bus.ops();
        match self.socket.command(bus, socketn::Command::Close) {
            Ok(_) => (),
            Err(e) => {
                proof {
                    assert(bus.ops() =~= base + bus.ops().skip(base.len() as int));
                }
                return Err(TcpSocketError::Other(e));
            },
        }
        match self.socket.reset_interrupt(bus, socketn::Interrupt::All) {
            Ok(_) => (),
            Err(e) => {
                proof {
                    assert(bus.ops() =~= base + bus.ops().skip(base.len() as int));
                }
                return Err(TcpSocketError::Other(e));
            },
        }
        match self.socket.set_mode(bus, socketn::Protocol::Tcp) {
            Ok(_) => (),
            Err(e) => {
                proof {
                    assert(bus.ops() =~= base + bus.ops().skip(base.len() as int));
                }
                return Err(TcpSocketError::Other(e));
            },
        }
        match self.socket.set_interrupt_mask(bus, 0x18) {
            Ok(_) => (),
            Err(e) => {
                proof {
                    assert(bus.ops() =~= base + bus.ops().skip(base.len() as int));
                }
                return Err(TcpSocketError::Other(e));
            },
        }
        match self.socket.command(bus, socketn::Command::Open) {
            Ok(_) => (),
            Err(e) => {
                proof {
                    assert(bus.ops() =~= base + bus.ops().skip(base.len() as int));
                }
                return Err(TcpSocketError::Other(e));
            },
        }
        proof {
            assert(bus.ops() =~= base + spec_tcp_reopen_ops(self.socket.spec_register()));
            assert(bus.ops() =~= base + bus.ops().skip(base.len() as int));
        }
        Ok(())
    }

    /// Close the socket: select the closed protocol and issue CLOSE.
    pub fn socket_close<B: Bus>(&self, bus: &mut B) -> (r: Result<(), TcpSocketError<B::Error>>)
        requires
            self.wf(),
        ensures
            extends(old(bus).ops(), final (bus).ops()),
            touches_only(
                appended_ops(old(bus).ops(), final (bus).ops()),
                Set::empty().insert(self.socket.spec_register()),
            ),
            r matches Ok(_) ==> final (bus).ops() == old(bus).ops() + spec_tcp_close_ops(
                self.socket.spec_register(),
            ),
            r matches Err(e) ==> e is Other,
    {
        let ghost base = bus.ops();
        match self.socket.set_mode(bus, socketn::Protocol::Closed) {
            Ok(_) => (),
            Err(e) => {
                proof {
                    assert(bus.ops() =~= base + bus.ops().skip(base.len() as int));
                }
                return Err(TcpSocketError::Other(e));
            },
        }
        match self.socket.command(bus, socketn::Command::Close) {
            Ok(_) => (),
            Err(e) => {
                proof {
                    assert(bus.ops() =~= base + bus.ops().skip(base.len() as int));
                }
                return Err(TcpSocketError::Other(e));
            },
        }
        proof {
            assert(bus.ops() =~= base + spec_tcp_close_ops(self.socket.spec_register()));
            assert(bus.ops() =~= base + bus.ops().skip(base.len() as int));
        }
        Ok(())
    }

    /// Issue a graceful disconnect.
    pub fn disconnect<B: Bus>(&self, bus: &mut B) -> (r: Result<(), TcpSocketError<B::Error>>)
        requires
            self.wf(),
        ensures
            extends(old(bus).ops(), final (bus).ops()),
            touches_only(
                appended_ops(old(bus).ops(), final (bus).ops()),
                Set::empty().insert(self.socket.spec_register()),
            ),
            r matches Ok(_) ==> final (bus).ops() == old(bus).ops().push(
                wr(self.socket.spec_register(), socketn::COMMAND, seq![0x08u8]),
            ),
            r matches Err(e) ==> e is Other,
    {
        let ghost base = bus.ops();
        let r = match self.socket.command(bus, socketn::Command::Discon) {
            Ok(_) => Ok(()),
            Err(e) => Err(TcpSocketError::Other(e)),
        };
        proof {
            assert(bus.ops() =~= base + bus.ops().skip(base.len() as int));
        }
        r
    }

    /// Connect the socket to `remote`.
    ///
    /// A socket not in the INIT state is first closed and re-opened; one in
    /// UDP or MACRAW mode, or with an unrecognised status, is refused.  The
    /// destination and CONNECT command are written, then the status register
    /// is polled: ESTABLISHED completes the connect; CLOSED — an ARP or
    /// SYN-ACK timeout, or a peer reset — closes and re-opens the socket so
    /// the caller can retry with it, and still returns success: whether the
    /// connection stands is what `socket_is_connected` answers.
    #[verifier::rlimit(60)]
    pub fn socket_connect<B: Bus>(&mut self, bus: &mut B, remote: SocketAddrV4) -> (r: NbResult<
        (),
        TcpSocketError<B::Error>,
    >)
        requires
            old(self).wf(),
        ensures
            *final (self) == *old(self),
            ({
                let appended = appended_ops(old(bus).ops(), final (bus).ops());
                let reg = old(self).socket.spec_register();
                &&& extends(old(bus).ops(), final (bus).ops())
                &&& touches_only(appended, Set::empty().insert(reg))
                &&& (r matches Ok(_) ==> ({
                    let s0 = Status::spec_from_u8(appended[0].data()[0]);
                    let pre: int = if s0 == Some(Status::Init) {
                        1
                    } else {
                        8
                    };
                    let k = appended.len();
                    &&& k >= pre + 4
                    &&& is_reg_read(reg, socketn::STATUS, 1, appended[0])
                    &&& (s0 == Some(Status::Init) || appended.subrange(1, 8) == spec_tcp_close_ops(
                        reg,
                    ) + spec_tcp_reopen_ops(reg))
                    &&& appended.subrange(pre, pre + 2) == spec_destination_writes(reg, remote)
                    &&& appended[pre + 2] == wr(reg, socketn::COMMAND, seq![0x04u8])
                    &&& (appended[k - 1] == rd(reg, socketn::STATUS, seq![0x17u8]) || (k >= pre + 11
                        && appended[k - 8] == rd(reg, socketn::STATUS, seq![0x00u8])
                        && appended.skip(k - 7) == spec_tcp_close_ops(reg) + spec_tcp_reopen_ops(
                        reg,
                    )))
                }))
                &&& (r matches Err(e) ==> match e {
                    NbError::Other(te) => te is UnsupportedMode ==> appended.len() == 1
                        && is_reg_read(reg, socketn::STATUS, 1, appended[0]) && ({
                        let s0 = Status::spec_from_u8(appended[0].data()[0]);
                        s0 is None || s0 == Some(Status::MacRaw) || s0 == Some(Status::Udp)
                    }),
                    NbError::WouldBlock => true,
                })
            }),
    {
        let ghost base = bus.ops();
        let reg = self.socket.register();
        let status_byte = match self.socket.get_status(bus) {
            Ok(v) => v,
            Err(e) => {
                proof {
                    assert(bus.ops() =~= base + bus.ops().skip(base.len() as int));
                }
                return Err(NbError::Other(TcpSocketError::Other(e)));
            },
        };
        let ghost op0 = rd(reg, socketn::STATUS, seq![status_byte]);
        let ghost mut front: Seq<BusOp> = seq![op0];
        match Status::from_u8(status_byte) {
            Some(Status::Init) => (),
            None | Some(Status::MacRaw) | Some(Status::Udp) => {
                proof {
                    assert(base.push(op0) =~= base + seq![op0]);
                    lemma_return_shape(base, seq![op0], bus.ops());
                }
                return Err(NbError::Other(TcpSocketError::UnsupportedMode));
            },
            Some(_) => {
                let ghost mid = bus.ops();
                match self.socket_close(bus) {
                    Ok(_) => (),
                    Err(e) => {
                        proof {
                            let tail = appended_ops(mid, bus.ops());
                            assert(bus.ops() =~= base + (seq![op0] + tail));
                            lemma_return_shape(base, seq![op0] + tail, bus.ops());
                        }
                        return Err(NbError::Other(e));
                    },
                }
                match self.reopen(bus) {
                    Ok(_) => (),
                    Err(e) => {
                        proof {
                            let tail = appended_ops(mid, bus.ops());
                            assert(bus.ops() =~= base + (seq![op0] + tail));
                            lemma_return_shape(base, seq![op0] + tail, bus.ops());
                        }
                        return Err(NbError::Other(e));
                    },
                }
                proof {
                    front = seq![op0] + spec_tcp_close_ops(reg) + spec_tcp_reopen_ops(reg);
                    assert(bus.ops() =~= base + front);
                }
            },
        }
        proof {
            assert(bus.ops() == base + front);
        }
        match self.socket.set_destination_ip(bus, remote.ip) {
            Ok(_) => (),
            Err(e) => {
                proof {
                    lemma_return_shape(base, front, bus.ops());
                }
                return Err(NbError::Other(TcpSocketError::Other(e)));
            },
        }
        match self.socket.set_destination_port(bus, remote.port) {
            Ok(_) => (),
            Err(e) => {
                proof {
                    let tail = appended_ops(base, bus.ops());
                    assert(bus.ops() =~= base + tail);
                    lemma_return_shape(base, tail, bus.ops());
                }
                return Err(NbError::Other(TcpSocketError::Other(e)));
            },
        }
        match self.socket.command(bus, socketn::Command::Connect) {
            Ok(_) => (),
            Err(e) => {
                proof {
                    let tail = appended_ops(base, bus.ops());
                    assert(bus.ops() =~= base + tail);
                    lemma_return_shape(base, tail, bus.ops());
                }
                return Err(NbError::Other(TcpSocketError::Other(e)));
            },
        }
        proof {
            front = front + spec_destination_writes(reg, remote) + seq![
                wr(reg, socketn::COMMAND, seq![0x04u8]),
            ];
            assert(bus.ops() =~= base + front);
        }
        let ghost mut polls: Seq<BusOp> = Seq::empty();
        proof {
            assert(base + front + polls =~= base + front);
        }
        let mut attempts: u32 = POLL_ATTEMPTS;
        while attempts > 0
            invariant
                self.wf(),
                *self == *old(self),
                reg == self.socket.spec_register(),
                base == old(bus).ops(),
                bus.ops() == base + front + polls,
                all_status_reads(reg, polls),
                touches_only(front, Set::empty().insert(reg)),
                ({
                    let s0 = Status::spec_from_u8(front[0].data()[0]);
                    let pre: int = if s0 == Some(Status::Init) {
                        1
                    } else {
                        8
                    };
                    &&& front.len() == pre + 3
                    &&& is_reg_read(reg, socketn::STATUS, 1, front[0])
                    &&& (s0 == Some(Status::Init) || front.subrange(1, 8) == spec_tcp_close_ops(
                        reg,
                    ) + spec_tcp_reopen_ops(reg))
                    &&& front.subrange(pre, pre + 2) == spec_destination_writes(reg, remote)
                    &&& front[pre + 2] == wr(reg, socketn::COMMAND, seq![0x04u8])
                }),
            decreases attempts,
        {
            let poll_byte = match self.socket.get_status(bus) {
                Ok(v) => v,
                Err(e) => {
                    proof {
                        assert(bus.ops() =~= base + (front + polls));
                        lemma_return_shape(base, front + polls, bus.ops());
                    }
                    return Err(NbError::Other(TcpSocketError::Other(e)));
                },
            };
            proof {
                let op = rd(reg, socketn::STATUS, seq![poll_byte]);
                assert(base + front + polls.push(op) =~= (base + front + polls).push(op));
                polls = polls.push(op);
                assert forall|i: int| 0 <= i < polls.len() implies is_reg_read(
                    reg,
                    socketn::STATUS,
                    1,
                    #[trigger] polls[i],
                ) by {}
            }
            if poll_byte == 0x17 {
                proof {
                    assert(bus.ops() =~= base + (front + polls));
                    lemma_return_shape(base, front + polls, bus.ops());
                    let appended = front + polls;
                    assert(appended[appended.len() - 1] == rd(reg, socketn::STATUS, seq![0x17u8]));
                    assert(appended.subrange(0, front.len() as int) =~= front);
                }
                return Ok(());
            }
            if poll_byte == 0x00 {
                let ghost mid = bus.ops();
                match self.socket_close(bus) {
                    Ok(_) => (),
                    Err(e) => {
                        proof {
                            let tail = appended_ops(mid, bus.ops());
                            assert(bus.ops() =~= base + (front + polls + tail));
                            lemma_return_shape(base, front + polls + tail, bus.ops());
                        }
                        return Err(NbError::Other(e));
                    },
                }
                match self.reopen(bus) {
                    Ok(_) => (),
                    Err(e) => {
                        proof {
                            let tail = appended_ops(mid, bus.ops());
                            assert(bus.ops() =~= base + (front + polls + tail));
                            lemma_return_shape(base, front + polls + tail, bus.ops());
                        }
                        return Err(NbError::Other(e));
                    },
                }
                proof {
                    let recover = spec_tcp_close_ops(reg) + spec_tcp_reopen_ops(reg);
                    assert(bus.ops() =~= base + (front + polls + recover));
                    lemma_return_shape(base, front + polls + recover, bus.ops());
                    let appended = front + polls + recover;
                    let k = appended.len();
                    assert(appended[k - 8] == polls[polls.len() - 1]);
                    assert(appended.skip(k - 7) =~= recover);
                    assert(appended.subrange(0, front.len() as int) =~= front);
                }
                return Ok(());
            }
            attempts = attempts - 1;
        }
        proof {
            let appended = front + polls;
            assert(bus.ops() =~= base + appended);
            lemma_return_shape(base, appended, bus.ops());
            assert(appended.subrange(0, front.len() as int) =~= front);
            assert(appended.skip(front.len() as int) =~= polls);
        }
        Err(NbError::WouldBlock)
    }

    /// Send at most the TX buffer's free space from `data`: the payload is
    /// written at the TX write pointer, the pointer is advanced by exactly
    /// the written length modulo 2^16, SEND is issued and the SEND_OK
    /// interrupt is awaited and cleared.  Returns how many bytes were sent.
    #[verifier::rlimit(60)]
    pub fn socket_send<B: Bus>(&mut self, bus: &mut B, data: &Vec<u8>) -> (r: NbResult<
        usize,
        TcpSocketError<B::Error>,
    >)
        requires
            old(self).wf(),
        ensures
            *final (self) == *old(self),
            ({
                let appended = appended_ops(old(bus).ops(), final (bus).ops());
                let reg = old(self).socket.spec_register();
                let txb = old(self).socket.spec_tx_buffer();
                &&& extends(old(bus).ops(), final (bus).ops())
                &&& touches_only(appended, Set::empty().insert(reg).insert(txb))
                &&& (r matches Ok(n) ==> ({
                    let k = appended.len();
                    let fs = spec_data_u16(appended[1]);
                    let wp = spec_data_u16(appended[2]);
                    &&& k >= 8
                    &&& appended[0] == rd(reg, socketn::STATUS, seq![0x17u8])
                    &&& is_reg_read(reg, socketn::TX_FREE_SIZE, 2, appended[1])
                    &&& is_reg_read(reg, socketn::TX_DATA_WRITE_POINTER, 2, appended[2])
                    &&& n == vstd::math::min(fs as int, data@.len() as int)
                    &&& appended[3] == wr(txb, wp, data@.take(n as int))
                    &&& appended[4] == wr(reg, socketn::TX_DATA_WRITE_POINTER, spec_be2(add16(wp, n as int)))
                    &&& appended[5] == wr(reg, socketn::COMMAND, seq![0x20u8])
                    &&& all_interrupt_reads(reg, appended.subrange(6, k - 1))
                    &&& appended[k - 2].data()[0] & 0x10 != 0
                    &&& appended[k - 1] == wr(reg, socketn::INTERRUPT, seq![0x10u8])
                }))
                &&& (r matches Err(e) ==> match e {
                    NbError::Other(te) => (te is NotConnected || te is Other) && (te
                        is NotConnected ==> appended.len() == 1 && is_reg_read(
                        reg,
                        socketn::STATUS,
                        1,
                        appended[0],
                    ) && appended[0].data()[0] != 0x17),
                    NbError::WouldBlock => ({
                        let k = appended.len();
                        let fs = spec_data_u16(appended[1]);
                        let wp = spec_data_u16(appended[2]);
                        let n = vstd::math::min(fs as int, data@.len() as int);
                        &&& k >= 6
                        &&& appended[0] == rd(reg, socketn::STATUS, seq![0x17u8])
                        &&& is_reg_read(reg, socketn::TX_FREE_SIZE, 2, appended[1])
                        &&& is_reg_read(reg, socketn::TX_DATA_WRITE_POINTER, 2, appended[2])
                        &&& appended[3] == wr(txb, wp, data@.take(n))
                        &&& appended[4] == wr(
                            reg,
                            socketn::TX_DATA_WRITE_POINTER,
                            spec_be2(add16(wp, n)),
                        )
                        &&& appended[5] == wr(reg, socketn::COMMAND, seq![0x20u8])
                        &&& all_interrupt_reads(reg, appended.skip(6))
                        &&& (forall|i: int|
                            6 <= i < k ==> (#[trigger] appended[i]).data()[0] & 0x10 == 0)
                    }),
                })
            }),
    {
        let ghost base = bus.ops();
        let reg = self.socket.register();
        let status_byte = match self.socket.get_status(bus) {
            Ok(v) => v,
            Err(e) => {
                proof {
                    assert(bus.ops() =~= base + bus.ops().skip(base.len() as int));
                }
                return Err(NbError::Other(TcpSocketError::Other(e)));
            },
        };
        let ghost op0 = rd(reg, socketn::STATUS, seq![status_byte]);
        if status_byte != 0x17 {
            proof {
                assert(base.push(op0) =~= base + seq![op0]);
                lemma_return_shape(base, seq![op0], bus.ops());
            }
            return Err(NbError::Other(TcpSocketError::NotConnected));
        }
        let free_size = match self.socket.get_tx_free_size(bus) {
            Ok(v) => v,
            Err(e) => {
                proof {
                    assert(base.push(op0) =~= base + seq![op0]);
                    lemma_return_shape(base, seq![op0], bus.ops());
                }
                return Err(NbError::Other(TcpSocketError::Other(e)));
            },
        };
        let ghost op1 = rd(reg, socketn::TX_FREE_SIZE, spec_be2(free_size));
        let write_pointer = match self.socket.get_tx_write_pointer(bus) {
            Ok(v) => v,
            Err(e) => {
                proof {
                    assert(base.push(op0).push(op1) =~= base + seq![op0, op1]);
                    lemma_return_shape(base, seq![op0, op1], bus.ops());
                }
                return Err(NbError::Other(TcpSocketError::Other(e)));
            },
        };
        let ghost op2 = rd(reg, socketn::TX_DATA_WRITE_POINTER, spec_be2(write_pointer));
        let n: usize = if data.len() < free_size as usize {
            data.len()
        } else {
            free_size as usize
        };
        let mut chunk: Vec<u8> = Vec::new();
        let mut i: usize = 0;
        while i < n
            invariant
                i <= n,
                n <= data@.len(),
                chunk@ == data@.take(i as int),
            decreases n - i,
        {
            chunk.push(data[i]);
            i = i + 1;
            assert(chunk@ =~= data@.take(i as int));
        }
        match bus.write_frame(self.socket.tx_buffer(), write_pointer, &chunk) {
            Ok(_) => (),
            Err(e) => {
                proof {
                    assert(base.push(op0).push(op1).push(op2) =~= base + seq![op0, op1, op2]);
                    lemma_return_shape(base, seq![op0, op1, op2], bus.ops());
                }
                return Err(NbError::Other(TcpSocketError::Other(e)));
            },
        }
        let ghost op3 = wr(self.socket.spec_tx_buffer(), write_pointer, chunk@);
        let new_write_pointer = crate::frame::wrap_add16(write_pointer, n as u16);
        match self.socket.set_tx_write_pointer(bus, new_write_pointer) {
            Ok(_) => (),
            Err(e) => {
                proof {
                    assert(base.push(op0).push(op1).push(op2).push(op3) =~= base + seq![
                        op0,
                        op1,
                        op2,
                        op3,
                    ]);
                    lemma_return_shape(base, seq![op0, op1, op2, op3], bus.ops());
                }
                return Err(NbError::Other(TcpSocketError::Other(e)));
            },
        }
        let ghost op4 = wr(
            reg,
            socketn::TX_DATA_WRITE_POINTER,
            spec_be2(add16(write_pointer, n as int)),
        );
        match self.socket.command(bus, socketn::Command::Send) {
            Ok(_) => (),
            Err(e) => {
                proof {
                    assert(base.push(op0).push(op1).push(op2).push(op3).push(op4) =~= base + seq![
                        op0,
                        op1,
                        op2,
                        op3,
                        op4,
                    ]);
                    lemma_return_shape(base, seq![op0, op1, op2, op3, op4], bus.ops());
                }
                return Err(NbError::Other(TcpSocketError::Other(e)));
            },
        }
        let ghost op5 = wr(reg, socketn::COMMAND, seq![0x20u8]);
        let ghost front = seq![op0, op1, op2, op3, op4, op5];
        proof {
            assert(bus.ops() =~= base + front);
        }
        let ghost mut polls: Seq<BusOp> = Seq::empty();
        proof {
            assert(base + front + polls =~= base + front);
        }
        let mut attempts: u32 = POLL_ATTEMPTS;
        while attempts > 0
            invariant
                self.wf(),
                *self == *old(self),
                reg == self.socket.spec_register(),
                base == old(bus).ops(),
                bus.ops() == base + front + polls,
                all_interrupt_reads(reg, polls),
                forall|i: int| 0 <= i < polls.len() ==> (#[trigger] polls[i]).data()[0] & 0x10 == 0,
                front == seq![op0, op1, op2, op3, op4, op5],
                n == vstd::math::min(free_size as int, data@.len() as int),
                op0 == rd(reg, socketn::STATUS, seq![0x17u8]),
                op1 == rd(reg, socketn::TX_FREE_SIZE, spec_be2(free_size)),
                op2 == rd(reg, socketn::TX_DATA_WRITE_POINTER, spec_be2(write_pointer)),
                op3 == wr(self.socket.spec_tx_buffer(), write_pointer, data@.take(n as int)),
                op4 == wr(
                    reg,
                    socketn::TX_DATA_WRITE_POINTER,
                    spec_be2(add16(write_pointer, n as int)),
                ),
                op5 == wr(reg, socketn::COMMAND, seq![0x20u8]),
            decreases attempts,
        {
            let ir = match self.socket.get_interrupt(bus) {
                Ok(v) => v,
                Err(e) => {
                    proof {
                        assert(bus.ops() =~= base + (front + polls));
                        lemma_return_shape(base, front + polls, bus.ops());
                    }
                    return Err(NbError::Other(TcpSocketError::Other(e)));
                },
            };
            proof {
                let op = rd(reg, socketn::INTERRUPT, seq![ir]);
                assert(base + front + polls.push(op) =~= (base + front + polls).push(op));
                polls = polls.push(op);
                assert forall|i: int| 0 <= i < polls.len() implies is_reg_read(
                    reg,
                    socketn::INTERRUPT,
                    1,
                    #[trigger] polls[i],
                ) by {}
            }
            if ir & 0x10 != 0 {
                match self.socket.reset_interrupt(bus, socketn::Interrupt::SendOk) {
                    Ok(_) => (),
                    Err(e) => {
                        proof {
                            assert(bus.ops() =~= base + (front + polls));
                            lemma_return_shape(base, front + polls, bus.ops());
                        }
                        return Err(NbError::Other(TcpSocketError::Other(e)));
                    },
                }
                proof {
                    let clear = wr(reg, socketn::INTERRUPT, seq![0x10u8]);
                    let appended = front + polls + seq![clear];
                    assert(bus.ops() =~= base + appended);
                    lemma_return_shape(base, appended, bus.ops());
                    let k = appended.len();
                    assert(appended.subrange(6, k - 1) =~= polls);
                    assert(appended[k - 2] == polls[polls.len() - 1]);
                    crate::frame::lemma_be2_roundtrip(0, 0, free_size);
                    crate::frame::lemma_be2_roundtrip(0, 0, write_pointer);
                }
                return Ok(n);
            }
            attempts = attempts - 1;
        }
        proof {
            let appended = front + polls;
            assert(bus.ops() =~= base + appended);
            lemma_return_shape(base, appended, bus.ops());
            assert(appended.skip(6) =~= polls);
            crate::frame::lemma_be2_roundtrip(0, 0, free_size);
            crate::frame::lemma_be2_roundtrip(0, 0, write_pointer);
        }
        Err(NbError::WouldBlock)
    }

    /// Receive at most `max_len` bytes of pending data.  Nothing pending —
    /// the RECV interrupt clear, or the received size unsettled — reads out
    /// as empty.  The RX read pointer advances by exactly the bytes read,
    /// the RECV command releases them, and the interrupt is cleared.
    #[verifier::rlimit(60)]
    pub fn socket_receive<B: Bus>(&mut self, bus: &mut B, max_len: usize) -> (r: Result<
        Vec<u8>,
        TcpSocketError<B::Error>,
    >)
        requires
            old(self).wf(),
        ensures
            *final (self) == *old(self),
            ({
                let appended = appended_ops(old(bus).ops(), final (bus).ops());
                let reg = old(self).socket.spec_register();
                let rxb = old(self).socket.spec_rx_buffer();
                &&& extends(old(bus).ops(), final (bus).ops())
                &&& touches_only(appended, Set::empty().insert(reg).insert(rxb))
                &&& (r matches Ok(out) ==> ((out@.len() == 0 && spec_tcp_recv_blocked(
                    reg,
                    appended,
                )) || ({
                    let k = appended.len();
                    let s = spec_data_u16(appended[k - 6]);
                    let rp = spec_data_u16(appended[k - 5]);
                    &&& k >= 9
                    &&& appended[0] == rd(reg, socketn::STATUS, seq![0x17u8])
                    &&& is_reg_read(reg, socketn::INTERRUPT, 1, appended[1])
                    &&& appended[1].data()[0] & 0x04 != 0
                    &&& all_rsr_samples(reg, appended.subrange(2, k - 5))
                    &&& appended[k - 7] == appended[k - 6]
                    &&& is_reg_read(reg, socketn::RX_DATA_READ_POINTER, 2, appended[k - 5])
                    &&& !appended[k - 4].is_write() && appended[k - 4].block() == rxb && appended[k
                        - 4].address() == rp && appended[k - 4].data() == out@
                    &&& out@.len() == vstd::math::min(s as int, max_len as int)
                    &&& appended[k - 3] == wr(
                        reg,
                        socketn::RX_DATA_READ_POINTER,
                        spec_be2(add16(rp, out@.len() as int)),
                    )
                    &&& appended[k - 2] == wr(reg, socketn::COMMAND, seq![0x40u8])
                    &&& appended[k - 1] == wr(reg, socketn::INTERRUPT, seq![0x04u8])
                })))
                &&& (r matches Err(te) ==> (te is NotConnected || te is Other) && (te
                    is NotConnected ==> appended.len() == 1 && is_reg_read(
                    reg,
                    socketn::STATUS,
                    1,
                    appended[0],
                ) && appended[0].data()[0] != 0x17))
            }),
    {
        let ghost base = bus.ops();
        let reg = self.socket.register();
        let status_byte = match self.socket.get_status(bus) {
            Ok(v) => v,
            Err(e) => {
                proof {
                    assert(bus.ops() =~= base + bus.ops().skip(base.len() as int));
                }
                return Err(TcpSocketError::Other(e));
            },
        };
        let ghost op0 = rd(reg, socketn::STATUS, seq![status_byte]);
        if status_byte != 0x17 {
            proof {
                assert(base.push(op0) =~= base + seq![op0]);
                lemma_return_shape(base, seq![op0], bus.ops());
            }
            return Err(TcpSocketError::NotConnected);
        }
        let ir = match self.socket.get_interrupt(bus) {
            Ok(v) => v,
            Err(e) => {
                proof {
                    assert(base.push(op0) =~= base + seq![op0]);
                    lemma_return_shape(base, seq![op0], bus.ops());
                }
                return Err(TcpSocketError::Other(e));
            },
        };
        let ghost op1 = rd(reg, socketn::INTERRUPT, seq![ir]);
        proof {
            assert(base.push(op0).push(op1) =~= base + seq![op0, op1]);
        }
        if ir & 0x04 == 0 {
            proof {
                lemma_return_shape(base, seq![op0, op1], bus.ops());
                assert(seq![op0, op1].skip(2) =~= Seq::<BusOp>::empty());
            }
            return Ok(Vec::new());
        }
        let ghost mid = bus.ops();
        let rx_size = match self.socket.get_receive_size(bus) {
            Ok(Some(v)) => v,
            Ok(None) => {
                proof {
                    let samples = appended_ops(mid, bus.ops());
                    assert(bus.ops() =~= base + (seq![op0, op1] + samples));
                    lemma_return_shape(base, seq![op0, op1] + samples, bus.ops());
                    assert((seq![op0, op1] + samples).skip(2) =~= samples);
                    assert(sample_pairs_disagree(samples));
                }
                return Ok(Vec::new());
            },
            Err(e) => {
                proof {
                    let samples = appended_ops(mid, bus.ops());
                    assert(bus.ops() =~= base + (seq![op0, op1] + samples));
                    lemma_return_shape(base, seq![op0, op1] + samples, bus.ops());
                }
                return Err(TcpSocketError::Other(e));
            },
        };
        let ghost samples = appended_ops(mid, bus.ops());
        proof {
            assert(bus.ops() =~= base + (seq![op0, op1] + samples));
        }
        let n: usize = if (rx_size as usize) < max_len {
            rx_size as usize
        } else {
            max_len
        };
        let read_pointer = match self.socket.get_rx_read_pointer(bus) {
            Ok(v) => v,
            Err(e) => {
                proof {
                    lemma_return_shape(base, seq![op0, op1] + samples, bus.ops());
                }
                return Err(TcpSocketError::Other(e));
            },
        };
        let ghost op_rp = rd(reg, socketn::RX_DATA_READ_POINTER, spec_be2(read_pointer));
        proof {
            assert(bus.ops() =~= base + (seq![op0, op1] + samples + seq![op_rp]));
        }
        let data = match bus.read_frame(self.socket.rx_buffer(), read_pointer, n) {
            Ok(v) => v,
            Err(e) => {
                proof {
                    lemma_return_shape(base, seq![op0, op1] + samples + seq![op_rp], bus.ops());
                }
                return Err(TcpSocketError::Other(e));
            },
        };
        let ghost op_data = rd(self.socket.spec_rx_buffer(), read_pointer, data@);
        proof {
            assert(bus.ops() =~= base + (seq![op0, op1] + samples + seq![op_rp, op_data]));
        }
        let new_read_pointer = crate::frame::wrap_add16(read_pointer, n as u16);
        match self.socket.set_rx_read_pointer(bus, new_read_pointer) {
            Ok(_) => (),
            Err(e) => {
                proof {
                    lemma_return_shape(
                        base,
                        seq![op0, op1] + samples + seq![op_rp, op_data],
                        bus.ops(),
                    );
                }
                return Err(TcpSocketError::Other(e));
            },
        }
        let ghost op_wrp = wr(
            reg,
            socketn::RX_DATA_READ_POINTER,
            spec_be2(add16(read_pointer, n as int)),
        );
        proof {
            assert(bus.ops() =~= base + (seq![op0, op1] + samples + seq![op_rp, op_data, op_wrp]));
        }
        match self.socket.command(bus, socketn::Command::Receive) {
            Ok(_) => (),
            Err(e) => {
                proof {
                    lemma_return_shape(
                        base,
                        seq![op0, op1] + samples + seq![op_rp, op_data, op_wrp],
                        bus.ops(),
                    );
                }
                return Err(TcpSocketError::Other(e));
            },
        }
        let ghost op_cmd = wr(reg, socketn::COMMAND, seq![0x40u8]);
        proof {
            assert(bus.ops() =~= base + (seq![op0, op1] + samples + seq![
                op_rp,
                op_data,
                op_wrp,
                op_cmd,
            ]));
        }
        match self.socket.reset_interrupt(bus, socketn::Interrupt::Receive) {
            Ok(_) => (),
            Err(e) => {
                proof {
                    lemma_return_shape(
                        base,
                        seq![op0, op1] + samples + seq![op_rp, op_data, op_wrp, op_cmd],
                        bus.ops(),
                    );
                }
                return Err(TcpSocketError::Other(e));
            },
        }
        let ghost op_int = wr(reg, socketn::INTERRUPT, seq![0x04u8]);
        proof {
            let appended = seq![op0, op1] + samples + seq![op_rp, op_data, op_wrp, op_cmd, op_int];
            assert(bus.ops() =~= base + appended);
            lemma_return_shape(base, appended, bus.ops());
            let k = appended.len();
            let m = samples.len();
            assert(m >= 2);
            assert(k == m + 7);
            assert(appended.subrange(2, k - 5) =~= samples);
            assert(appended[k - 6] == samples[m - 1]);
            assert(appended[k - 7] == samples[m - 2]);
            crate::frame::lemma_be2_roundtrip(0, 0, rx_size);
            crate::frame::lemma_be2_roundtrip(0, 0, read_pointer);
            assert(spec_data_u16(appended[k - 6]) == rx_size);
            assert(spec_data_u16(appended[k - 5]) == read_pointer);
        }
        Ok(data)
    }

    /// Whether the socket's status register shows an established connection.
    pub fn socket_is_connected<B: Bus>(&self, bus: &mut B) -> (r: Result<
        bool,
        TcpSocketError<B::Error>,
    >)
        requires
            self.wf(),
        ensures
            match r {
                Ok(b) => exists|s: u8|
                    final (bus).ops() == old(bus).ops().push(
                        rd(self.socket.spec_register(), socketn::STATUS, seq![s]),
                    ) && b == (s == 0x17),
                Err(_) => final (bus).ops() == old(bus).ops(),
            },
    {
        match self.socket.get_status(bus) {
            Ok(s) => Ok(s == 0x17),
            Err(e) => Err(TcpSocketError::Other(e)),
        }
    }
}

} // verus!
