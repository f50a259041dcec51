//! The device operating in MACRAW mode: raw Ethernet frames over socket 0.
//!
//! Socket 0 is grown to the full 16 KiB of TX and RX buffer — sockets 1 to 7
//! give their buffer budget up — and opened in MACRAW mode with MAC
//! filtering.  Received frames carry a two-byte big-endian length prefix
//! that counts itself.

use vstd::prelude::*;

use crate::bus::{appended_ops, extends, rd, wr, Bus, BusOp};
use crate::frame::{add16, spec_be2, spec_u16};
use crate::register;
use crate::register::common;
use crate::register::socketn;
use crate::socket::{
    all_interrupt_reads, all_rsr_samples, is_reg_read, sample_pairs_disagree, spec_data_u16,
    spec_sock_reg, Socket, POLL_ATTEMPTS,
};
use crate::udp::lemma_return_shape;
use crate::uninitialized_device::InitializeError;
use crate::{NbError, NbResult};

verus! {

/// The frames that shrink the buffers of sockets 1 to `index - 1` to zero.
pub open spec fn spec_zero_buffers_upto(index: u8) -> Seq<BusOp>
    decreases index,
{
    if index <= 1 {
        Seq::empty()
    } else {
        spec_zero_buffers_upto((index - 1) as u8) + seq![
            wr(spec_sock_reg((index - 1) as u8), socketn::TXBUF_SIZE, seq![0u8]),
            wr(spec_sock_reg((index - 1) as u8), socketn::RXBUF_SIZE, seq![0u8]),
        ]
    }
}

/// The frames that configure MACRAW mode: socket 0's buffers grown to
/// 16 KiB, sockets 1 to 7 shrunk to nothing, MACRAW mode with MAC filtering
/// selected, and OPEN issued.
pub open spec fn spec_macraw_setup_ops() -> Seq<BusOp> {
    seq![
        wr(1u8, socketn::TXBUF_SIZE, seq![16u8]),
        wr(1u8, socketn::RXBUF_SIZE, seq![16u8]),
    ] + spec_zero_buffers_upto(8) + seq![
        wr(1u8, socketn::MODE, seq![0x84u8]),
        wr(1u8, socketn::COMMAND, seq![0x01u8]),
    ]
}

/// The commit frames of a MACRAW write: the SEND_OK clear, the free-size and
/// write-pointer reads, the payload write of min(frame length, free size)
/// bytes when any fit, the pointer advanced by exactly that count modulo
/// 2^16, and the SEND command.
pub open spec fn spec_raw_write_commit(frame: Seq<u8>, appended: Seq<BusOp>) -> bool {
    let fs = spec_data_u16(appended[1]);
    let wp = spec_data_u16(appended[2]);
    let sent = vstd::math::min(frame.len() as int, fs as int);
    let commit: int = if sent > 0 {
        4
    } else {
        3
    };
    &&& appended.len() >= commit + 2
    &&& appended[0] == wr(1, socketn::INTERRUPT, seq![0x10u8])
    &&& is_reg_read(1, socketn::TX_FREE_SIZE, 2, appended[1])
    &&& is_reg_read(1, socketn::TX_DATA_WRITE_POINTER, 2, appended[2])
    &&& (sent > 0 ==> appended[3] == wr(2, wp, frame.take(sent)))
    &&& appended[commit] == wr(1, socketn::TX_DATA_WRITE_POINTER, spec_be2(add16(wp, sent)))
    &&& appended[commit + 1] == wr(1, socketn::COMMAND, seq![0x20u8])
}

/// The chip in MACRAW mode: the bus handle and socket 0.
#[derive(Debug)]
pub struct RawDevice<SpiBus: Bus> {
    pub bus: SpiBus,
    pub raw_socket: Socket,
}

impl<SpiBus: Bus> RawDevice<SpiBus> {
    pub open spec fn wf(self) -> bool {
        self.raw_socket.wf() && self.raw_socket.index == 0
    }

    /// Configure the chip for MACRAW operation with MAC filtering enabled.
    pub(crate) fn new(bus: SpiBus) -> (r: Result<
        RawDevice<SpiBus>,
        InitializeError<SpiBus::Error>,
    >)
        ensures
            r matches Ok(d) ==> d.wf() && d.bus.ops() == bus.ops() + spec_macraw_setup_ops(),
    {
        let mut bus = bus;
        let ghost base = bus.ops();
        let raw_socket = Socket::new(0);
        match crate::bus::write_u8(&mut bus, raw_socket.register(), socketn::TXBUF_SIZE, 16) {
            Ok(_) => (),
            Err(e) => {
                return Err(InitializeError::SpiError(e));
            },
        }
        match crate::bus::write_u8(&mut bus, raw_socket.register(), socketn::RXBUF_SIZE, 16) {
            Ok(_) => (),
            Err(e) => {
                return Err(InitializeError::SpiError(e));
            },
        }
        let ghost head = seq![
            wr(1u8, socketn::TXBUF_SIZE, seq![16u8]),
            wr(1u8, socketn::RXBUF_SIZE, seq![16u8]),
        ];
        proof {
            assert(bus.ops() =~= base + head + spec_zero_buffers_upto(1));
        }
        let mut socket_index: u8 = 1;
        while socket_index < 8
            invariant
                1 <= socket_index <= 8,
                bus.ops() == base + head + spec_zero_buffers_upto(socket_index),
                head == seq![
                    wr(1u8, socketn::TXBUF_SIZE, seq![16u8]),
                    wr(1u8, socketn::RXBUF_SIZE, seq![16u8]),
                ],
            decreases 8 - socket_index,
        {
            let socket = Socket::new(socket_index);
            match crate::bus::write_u8(&mut bus, socket.register(), socketn::TXBUF_SIZE, 0) {
                Ok(_) => (),
                Err(e) => {
                    return Err(InitializeError::SpiError(e));
                },
            }
            match crate::bus::write_u8(&mut bus, socket.register(), socketn::RXBUF_SIZE, 0) {
                Ok(_) => (),
                Err(e) => {
                    return Err(InitializeError::SpiError(e));
                },
            }
            proof {
                assert(spec_zero_buffers_upto((socket_index + 1) as u8) == spec_zero_buffers_upto(
                    socket_index,
                ) + seq![
                    wr(spec_sock_reg(socket_index), socketn::TXBUF_SIZE, seq![0u8]),
                    wr(spec_sock_reg(socket_index), socketn::RXBUF_SIZE, seq![0u8]),
                ]);
                assert(bus.ops() =~= base + head + spec_zero_buffers_upto(
                    (socket_index + 1) as u8,
                ));
            }
            socket_index = socket_index + 1;
        }
        match raw_socket.set_mode_raw(&mut bus, 0x84) {
            Ok(_) => (),
            Err(e) => {
                return Err(InitializeError::SpiError(e));
            },
        }
        match raw_socket.command(&mut bus, socketn::Command::Open) {
            Ok(_) => (),
            Err(e) => {
                return Err(InitializeError::SpiError(e));
            },
        }
        proof {
            assert(bus.ops() =~= base + spec_macraw_setup_ops());
        }
        Ok(RawDevice { bus, raw_socket })
    }

    /// Read one Ethernet frame, copying at most `max_len` bytes of it.
    ///
    /// The chip prefixes every received frame with a two-byte big-endian
    /// length that counts itself; the payload is that length minus two.
    /// However much of the frame fits the caller's room, the whole frame is
    /// consumed: the RX read pointer skips past what was not copied, and the
    /// RECV command releases it.  Nothing pending reads out as empty.
    #[verifier::rlimit(60)]
    pub fn read_frame(&mut self, max_len: usize) -> (r: Result<Vec<u8>, SpiBus::Error>)
        requires
            old(self).wf(),
        ensures
            final (self).wf(),
            final (self).raw_socket == old(self).raw_socket,
            ({
                let appended = appended_ops(old(self).bus.ops(), final (self).bus.ops());
                &&& extends(old(self).bus.ops(), final (self).bus.ops())
                &&& (r matches Ok(out) ==> ((out@.len() == 0 && all_rsr_samples(1, appended) && (
                sample_pairs_disagree(appended) || (appended.len() >= 2 && appended[appended.len()
                    - 1] == appended[appended.len() - 2] && spec_data_u16(
                    appended[appended.len() - 1],
                ) < 2))) || ({
                    let k = appended.len();
                    let avail = spec_data_u16(appended[k - 6]);
                    let rp = spec_data_u16(appended[k - 5]);
                    let hdr = appended[k - 4].data();
                    let expected: int = if spec_u16(hdr[0], hdr[1]) >= 2 {
                        spec_u16(hdr[0], hdr[1]) - 2
                    } else {
                        0
                    };
                    let n = vstd::math::min(
                        expected,
                        vstd::math::min(max_len as int, avail - 2),
                    );
                    &&& k >= 7
                    &&& all_rsr_samples(1, appended.subrange(0, k - 5))
                    &&& appended[k - 7] == appended[k - 6]
                    &&& avail >= 2
                    &&& is_reg_read(1, socketn::RX_DATA_READ_POINTER, 2, appended[k - 5])
                    &&& !appended[k - 4].is_write() && appended[k - 4].block() == 3 && appended[k
                        - 4].address() == rp && hdr.len() == 2
                    &&& !appended[k - 3].is_write() && appended[k - 3].block() == 3 && appended[k
                        - 3].address() == add16(rp, 2) && appended[k - 3].data() == out@
                    &&& out@.len() == n
                    &&& appended[k - 2] == wr(
                        1,
                        socketn::RX_DATA_READ_POINTER,
                        spec_be2(
                            add16(rp, 2 + n + vstd::math::min(expected - n, avail - 2 - n)),
                        ),
                    )
                    &&& appended[k - 1] == wr(1, socketn::COMMAND, seq![0x40u8])
                })))
            }),
    {
        let ghost base = self.bus.ops();
        let available = match self.raw_socket.get_receive_size(&mut self.bus) {
            Ok(Some(v)) => v,
            Ok(None) => {
                proof {
                    let samples = appended_ops(base, self.bus.ops());
                    assert(self.bus.ops() =~= base + samples);
                    lemma_return_shape(base, samples, self.bus.ops());
                    assert(sample_pairs_disagree(samples));
                }
                return Ok(Vec::new());
            },
            Err(e) => {
                proof {
                    let samples = appended_ops(base, self.bus.ops());
                    assert(self.bus.ops() =~= base + samples);
                    lemma_return_shape(base, samples, self.bus.ops());
                }
                return Err(e);
            },
        };
        let ghost samples = appended_ops(base, self.bus.ops());
        proof {
            assert(self.bus.ops() =~= base + samples);
        }
        if available < 2 {
            proof {
                lemma_return_shape(base, samples, self.bus.ops());
                crate::frame::lemma_be2_roundtrip(0, 0, available);
                assert(samples[samples.len() - 1] == rd(
                    1,
                    socketn::RECEIVED_SIZE,
                    spec_be2(available),
                ));
                assert(spec_data_u16(samples[samples.len() - 1]) == available);
            }
            return Ok(Vec::new());
        }
        let read_pointer = match self.raw_socket.get_rx_read_pointer(&mut self.bus) {
            Ok(v) => v,
            Err(e) => {
                proof {
                    lemma_return_shape(base, samples, self.bus.ops());
                }
                return Err(e);
            },
        };
        let ghost op_rp = rd(1u8, socketn::RX_DATA_READ_POINTER, spec_be2(read_pointer));
        proof {
            assert(self.bus.ops() =~= base + (samples + seq![op_rp]));
        }
        let prefix = match self.bus.read_frame(self.raw_socket.rx_buffer(), read_pointer, 2) {
            Ok(v) => v,
            Err(e) => {
                proof {
                    lemma_return_shape(base, samples + seq![op_rp], self.bus.ops());
                }
                return Err(e);
            },
        };
        let ghost op_hdr = rd(3u8, read_pointer, prefix@);
        proof {
            assert(self.bus.ops() =~= base + (samples + seq![op_rp, op_hdr]));
        }
        let raw_size = crate::frame::u16_from_be(prefix[0], prefix[1]);
        let expected: u16 = if raw_size >= 2 {
            raw_size - 2
        } else {
            0
        };
        let room: usize = if max_len < (available - 2) as usize {
            max_len
        } else {
            (available - 2) as usize
        };
        let n: usize = if (expected as usize) < room {
            expected as usize
        } else {
            room
        };
        let data_pointer = crate::frame::wrap_add16(read_pointer, 2);
        let data = match self.bus.read_frame(self.raw_socket.rx_buffer(), data_pointer, n) {
            Ok(v) => v,
            Err(e) => {
                proof {
                    lemma_return_shape(base, samples + seq![op_rp, op_hdr], self.bus.ops());
                }
                return Err(e);
            },
        };
        let ghost op_data = rd(3u8, add16(read_pointer, 2), data@);
        proof {
            assert(self.bus.ops() =~= base + (samples + seq![op_rp, op_hdr, op_data]));
        }
        let left_in_frame = expected as usize - n;
        let left_available = (available - 2) as usize - n;
        let skipped: usize = if left_in_frame < left_available {
            left_in_frame
        } else {
            left_available
        };
        let consumed: u16 = 2 + n as u16 + skipped as u16;
        let new_read_pointer = crate::frame::wrap_add16(read_pointer, consumed);
        match self.raw_socket.set_rx_read_pointer(&mut self.bus, new_read_pointer) {
            Ok(_) => (),
            Err(e) => {
                proof {
                    lemma_return_shape(base, samples + seq![op_rp, op_hdr, op_data], self.bus.ops());
                }
                return Err(e);
            },
        }
        let ghost op_wrp = wr(
            1u8,
            socketn::RX_DATA_READ_POINTER,
            spec_be2(add16(read_pointer, consumed as int)),
        );
        proof {
            assert(self.bus.ops() =~= base + (samples + seq![op_rp, op_hdr, op_data, op_wrp]));
        }
        match self.raw_socket.command(&mut self.bus, socketn::Command::Receive) {
            Ok(_) => (),
            Err(e) => {
                proof {
                    lemma_return_shape(
                        base,
                        samples + seq![op_rp, op_hdr, op_data, op_wrp],
                        self.bus.ops(),
                    );
                }
                return Err(e);
            },
        }
        let ghost op_cmd = wr(1u8, socketn::COMMAND, seq![0x40u8]);
        proof {
            let appended = samples + seq![op_rp, op_hdr, op_data, op_wrp, op_cmd];
            assert(self.bus.ops() =~= base + appended);
            lemma_return_shape(base, appended, self.bus.ops());
            let k = appended.len();
            let m = samples.len();
            assert(m >= 2);
            assert(k == m + 5);
            assert(appended.subrange(0, k - 5) =~= samples);
            assert(appended[k - 6] == samples[m - 1]);
            assert(appended[k - 7] == samples[m - 2]);
            crate::frame::lemma_be2_roundtrip(0, 0, available);
            crate::frame::lemma_be2_roundtrip(0, 0, read_pointer);
            crate::frame::lemma_be2_roundtrip(prefix@[0], prefix@[1], 0);
            assert(spec_data_u16(appended[k - 6]) == available);
            assert(spec_data_u16(appended[k - 5]) == read_pointer);
            assert(spec_u16(prefix@[0], prefix@[1]) == raw_size);
        }
        Ok(data)
    }

    /// Write one Ethernet frame: the first min(frame length, TX_FREE_SIZE)
    /// bytes are written at the TX write pointer, the pointer advances by
    /// exactly that count modulo 2^16, SEND is issued and the SEND_OK
    /// interrupt — cleared up front — is awaited.  Returns how many bytes
    /// were written; would-block means the poll budget ran out with SEND_OK
    /// never observed set.
    #[verifier::rlimit(60)]
    pub fn write_frame(&mut self, frame: &Vec<u8>) -> (r: NbResult<usize, SpiBus::Error>)
        requires
            old(self).wf(),
        ensures
            final (self).wf(),
            final (self).raw_socket == old(self).raw_socket,
            ({
                let appended = appended_ops(old(self).bus.ops(), final (self).bus.ops());
                let k = appended.len();
                let fs = spec_data_u16(appended[1]);
                let wp = spec_data_u16(appended[2]);
                let sent = vstd::math::min(frame@.len() as int, fs as int);
                let commit: int = if sent > 0 {
                    4
                } else {
                    3
                };
                &&& extends(old(self).bus.ops(), final (self).bus.ops())
                &&& (r matches Ok(count) ==> ({
                    &&& count == sent
                    &&& k >= commit + 3
                    &&& spec_raw_write_commit(frame@, appended)
                    &&& all_interrupt_reads(1, appended.skip(commit + 2))
                    &&& appended[k - 1].data()[0] & 0x10 != 0
                }))
                &&& (r matches Err(e) && e is WouldBlock ==> ({
                    &&& k >= commit + 2
                    &&& spec_raw_write_commit(frame@, appended)
                    &&& all_interrupt_reads(1, appended.skip(commit + 2))
                    &&& (forall|i: int|
                        commit + 2 <= i < k ==> (#[trigger] appended[i]).data()[0] & 0x10 == 0)
                }))
            }),
    {
        let ghost base = self.bus.ops();
        match self.raw_socket.reset_interrupt(&mut self.bus, socketn::Interrupt::SendOk) {
            Ok(_) => (),
            Err(e) => {
                proof {
                    assert(self.bus.ops() =~= base + self.bus.ops().skip(base.len() as int));
                }
                return Err(NbError::Other(e));
            },
        }
        let ghost op0 = wr(1u8, socketn::INTERRUPT, seq![0x10u8]);
        let free_size = match self.raw_socket.get_tx_free_size(&mut self.bus) {
            Ok(v) => v,
            Err(e) => {
                proof {
                    assert(base.push(op0) =~= base + seq![op0]);
                    lemma_return_shape(base, seq![op0], self.bus.ops());
                }
                return Err(NbError::Other(e));
            },
        };
        let ghost op1 = rd(1u8, socketn::TX_FREE_SIZE, spec_be2(free_size));
        let write_pointer = match self.raw_socket.get_tx_write_pointer(&mut self.bus) {
            Ok(v) => v,
            Err(e) => {
                proof {
                    assert(base.push(op0).push(op1) =~= base + seq![op0, op1]);
                    lemma_return_shape(base, seq![op0, op1], self.bus.ops());
                }
                return Err(NbError::Other(e));
            },
        };
        let ghost op2 = rd(1u8, socketn::TX_DATA_WRITE_POINTER, spec_be2(write_pointer));
        let count: usize = if frame.len() < free_size as usize {
            frame.len()
        } else {
            free_size as usize
        };
        if count > 0 {
            let mut chunk: Vec<u8> = Vec::new();
            let mut i: usize = 0;
            while i < count
                invariant
                    i <= count,
                    count <= frame@.len(),
                    chunk@ == frame@.take(i as int),
                decreases count - i,
            {
                chunk.push(frame[i]);
                i = i + 1;
                assert(chunk@ =~= frame@.take(i as int));
            }
            match self.bus.write_frame(self.raw_socket.tx_buffer(), write_pointer, &chunk) {
                Ok(_) => (),
                Err(e) => {
                    proof {
                        assert(base.push(op0).push(op1).push(op2) =~= base + seq![op0, op1, op2]);
                        lemma_return_shape(base, seq![op0, op1, op2], self.bus.ops());
                    }
                    return Err(NbError::Other(e));
                },
            }
        }
        let ghost front: Seq<BusOp> = if count > 0 {
            seq![op0, op1, op2, wr(2u8, write_pointer, frame@.take(count as int))]
        } else {
            seq![op0, op1, op2]
        };
        proof {
            assert(self.bus.ops() =~= base + front);
        }
        let new_write_pointer = crate::frame::wrap_add16(write_pointer, count as u16);
        match self.raw_socket.set_tx_write_pointer(&mut self.bus, new_write_pointer) {
            Ok(_) => (),
            Err(e) => {
                proof {
                    lemma_return_shape(base, front, self.bus.ops());
                }
                return Err(NbError::Other(e));
            },
        }
        match self.raw_socket.command(&mut self.bus, socketn::Command::Send) {
            Ok(_) => (),
            Err(e) => {
                proof {
                    assert(self.bus.ops() =~= base + (front + seq![
                        wr(1u8, socketn::TX_DATA_WRITE_POINTER, spec_be2(add16(write_pointer, count as int))),
                    ]));
                    lemma_return_shape(
                        base,
                        front + seq![
                            wr(
                                1u8,
                                socketn::TX_DATA_WRITE_POINTER,
                                spec_be2(add16(write_pointer, count as int)),
                            ),
                        ],
                        self.bus.ops(),
                    );
                }
                return Err(NbError::Other(e));
            },
        }
        let ghost committed = front + seq![
            wr(1u8, socketn::TX_DATA_WRITE_POINTER, spec_be2(add16(write_pointer, count as int))),
            wr(1u8, socketn::COMMAND, seq![0x20u8]),
        ];
        proof {
            assert(self.bus.ops() =~= base + committed);
        }
        let ghost mut polls: Seq<BusOp> = Seq::empty();
        proof {
            assert(base + committed + polls =~= base + committed);
        }
        let mut attempts: u32 = POLL_ATTEMPTS;
        while attempts > 0
            invariant
                self.wf(),
                self.raw_socket == old(self).raw_socket,
                base == old(self).bus.ops(),
                self.bus.ops() == base + committed + polls,
                all_interrupt_reads(1, polls),
                committed == front + seq![
                    wr(
                        1u8,
                        socketn::TX_DATA_WRITE_POINTER,
                        spec_be2(add16(write_pointer, count as int)),
                    ),
                    wr(1u8, socketn::COMMAND, seq![0x20u8]),
                ],
                front == (if count > 0 {
                    seq![op0, op1, op2, wr(2u8, write_pointer, frame@.take(count as int))]
                } else {
                    seq![op0, op1, op2]
                }),
                op0 == wr(1u8, socketn::INTERRUPT, seq![0x10u8]),
                op1 == rd(1u8, socketn::TX_FREE_SIZE, spec_be2(free_size)),
                op2 == rd(1u8, socketn::TX_DATA_WRITE_POINTER, spec_be2(write_pointer)),
                count == vstd::math::min(frame@.len() as int, free_size as int),
                forall|i: int| 0 <= i < polls.len() ==> (#[trigger] polls[i]).data()[0] & 0x10 == 0,
            decreases attempts,
        {
            let ir = match self.raw_socket.get_interrupt(&mut self.bus) {
                Ok(v) => v,
                Err(e) => {
                    proof {
                        assert(self.bus.ops() =~= base + (committed + polls));
                        lemma_return_shape(base, committed + polls, self.bus.ops());
                    }
                    return Err(NbError::Other(e));
                },
            };
            proof {
                let op = rd(1u8, socketn::INTERRUPT, seq![ir]);
                assert(base + committed + polls.push(op) =~= (base + committed + polls).push(op));
                polls = polls.push(op);
                assert forall|i: int| 0 <= i < polls.len() implies is_reg_read(
                    1,
                    socketn::INTERRUPT,
                    1,
                    #[trigger] polls[i],
                ) by {}
            }
            if ir & 0x10 != 0 {
                proof {
                    let appended = committed + polls;
                    assert(self.bus.ops() =~= base + appended);
                    lemma_return_shape(base, appended, self.bus.ops());
                    crate::frame::lemma_be2_roundtrip(0, 0, free_size);
                    crate::frame::lemma_be2_roundtrip(0, 0, write_pointer);
                    let commit: int = if count > 0 {
                        4
                    } else {
                        3
                    };
                    assert(appended.skip(commit + 2) =~= polls);
                }
                return Ok(count);
            }
            attempts = attempts - 1;
        }
        proof {
            let appended = committed + polls;
            assert(self.bus.ops() =~= base + appended);
            lemma_return_shape(base, appended, self.bus.ops());
            crate::frame::lemma_be2_roundtrip(0, 0, free_size);
            crate::frame::lemma_be2_roundtrip(0, 0, write_pointer);
            let commit: int = if count > 0 {
                4
            } else {
                3
            };
            assert(appended.skip(commit + 2) =~= polls);
        }
        Err(NbError::WouldBlock)
    }

    /// Unmask the given socket-0 interrupts and enable socket 0's line in the
    /// chip-wide socket interrupt mask.
    pub fn enable_interrupts(&mut self, which: u8) -> (r: Result<(), SpiBus::Error>)
        requires
            old(self).wf(),
        ensures
            final (self).wf(),
            final (self).raw_socket == old(self).raw_socket,
            r matches Ok(_) ==> final (self).bus.ops() == old(self).bus.ops() + seq![
                wr(1u8, socketn::INTERRUPT_MASK, seq![which]),
                wr(register::COMMON, common::SOCKET_INTERRUPT_MASK, seq![1u8]),
            ],
    {
        let ghost base = self.bus.ops();
        match self.raw_socket.set_interrupt_mask(&mut self.bus, which) {
            Ok(_) => (),
            Err(e) => {
                return Err(e);
            },
        }
        match crate::bus::write_u8(
            &mut self.bus,
            register::COMMON,
            common::SOCKET_INTERRUPT_MASK,
            1,
        ) {
            Ok(_) => (),
            Err(e) => {
                return Err(e);
            },
        }
        proof {
            assert(self.bus.ops() =~= base + seq![
                wr(1u8, socketn::INTERRUPT_MASK, seq![which]),
                wr(register::COMMON, common::SOCKET_INTERRUPT_MASK, seq![1u8]),
            ]);
        }
        Ok(())
    }

    /// Mask socket 0's line in the chip-wide socket interrupt mask and mask
    /// every socket-0 interrupt.
    pub fn disable_interrupts(&mut self) -> (r: Result<(), SpiBus::Error>)
        requires
            old(self).wf(),
        ensures
            final (self).wf(),
            final (self).raw_socket == old(self).raw_socket,
            r matches Ok(_) ==> final (self).bus.ops() == old(self).bus.ops() + seq![
                wr(register::COMMON, common::SOCKET_INTERRUPT_MASK, seq![0u8]),
                wr(1u8, socketn::INTERRUPT_MASK, seq![0xFFu8]),
            ],
    {
        let ghost base = self.bus.ops();
        match crate::bus::write_u8(
            &mut self.bus,
            register::COMMON,
            common::SOCKET_INTERRUPT_MASK,
            0,
        ) {
            Ok(_) => (),
            Err(e) => {
                return Err(e);
            },
        }
        match self.raw_socket.set_interrupt_mask(&mut self.bus, 0xFF) {
            Ok(_) => (),
            Err(e) => {
                return Err(e);
            },
        }
        proof {
            assert(self.bus.ops() =~= base + seq![
                wr(register::COMMON, common::SOCKET_INTERRUPT_MASK, seq![0u8]),
                wr(1u8, socketn::INTERRUPT_MASK, seq![0xFFu8]),
            ]);
        }
        Ok(())
    }

    /// Clear every pending socket-0 interrupt.
    pub fn clear_interrupts(&mut self) -> (r: Result<(), SpiBus::Error>)
        requires
            old(self).wf(),
        ensures
            final (self).wf(),
            final (self).raw_socket == old(self).raw_socket,
            r matches Ok(_) ==> final (self).bus.ops() == old(self).bus.ops().push(
                wr(1u8, socketn::INTERRUPT, seq![0xFFu8]),
            ),
    {
        self.raw_socket.reset_interrupt(&mut self.bus, socketn::Interrupt::All)
    }
}

} // verus!
