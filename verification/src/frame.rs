//! The SPI wire format of the chip.
//!
//! Every access to the chip is a frame: a 16-bit big-endian address, one
//! control byte, and a data phase.  The control byte carries the register
//! block in its upper five bits, the direction in bit 2, and the operation
//! mode in its lowest two bits.  In variable data mode (VDM) one frame
//! carries the whole data phase; in fixed data mode (FDM) the data phase is
//! split into chunks of four, two, or one bytes, each sent as its own frame
//! at the accordingly advanced address.

use vstd::prelude::*;

verus! {

/// Direction bit of the control byte: set for a write access.
pub const WRITE_MODE_MASK: u8 = 0x04;

/// Operation mode bits: variable-length data phase.
pub const VARIABLE_DATA_MODE: u8 = 0b00;

/// Operation mode bits: fixed one-byte data phase.
pub const FIXED_DATA_LENGTH_MODE_1: u8 = 0b01;

/// Operation mode bits: fixed two-byte data phase.
pub const FIXED_DATA_LENGTH_MODE_2: u8 = 0b10;

/// Operation mode bits: fixed four-byte data phase.
pub const FIXED_DATA_LENGTH_MODE_4: u8 = 0b11;

/// The control byte of a frame: block identifier in bits 7..3, direction in
/// bit 2, operation mode in bits 1..0.
pub open spec fn spec_control_byte(block: u8, write: bool, opmode: u8) -> u8 {
    (block << 3) | (if write {
        WRITE_MODE_MASK
    } else {
        0u8
    }) | opmode
}

pub fn control_byte(block: u8, write: bool, opmode: u8) -> (r: u8)
    ensures
        r == spec_control_byte(block, write, opmode),
{
    (block << 3) | (if write {
        WRITE_MODE_MASK
    } else {
        0u8
    }) | opmode
}

/// High byte of a big-endian 16-bit value.
pub open spec fn spec_hi(v: u16) -> u8 {
    (v / 256) as u8
}

/// Low byte of a big-endian 16-bit value.
pub open spec fn spec_lo(v: u16) -> u8 {
    (v % 256) as u8
}

/// The two big-endian bytes of a 16-bit value.
pub open spec fn spec_be2(v: u16) -> Seq<u8> {
    seq![spec_hi(v), spec_lo(v)]
}

/// The 16-bit value read back from two big-endian bytes.
pub open spec fn spec_u16(hi: u8, lo: u8) -> u16 {
    (hi * 256 + lo) as u16
}

/// Addition of a byte count to a ring pointer, modulo 2^16.
pub open spec fn add16(a: u16, n: int) -> u16 {
    ((a + n) % 0x10000) as u16
}

/// Big-endian encoding and decoding of 16-bit values invert each other.
pub proof fn lemma_be2_roundtrip(hi: u8, lo: u8, v: u16)
    ensures
        spec_be2(spec_u16(hi, lo)) == seq![hi, lo],
        spec_u16(spec_hi(v), spec_lo(v)) == v,
{
    assert(hi * 256 + lo < 0x10000) by (nonlinear_arith)
        requires
            hi < 256 && lo < 256,
    ;
    assert((hi * 256 + lo) / 256 == hi && (hi * 256 + lo) % 256 == lo) by (nonlinear_arith)
        requires
            lo < 256,
    ;
    assert(spec_be2(spec_u16(hi, lo)) =~= seq![hi, lo]);
    assert((v / 256) * 256 + v % 256 == v) by (nonlinear_arith);
    assert(v / 256 < 256 && v % 256 < 256) by (nonlinear_arith);
}

pub fn be2(v: u16) -> (r: Vec<u8>)
    ensures
        r@ == spec_be2(v),
{
    let mut out: Vec<u8> = Vec::new();
    out.push((v / 256) as u8);
    out.push((v % 256) as u8);
    assert(out@ =~= spec_be2(v));
    out
}

pub fn u16_from_be(hi: u8, lo: u8) -> (r: u16)
    ensures
        r == spec_u16(hi, lo),
{
    proof {
        lemma_be2_roundtrip(hi, lo, 0);
    }
    (hi as u16) * 256 + (lo as u16)
}

/// Ring-pointer addition: wraps modulo 2^16 as the chip's pointer registers do.
pub fn wrap_add16(a: u16, n: u16) -> (r: u16)
    ensures
        r == add16(a, n as int),
{
    if n <= u16::MAX - a {
        a + n
    } else {
        let r = (a as u32 + n as u32 - 0x10000) as u16;
        assert(r == add16(a, n as int)) by {
            assert((a + n) % 0x10000 == a + n - 0x10000) by (nonlinear_arith)
                requires
                    0x10000 <= a + n < 0x20000,
            ;
        }
        r
    }
}

/// The byte stream of one variable-data-mode write frame: the two address
/// bytes, the control byte with the direction bit set, then the payload.
pub open spec fn spec_vdm_write(block: u8, address: u16, data: Seq<u8>) -> Seq<u8> {
    seq![spec_hi(address), spec_lo(address), spec_control_byte(block, true, VARIABLE_DATA_MODE)]
        + data
}

/// The header bytes of one variable-data-mode read frame; the data phase that
/// follows clocks the requested number of bytes in from the chip.
pub open spec fn spec_vdm_read_header(block: u8, address: u16) -> Seq<u8> {
    seq![spec_hi(address), spec_lo(address), spec_control_byte(block, false, VARIABLE_DATA_MODE)]
}

pub fn vdm_write_bytes(block: u8, address: u16, data: &Vec<u8>) -> (r: Vec<u8>)
    ensures
        r@ == spec_vdm_write(block, address, data@),
{
    let mut out: Vec<u8> = Vec::new();
    out.push((address / 256) as u8);
    out.push((address % 256) as u8);
    out.push(control_byte(block, true, VARIABLE_DATA_MODE));
    let mut i: usize = 0;
    while i < data.len()
        invariant
            i <= data@.len(),
            out@ == spec_vdm_write(block, address, data@.take(i as int)),
        decreases data@.len() - i,
    {
        out.push(data[i]);
        i = i + 1;
        assert(out@ =~= spec_vdm_write(block, address, data@.take(i as int)));
    }
    assert(data@.take(data@.len() as int) =~= data@);
    out
}

pub fn vdm_read_header(block: u8, address: u16) -> (r: Vec<u8>)
    ensures
        r@ == spec_vdm_read_header(block, address),
{
    let mut out: Vec<u8> = Vec::new();
    out.push((address / 256) as u8);
    out.push((address % 256) as u8);
    out.push(control_byte(block, false, VARIABLE_DATA_MODE));
    assert(out@ =~= spec_vdm_read_header(block, address));
    out
}

/// The variable-data-mode byte streams, in shift-and-mask form: a write of
/// `data` to `address` in `block` clocks out exactly `address >> 8`,
/// `address & 0xFF`, `(block << 3) | 0x04`, then the payload; a read frame's
/// header is the same with the direction bit clear, and the data phase that
/// follows clocks the requested bytes in.
pub proof fn lemma_vdm_layout(block: u8, address: u16, data: Seq<u8>)
    ensures
        ({
            let stream = spec_vdm_write(block, address, data);
            &&& stream.len() == 3 + data.len()
            &&& stream[0] == (address >> 8) as u8
            &&& stream[1] == (address & 0xFF) as u8
            &&& stream[2] == (block << 3) | 0x04
            &&& stream.skip(3) == data
        }),
        ({
            let header = spec_vdm_read_header(block, address);
            &&& header.len() == 3
            &&& header[0] == (address >> 8) as u8
            &&& header[1] == (address & 0xFF) as u8
            &&& header[2] == block << 3
        }),
{
    assert(address / 256 == address >> 8) by (bit_vector);
    assert(address % 256 == address & 0xFF) by (bit_vector);
    assert((block << 3) | 0x04 | 0x00 == (block << 3) | 0x04) by (bit_vector);
    assert((block << 3) | 0x00 | 0x00 == block << 3) by (bit_vector);
    assert(spec_vdm_write(block, address, data).skip(3) =~= data);
}

/// One chunk of a fixed-data-mode transfer: the address it is sent at, the
/// offset of its payload within the whole data phase, and its size.
#[derive(Copy, Clone, Debug, PartialEq, Eq, Structural)]
pub struct FdmChunk {
    pub address: u16,
    pub offset: usize,
    pub size: u8,
}

/// The greedy fixed-data-mode chunk size for `n` remaining bytes: the largest
/// of 4, 2, 1 that fits.
pub open spec fn spec_fdm_step(n: int) -> int {
    if n >= 4 {
        4
    } else if n >= 2 {
        2
    } else {
        1
    }
}

/// The fixed-data-mode chunk plan for `n` bytes of payload starting at
/// `offset`, sent beginning at `address`: greedy largest-first chunks, the
/// address advancing by each chunk's size.
pub open spec fn spec_fdm_plan(address: u16, offset: int, n: int) -> Seq<FdmChunk>
    decreases n,
{
    if n <= 0 {
        Seq::empty()
    } else {
        let step = spec_fdm_step(n);
        seq![FdmChunk { address, offset: offset as usize, size: step as u8 }] + spec_fdm_plan(
            add16(address, step),
            offset + step,
            n - step,
        )
    }
}

/// The operation-mode bits announcing a fixed chunk of `size` bytes.
pub open spec fn spec_fdm_mode(size: u8) -> u8 {
    if size == 4 {
        FIXED_DATA_LENGTH_MODE_4
    } else if size == 2 {
        FIXED_DATA_LENGTH_MODE_2
    } else {
        FIXED_DATA_LENGTH_MODE_1
    }
}

pub fn fdm_mode(size: u8) -> (r: u8)
    ensures
        r == spec_fdm_mode(size),
{
    if size == 4 {
        FIXED_DATA_LENGTH_MODE_4
    } else if size == 2 {
        FIXED_DATA_LENGTH_MODE_2
    } else {
        FIXED_DATA_LENGTH_MODE_1
    }
}

/// The header bytes of one fixed-data-mode frame carrying `chunk`.
pub fn fdm_chunk_header(block: u8, write: bool, chunk: FdmChunk) -> (r: Vec<u8>)
    ensures
        r@ == seq![
            spec_hi(chunk.address),
            spec_lo(chunk.address),
            spec_control_byte(block, write, spec_fdm_mode(chunk.size)),
        ],
{
    let mut out: Vec<u8> = Vec::new();
    out.push((chunk.address / 256) as u8);
    out.push((chunk.address % 256) as u8);
    out.push(control_byte(block, write, fdm_mode(chunk.size)));
    assert(out@ =~= seq![
        spec_hi(chunk.address),
        spec_lo(chunk.address),
        spec_control_byte(block, write, spec_fdm_mode(chunk.size)),
    ]);
    out
}

/// The chunk plan for a payload of `len` bytes written or read at `address`.
pub fn fdm_chunks(address: u16, len: usize) -> (r: Vec<FdmChunk>)
    ensures
        r@ == spec_fdm_plan(address, 0, len as int),
{
    let mut out: Vec<FdmChunk> = Vec::new();
    let mut cur_address: u16 = address;
    let mut offset: usize = 0;
    while offset < len
        invariant
            offset <= len,
            out@ + spec_fdm_plan(cur_address, offset as int, len - offset) == spec_fdm_plan(
                address,
                0,
                len as int,
            ),
        decreases len - offset,
    {
        let remaining = len - offset;
        let step: u8 = if remaining >= 4 {
            4
        } else if remaining >= 2 {
            2
        } else {
            1
        };
        let chunk = FdmChunk { address: cur_address, offset, size: step };
        proof {
            assert(spec_fdm_plan(cur_address, offset as int, len - offset) == seq![chunk]
                + spec_fdm_plan(
                add16(cur_address, step as int),
                offset + step,
                len - offset - step,
            ));
            assert(out@ + (seq![chunk] + spec_fdm_plan(
                add16(cur_address, step as int),
                offset + step,
                len - offset - step,
            )) =~= out@.push(chunk) + spec_fdm_plan(
                add16(cur_address, step as int),
                offset + step,
                len - offset - step,
            ));
        }
        out.push(chunk);
        cur_address = wrap_add16(cur_address, step as u16);
        offset = offset + step as usize;
    }
    proof {
        assert(out@ + spec_fdm_plan(cur_address, offset as int, 0) =~= out@);
    }
    out
}

/// The payload bytes of the plan's chunks, concatenated in order.
pub open spec fn spec_fdm_concat(plan: Seq<FdmChunk>, data: Seq<u8>) -> Seq<u8>
    decreases plan.len(),
{
    if plan.len() == 0 {
        Seq::empty()
    } else {
        data.subrange(plan[0].offset as int, plan[0].offset + plan[0].size) + spec_fdm_concat(
            plan.drop_first(),
            data,
        )
    }
}

/// Fixed data mode covers the payload exactly: chunk sizes are the greedy
/// largest of 4, 2, 1 that fit the remaining bytes; each chunk's offset and
/// address advance by the size of the chunk before it; and concatenating the
/// chunks' data phases restores the whole payload.
#[verifier::spinoff_prover]
#[verifier::rlimit(60)]
pub proof fn lemma_fdm_plan_covers(address: u16, offset: int, data: Seq<u8>)
    requires
        0 <= offset <= data.len(),
        data.len() <= usize::MAX,
    ensures
        ({
            let plan = spec_fdm_plan(address, offset, data.len() - offset);
            &&& spec_fdm_concat(plan, data) == data.subrange(offset, data.len() as int)
            &&& (plan.len() > 0 ==> plan[0].address == address && plan[0].offset == offset)
            &&& (plan.len() == 0 <==> offset == data.len())
            &&& forall|i: int|
                0 <= i < plan.len() ==> #[trigger] plan[i].size == spec_fdm_step(
                    data.len() - plan[i].offset,
                )
            &&& forall|i: int|
                0 <= i < plan.len() - 1 ==> #[trigger] plan[i + 1].offset == plan[i].offset
                    + plan[i].size && plan[i + 1].address == add16(
                    plan[i].address,
                    plan[i].size as int,
                )
            &&& (plan.len() > 0 ==> plan.last().offset + plan.last().size == data.len())
        }),
    decreases data.len() - offset,
{
    let n = data.len() - offset;
    let plan = spec_fdm_plan(address, offset, n);
    if n <= 0 {
        assert(spec_fdm_concat(plan, data) =~= data.subrange(offset, data.len() as int));
    } else {
        let step = spec_fdm_step(n);
        let tail_addr = add16(address, step);
        lemma_fdm_plan_covers(tail_addr, offset + step, data);
        let tail = spec_fdm_plan(tail_addr, offset + step, n - step);
        assert(plan == seq![FdmChunk { address, offset: offset as usize, size: step as u8 }]
            + tail);
        assert(plan.drop_first() =~= tail);
        assert(spec_fdm_concat(plan, data) == data.subrange(offset, offset + step)
            + spec_fdm_concat(tail, data));
        assert(data.subrange(offset, offset + step) + data.subrange(
            offset + step,
            data.len() as int,
        ) =~= data.subrange(offset, data.len() as int));
        assert forall|i: int| 0 <= i < plan.len() - 1 implies #[trigger] plan[i + 1].offset
            == plan[i].offset + plan[i].size && plan[i + 1].address == add16(
            plan[i].address,
            plan[i].size as int,
        ) by {
            if i == 0 {
                if tail.len() > 0 {
                    assert(plan[1] == tail[0]);
                }
            } else {
                assert(plan[i] == tail[i - 1]);
                assert(plan[i + 1] == tail[i]);
            }
        }
        assert forall|i: int| 0 <= i < plan.len() implies #[trigger] plan[i].size == spec_fdm_step(
            data.len() - plan[i].offset,
        ) by {
            if i > 0 {
                assert(plan[i] == tail[i - 1]);
            }
        }
        if tail.len() > 0 {
            assert(plan.last() == tail.last());
        }
    }
}

} // verus!
