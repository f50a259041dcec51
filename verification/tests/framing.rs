//! The SPI wire format: control bytes, big-endian helpers, VDM byte streams
//! and FDM chunk plans on literal values.

use w5500::frame::{
    be2, control_byte, fdm_chunk_header, fdm_chunks, u16_from_be, vdm_read_header, vdm_write_bytes,
    wrap_add16,
};

#[test]
fn test_control_byte_layout() {
    // block in bits 7..3, direction in bit 2, opmode in bits 1..0
    assert_eq!(control_byte(0b00000, false, 0b00), 0x00);
    assert_eq!(control_byte(0b00000, true, 0b00), 0x04);
    assert_eq!(control_byte(0b00101, true, 0b00), (0b00101 << 3) | 0x04);
    assert_eq!(control_byte(0b11111, false, 0b11), 0b11111_0_11);
}

#[test]
fn test_be2_roundtrip() {
    assert_eq!(be2(0x1234), vec![0x12, 0x34]);
    assert_eq!(be2(0x00FF), vec![0x00, 0xFF]);
    assert_eq!(u16_from_be(0x12, 0x34), 0x1234);
    assert_eq!(u16_from_be(0xC2, 0xB9), 49849);
}

#[test]
fn test_wrap_add16() {
    assert_eq!(wrap_add16(0, 2), 2);
    assert_eq!(wrap_add16(0xFFFF, 1), 0);
    assert_eq!(wrap_add16(0xFFF0, 0x20), 0x0010);
}

#[test]
fn test_vdm_write_stream() {
    // a write of the source port 49849 on socket 1: header then payload
    let stream = vdm_write_bytes(0b00101, 0x0004, &vec![0xC2, 0xB9]);
    assert_eq!(stream, vec![0x00, 0x04, (0b00101 << 3) | 0x04, 0xC2, 0xB9]);
}

#[test]
fn test_vdm_read_header() {
    // a read of the common VERSION register
    let header = vdm_read_header(0b00000, 0x0039);
    assert_eq!(header, vec![0x00, 0x39, 0b00000_0_00]);
}

#[test]
fn test_fdm_chunks_greedy() {
    // seven bytes at address 23: chunks of 4, 2, 1 at addresses 23, 27, 29
    let plan = fdm_chunks(23, 7);
    assert_eq!(plan.len(), 3);
    assert_eq!((plan[0].address, plan[0].offset, plan[0].size), (23, 0, 4));
    assert_eq!((plan[1].address, plan[1].offset, plan[1].size), (27, 4, 2));
    assert_eq!((plan[2].address, plan[2].offset, plan[2].size), (29, 6, 1));
}

#[test]
fn test_fdm_chunks_cover_payload() {
    let data: Vec<u8> = vec![0xF0, 0xAB, 0x83, 0xB2, 0x44, 0x2C, 0xAA];
    let plan = fdm_chunks(23, data.len());
    let mut rebuilt: Vec<u8> = Vec::new();
    for chunk in &plan {
        let start = chunk.offset;
        let end = chunk.offset + chunk.size as usize;
        rebuilt.extend_from_slice(&data[start..end]);
    }
    assert_eq!(rebuilt, data);
}

#[test]
fn test_fdm_chunk_sizes_one_of_421() {
    for len in 0..40usize {
        let plan = fdm_chunks(0x1000, len);
        let mut covered = 0usize;
        for chunk in &plan {
            assert!(chunk.size == 4 || chunk.size == 2 || chunk.size == 1);
            assert_eq!(chunk.offset, covered);
            covered += chunk.size as usize;
        }
        assert_eq!(covered, len);
    }
}

#[test]
fn test_fdm_chunk_header_modes() {
    let plan = fdm_chunks(0x0010, 7);
    // opmode bits: 11 for 4 bytes, 10 for 2 bytes, 01 for 1 byte
    assert_eq!(fdm_chunk_header(0b00010, true, plan[0]), vec![0x00, 0x10, (0b00010 << 3) | 0x04 | 0b11]);
    assert_eq!(fdm_chunk_header(0b00010, true, plan[1]), vec![0x00, 0x14, (0b00010 << 3) | 0x04 | 0b10]);
    assert_eq!(fdm_chunk_header(0b00010, false, plan[2]), vec![0x00, 0x16, (0b00010 << 3) | 0b01]);
}
