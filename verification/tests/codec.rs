//! The wire codec: fixed-width reads and writes mirror each other, reads
//! past the end fail recoverably, and strings are validated UTF-8.

use cactus_client::binary::{DecodeError, StreamPeerBuffer};

#[test]
fn u8_round_trip() {
    let mut buf = StreamPeerBuffer::new();
    buf.put_u8(0);
    buf.put_u8(255);
    buf.put_u8(42);
    let mut rd = StreamPeerBuffer::new();
    rd.set_data_array(buf.data.clone());
    assert_eq!(rd.get_u8(), Ok(0));
    assert_eq!(rd.get_u8(), Ok(255));
    assert_eq!(rd.get_u8(), Ok(42));
    assert_eq!(rd.get_u8(), Err(DecodeError::Truncated));
}

#[test]
fn u16_is_big_endian() {
    let mut buf = StreamPeerBuffer::new();
    buf.put_u16(0x1234);
    assert_eq!(buf.data, vec![0x12, 0x34]);
    let mut rd = StreamPeerBuffer::new();
    rd.set_data_array(vec![0x12, 0x34]);
    assert_eq!(rd.get_u16(), Ok(0x1234));
}

#[test]
fn signed16_round_trip() {
    for v in [0i16, 1, -1, 32767, -32768, 1000, -5] {
        let mut buf = StreamPeerBuffer::new();
        buf.put_16(v);
        let mut rd = StreamPeerBuffer::new();
        rd.set_data_array(buf.data.clone());
        assert_eq!(rd.get_16(), Ok(v));
    }
}

#[test]
fn u32_round_trip() {
    for v in [0u32, 1, 0xdead_beef, u32::MAX] {
        let mut buf = StreamPeerBuffer::new();
        buf.put_u32(v);
        assert_eq!(buf.data.len(), 4);
        let mut rd = StreamPeerBuffer::new();
        rd.set_data_array(buf.data.clone());
        assert_eq!(rd.get_u32(), Ok(v));
    }
}

#[test]
fn float_bits_round_trip() {
    let bits = 2.5f32.to_bits();
    let mut buf = StreamPeerBuffer::new();
    buf.put_f32_bits(bits);
    let mut rd = StreamPeerBuffer::new();
    rd.set_data_array(buf.data.clone());
    assert_eq!(rd.get_f32_bits(), Ok(bits));

    let dbits = 123.456f64.to_bits();
    let mut buf2 = StreamPeerBuffer::new();
    buf2.put_f64_bits(dbits);
    assert_eq!(buf2.data.len(), 8);
    let mut rd2 = StreamPeerBuffer::new();
    rd2.set_data_array(buf2.data.clone());
    assert_eq!(rd2.get_f64_bits(), Ok(dbits));
}

#[test]
fn utf8_round_trip() {
    let text = "hello, arena".as_bytes().to_vec();
    let mut buf = StreamPeerBuffer::new();
    buf.put_utf8(&text);
    assert_eq!(buf.data[0], 0);
    assert_eq!(buf.data[1], text.len() as u8);
    let mut rd = StreamPeerBuffer::new();
    rd.set_data_array(buf.data.clone());
    assert_eq!(rd.get_utf8(), Ok(text));
}

#[test]
fn utf8_multibyte_round_trip() {
    let text = "héllo ✓".as_bytes().to_vec();
    let mut buf = StreamPeerBuffer::new();
    buf.put_utf8(&text);
    let mut rd = StreamPeerBuffer::new();
    rd.set_data_array(buf.data.clone());
    assert_eq!(rd.get_utf8(), Ok(text));
}

#[test]
fn invalid_utf8_is_rejected() {
    // a lone continuation byte and an overlong two-byte encoding
    for bad in [vec![0x80u8], vec![0xc0, 0xaf], vec![0xc3, 0x28], vec![0xed, 0xa0, 0x80]] {
        let mut raw = vec![0u8, bad.len() as u8];
        raw.extend_from_slice(&bad);
        let mut rd = StreamPeerBuffer::new();
        rd.set_data_array(raw);
        assert_eq!(rd.get_utf8(), Err(DecodeError::InvalidText));
    }
}

#[test]
fn truncated_reads_do_not_advance() {
    let mut rd = StreamPeerBuffer::new();
    rd.set_data_array(vec![1, 2, 3]);
    assert_eq!(rd.get_u32(), Err(DecodeError::Truncated));
    assert_eq!(rd.pos, 0);
    assert_eq!(rd.get_u16(), Ok(0x0102));
    assert_eq!(rd.get_f64_bits(), Err(DecodeError::Truncated));
    assert_eq!(rd.pos, 2);
}

#[test]
fn truncated_string_reads() {
    let mut rd = StreamPeerBuffer::new();
    rd.set_data_array(vec![0, 5, b'a', b'b']);
    assert_eq!(rd.get_utf8(), Err(DecodeError::Truncated));
    assert_eq!(rd.pos, 0);
}
