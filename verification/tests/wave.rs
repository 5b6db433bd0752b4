use turntable::wave::{WaveEncoder, WaveHeader, WaveHeaderValue};

#[test]
fn header_value_bytes_are_little_endian() {
    assert_eq!(WaveHeaderValue::Ascii("RIFF").to_bytes(), b"RIFF".to_vec());
    assert_eq!(WaveHeaderValue::TwoBytes(0x0102).to_bytes(), vec![0x02, 0x01]);
    assert_eq!(WaveHeaderValue::FourBytes(0x01020304).to_bytes(), vec![0x04, 0x03, 0x02, 0x01]);
}

#[test]
fn header_has_canonical_layout() {
    let header = WaveHeader { channel_count: 2, sample_rate: 44100, bit_depth: 16 };
    let bytes = header.to_bytes();
    assert_eq!(bytes.len(), 44);
    assert_eq!(&bytes[0..4], b"RIFF");
    assert_eq!(&bytes[4..8], &[0xff, 0xff, 0xff, 0x7f]);
    assert_eq!(&bytes[8..12], b"WAVE");
    assert_eq!(&bytes[12..16], b"fmt ");
    assert_eq!(&bytes[16..20], &16u32.to_le_bytes());
    assert_eq!(&bytes[20..22], &1u16.to_le_bytes());
    assert_eq!(&bytes[22..24], &2u16.to_le_bytes());
    assert_eq!(&bytes[24..28], &44100u32.to_le_bytes());
    // Byte rate: 44100 * 2 * 16 / 8
    assert_eq!(&bytes[28..32], &176400u32.to_le_bytes());
    // Block align: 2 * 16 / 8
    assert_eq!(&bytes[32..34], &4u16.to_le_bytes());
    assert_eq!(&bytes[34..36], &16u16.to_le_bytes());
    assert_eq!(&bytes[36..40], b"data");
    assert_eq!(&bytes[40..44], &[0xff, 0xff, 0xff, 0x7f]);
}

#[test]
fn encoder_writes_header_once() {
    let mut encoder = WaveEncoder::new(2, 44100);
    assert_eq!(encoder.bytes(), None, "nothing before data is encoded");

    encoder.encode(&[1, -1]);
    let first = encoder.bytes().expect("bytes are available");
    assert_eq!(first.len(), 44 + 4);
    assert_eq!(&first[44..], &[0x01, 0x00, 0xff, 0xff]);

    encoder.encode(&[256]);
    let second = encoder.bytes().expect("bytes are available");
    assert_eq!(second, vec![0x00, 0x01]);
    assert_eq!(encoder.bytes(), None);
}

#[test]
fn encoder_names() {
    let encoder = WaveEncoder::new(1, 8000);
    assert_eq!(encoder.content_type(), "audio/wav");
    assert_eq!(WaveEncoder::name(), "WaveEncoder");
}
