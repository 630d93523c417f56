use codecrafters_kafka::metadata::MetadataFile;
use codecrafters_kafka::record::RecordType;
use codecrafters_kafka::record_batch::RecordBatch;
use codecrafters_kafka::wire::{
    get_compact_len, get_i16, get_i32, get_i64, get_i8, get_uuid, put_i16, put_i32, put_i64,
    put_uuid, put_uvarint, skip_tag_buffer, CodecError, CompactArray, TextData, VarIntSigned,
    VarIntUnsigned,
};

fn hex(s: &str) -> Vec<u8> {
    let digits: Vec<u8> = s.bytes().filter(|c| !c.is_ascii_whitespace()).collect();
    digits
        .chunks(2)
        .map(|p| u8::from_str_radix(std::str::from_utf8(p).unwrap(), 16).unwrap())
        .collect()
}

fn encode_uvarint(u: u64) -> Vec<u8> {
    let mut out = Vec::new();
    VarIntUnsigned(u).serialize(&mut out);
    out
}

fn encode_svarint(v: i64) -> Vec<u8> {
    let mut out = Vec::new();
    VarIntSigned(v).serialize(&mut out);
    out
}

const METADATA_LOG: &str = "00 00 00 00 00 00 00 01 00 00 00 4f 00 00 00 01 02 b0 69 45 7c 00 00 00 00 00 00 00 00 01 91 e0 5a f8 18 00 00 01 91 e0 5a f8 18 ff ff ff ff ff ff ff ff ff ff ff ff ff ff 00 00 00 01 3a 00 00 00 01 2e 01 0c 00 11 6d 65 74 61 64 61 74 61 2e 76 65 72 73 69 6f 6e 00 14 00 00";

#[test]
fn uvarint_round_trip() {
    for u in [0u64, 1, 127, 128, 300, 16_383, 16_384, 1 << 35, u64::MAX - 1, u64::MAX] {
        let bytes = encode_uvarint(u);
        let (v, p) = VarIntUnsigned::deserialize(&bytes, 0).unwrap();
        assert_eq!(v.0, u);
        assert_eq!(p, bytes.len());
    }
    assert_eq!(encode_uvarint(u64::MAX).len(), 10);
}

#[test]
fn svarint_round_trip() {
    for s in [0i64, -1, 1, -64, 63, -65, 64, i64::MIN, i64::MAX, -300] {
        let bytes = encode_svarint(s);
        let (v, p) = VarIntSigned::deserialize(&bytes, 0).unwrap();
        assert_eq!(v.0, s);
        assert_eq!(p, bytes.len());
    }
}

#[test]
fn svarint_zigzag_values() {
    assert_eq!(encode_svarint(0), vec![0x00]);
    assert_eq!(encode_svarint(-1), vec![0x01]);
    assert_eq!(encode_svarint(1), vec![0x02]);
    assert_eq!(encode_svarint(29), vec![0x3a]);
    assert_eq!(encode_svarint(-65), vec![0x81, 0x01]);
}

#[test]
fn uvarint_boundaries() {
    assert_eq!(encode_uvarint(0x7F), vec![0x7F]);
    assert_eq!(encode_uvarint(0x80), vec![0x80, 0x01]);
    assert_eq!(encode_uvarint(0), vec![0x00]);
    assert_eq!(encode_uvarint(300), vec![0xAC, 0x02]);
}

#[test]
fn uvarint_errors() {
    assert_eq!(VarIntUnsigned::deserialize(&[0x80, 0x80], 0), Err(CodecError::EndOfBuffer));
    assert_eq!(VarIntUnsigned::deserialize(&[], 0), Err(CodecError::EndOfBuffer));
    let eleven = [0xFFu8; 11];
    assert_eq!(VarIntUnsigned::deserialize(&eleven, 0), Err(CodecError::MalformedVarint));
    let mut ten = vec![0xFFu8; 9];
    ten.push(0x01);
    assert_eq!(VarIntUnsigned::deserialize(&ten, 0).unwrap().0 .0, u64::MAX);
}

#[test]
fn uvarint_tenth_byte_keeps_low_bit() {
    let mut bytes = vec![0x80u8; 9];
    bytes.push(0x7F);
    let (v, p) = VarIntUnsigned::deserialize(&bytes, 0).unwrap();
    assert_eq!(v.0, 1u64 << 63);
    assert_eq!(p, 10);
}

#[test]
fn compact_string_null() {
    let (t, p) = TextData::deserialize(&[0x00], 0).unwrap();
    assert!(t.data.is_none());
    assert_eq!(p, 1);
    let mut out = Vec::new();
    TextData { data: None }.serialize(&mut out);
    assert_eq!(out, vec![0x00]);
}

#[test]
fn compact_string_values() {
    let (t, p) = TextData::deserialize(&[0x01], 0).unwrap();
    assert_eq!(t.data.as_deref(), Some(""));
    assert_eq!(p, 1);
    let (t, p) = TextData::deserialize(&[0x04, b'f', b'o', b'o', 0x99], 0).unwrap();
    assert_eq!(t.data.as_deref(), Some("foo"));
    assert_eq!(p, 4);
    let mut out = Vec::new();
    TextData { data: Some("bar".to_string()) }.serialize(&mut out);
    assert_eq!(out, vec![0x04, b'b', b'a', b'r']);
    assert_eq!(TextData::deserialize(&[0x05, b'a'], 0).unwrap_err(), CodecError::EndOfBuffer);
}

#[test]
fn compact_string_invalid_utf8_is_replaced() {
    let (t, p) = TextData::deserialize(&[0x03, 0xFF, b'a'], 0).unwrap();
    assert_eq!(t.data.as_deref(), Some("\u{FFFD}a"));
    assert_eq!(p, 3);
}

#[test]
fn compact_array_empty_not_null() {
    let (c, p) = get_compact_len(&[0x01], 0).unwrap();
    assert_eq!(c, Some(0));
    assert_eq!(p, 1);
    let (a, p) = CompactArray::<i32>::read_i32s(&[0x01], 0).unwrap();
    assert_eq!(a.array, Some(vec![]));
    assert_eq!(p, 1);
    let (a, _) = CompactArray::<i32>::read_i32s(&[0x00], 0).unwrap();
    assert!(a.array.is_none());
}

#[test]
fn compact_array_of_int32() {
    let bytes = hex("03 00 00 00 01 ff ff ff fe");
    let (a, p) = CompactArray::<i32>::read_i32s(&bytes, 0).unwrap();
    assert_eq!(a.array, Some(vec![1, -2]));
    assert_eq!(p, 9);
    let mut out = Vec::new();
    a.serialize(&mut out);
    assert_eq!(out, bytes);
    assert_eq!(CompactArray::<i32>::read_i32s(&hex("03 00 00 00 01"), 0).unwrap_err(), CodecError::EndOfBuffer);
}

#[test]
fn fixed_width_integers() {
    let mut out = Vec::new();
    put_i16(&mut out, -2);
    put_i32(&mut out, 0x0102_0304);
    put_i64(&mut out, -1);
    put_uuid(&mut out, 1);
    put_uuid(&mut out, -2);
    assert_eq!(&out[..6], &[0xff, 0xfe, 0x01, 0x02, 0x03, 0x04]);
    assert_eq!(get_i16(&out, 0).unwrap(), (-2, 2));
    assert_eq!(get_i32(&out, 2).unwrap(), (0x0102_0304, 6));
    assert_eq!(get_i64(&out, 6).unwrap(), (-1, 14));
    assert_eq!(get_uuid(&out, 14).unwrap(), (1, 30));
    assert_eq!(get_uuid(&out, 30).unwrap(), (-2, 46));
    assert_eq!(&out[14..30], &hex("00000000000000000000000000000001")[..]);
    assert_eq!(get_i8(&[0x80], 0).unwrap(), (-128, 1));
    assert_eq!(get_i32(&[0, 0, 0], 0), Err(CodecError::EndOfBuffer));
}

#[test]
fn tag_buffer_skips_fields() {
    assert_eq!(skip_tag_buffer(&[0x00], 0), Ok(1));
    let bytes = hex("02 00 02 aa bb 05 00 ff");
    assert_eq!(skip_tag_buffer(&bytes, 0), Ok(7));
    assert_eq!(skip_tag_buffer(&hex("01 00 05 aa"), 0), Err(CodecError::EndOfBuffer));
}

#[test]
fn wide_varint_for_lengths() {
    let mut out = Vec::new();
    put_uvarint(&mut out, 1u128 << 64);
    assert_eq!(out, hex("80 80 80 80 80 80 80 80 80 02"));
}

#[test]
fn metadata_log_round_trip() {
    let bytes = hex(METADATA_LOG);
    let file = MetadataFile::deserialize(&bytes).unwrap();
    assert_eq!(file.record_batches.len(), 1);
    let batch = &file.record_batches[0];
    assert_eq!(batch.records.len(), 1);
    match &batch.records[0].value {
        RecordType::FeatureLevel(f) => {
            assert_eq!(f.name.data.as_deref(), Some("metadata.version"));
            assert_eq!(f.feature_level, 20);
        }
        other => panic!("unexpected value {:?}", other),
    }
    let mut out = Vec::new();
    file.serialize(&mut out);
    assert_eq!(out, bytes);
}

#[test]
fn batch_crc_is_recomputed() {
    let bytes = hex(METADATA_LOG);
    let (mut batch, p) = RecordBatch::deserialize(&bytes, 0).unwrap();
    assert_eq!(p, bytes.len());
    assert_eq!(batch.crc as u32, 0xb069457c);
    batch.crc = 0;
    batch.batch_length = 0;
    let mut out = Vec::new();
    batch.serialize(&mut out);
    assert_eq!(out, bytes);
    batch.header.attributes = 1;
    let mut changed = Vec::new();
    batch.serialize(&mut changed);
    assert_ne!(&changed[17..21], &bytes[17..21]);
}

#[test]
fn empty_log_has_no_batches() {
    let file = MetadataFile::deserialize(&[]).unwrap();
    assert!(file.record_batches.is_empty());
}

#[test]
fn batch_length_must_match() {
    let mut bytes = hex(METADATA_LOG);
    bytes[11] = 0x50;
    assert_eq!(MetadataFile::deserialize(&bytes).unwrap_err(), CodecError::InvalidLength);
    let short = hex(METADATA_LOG);
    assert_eq!(MetadataFile::deserialize(&short[..60]).unwrap_err(), CodecError::EndOfBuffer);
}

#[test]
fn unknown_record_type_kept_raw() {
    let mut bytes = hex(METADATA_LOG);
    // The value's record type becomes 17, a type not decoded here.
    bytes[68] = 0x11;
    let file = MetadataFile::deserialize(&bytes).unwrap();
    match &file.record_batches[0].records[0].value {
        RecordType::RawBytes(r) => assert_eq!(r.data.len(), 23),
        other => panic!("unexpected value {:?}", other),
    }
    let mut out = Vec::new();
    file.serialize(&mut out);
    assert_eq!(&out[21..], &bytes[21..]);
}
