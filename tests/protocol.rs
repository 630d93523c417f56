use codecrafters_kafka::common::{Api, ErrorCode};
use codecrafters_kafka::fetch::PartitionLog;
use codecrafters_kafka::handler::{classify, process_request};
use codecrafters_kafka::metadata::MetadataFile;
use codecrafters_kafka::record::{
    PartitionRecord, PartitionState, RecordType, TopicRecord,
};
use codecrafters_kafka::record_batch::{BatchHeader, Record, RecordBatch};
use codecrafters_kafka::request::Request;
use codecrafters_kafka::response::Response;
use codecrafters_kafka::server::Server;
use codecrafters_kafka::wire::{CodecError, CompactArray, TextData};

fn hex(s: &str) -> Vec<u8> {
    let digits: Vec<u8> = s.bytes().filter(|c| !c.is_ascii_whitespace()).collect();
    digits
        .chunks(2)
        .map(|p| u8::from_str_radix(std::str::from_utf8(p).unwrap(), 16).unwrap())
        .collect()
}

fn frame(rest: &[u8]) -> Vec<u8> {
    let mut out = (rest.len() as i32).to_be_bytes().to_vec();
    out.extend_from_slice(rest);
    out
}

fn record(value: RecordType) -> Record {
    let mut encoded = Vec::new();
    value.serialize(&mut encoded);
    Record {
        length: 0,
        attributes: 0,
        timestamp_delta: 0,
        offset_delta: 0,
        key_length: -1,
        key: vec![],
        value_length: encoded.len() as i64,
        value,
        headers_count: 0,
    }
}

fn batch(records: Vec<Record>) -> RecordBatch {
    RecordBatch {
        base_offset: 0,
        batch_length: 0,
        partition_leader_epoch: 1,
        magic_byte: 2,
        crc: 0,
        header: BatchHeader {
            attributes: 0,
            last_offset_delta: 0,
            base_timestamp: 0,
            max_timestamp: 0,
            producer_id: -1,
            producer_epoch: -1,
            base_sequence: -1,
        },
        records,
    }
}

const BAR_ID: i128 = 0x0000_0000_0000_4000_8000_0000_0000_0071;

fn metadata_with_bar() -> MetadataFile {
    let topic = TopicRecord {
        frame_version: 1,
        record_type: 2,
        version: 0,
        topic_name: TextData { data: Some("bar".to_string()) },
        uuid: BAR_ID,
    };
    let partition = PartitionRecord {
        frame_version: 1,
        record_type: 3,
        version: 1,
        partition_id: 0,
        topic_uuid: BAR_ID,
        replica_array: CompactArray::new(vec![1]),
        in_sync_replica_array: CompactArray::new(vec![1]),
        state: PartitionState {
            removing_replica_array: CompactArray::new(vec![]),
            adding_replica_array: CompactArray::new(vec![]),
            leader_id: 1,
            leader_epoch: 0,
            partition_epoch: 0,
            directories_array: CompactArray::new(vec![0x10]),
        },
    };
    MetadataFile {
        record_batches: vec![batch(vec![
            record(RecordType::Topic(topic)),
            record(RecordType::Partition(partition)),
        ])],
    }
}

fn header(key: &str, version: &str) -> Vec<u8> {
    hex(&format!("{} {} 00 00 00 07 00 00 00", key, version))
}

#[test]
fn api_versions_v4() {
    let request = frame(&header("00 12", "00 04"));
    let response = process_request(&request, &MetadataFile::empty(), &vec![]).unwrap();
    let expected = hex(
        "00 00 00 07 00 00 04 \
         00 12 00 00 00 04 00 \
         00 01 00 00 00 10 00 \
         00 4b 00 00 00 00 00 \
         00 00 00 00 00",
    );
    assert_eq!(&response[4..], &expected[..]);
    assert_eq!(
        i32::from_be_bytes([response[0], response[1], response[2], response[3]]) as usize,
        response.len() - 4
    );
}

#[test]
fn unsupported_version() {
    let request = frame(&header("00 12", "00 63"));
    let response = process_request(&request, &MetadataFile::empty(), &vec![]).unwrap();
    assert_eq!(response, hex("00 00 00 06 00 00 00 07 00 23"));
}

#[test]
fn unknown_api_key() {
    let request = frame(&header("00 05", "00 00"));
    let response = process_request(&request, &MetadataFile::empty(), &vec![]).unwrap();
    assert_eq!(response, hex("00 00 00 06 00 00 00 07 00 23"));
}

#[test]
fn dispatch_table() {
    assert_eq!(classify(18, 4), Api::ApiVersions);
    assert_eq!(classify(18, 5), Api::Invalid);
    assert_eq!(classify(1, 16), Api::Fetch);
    assert_eq!(classify(1, 17), Api::Invalid);
    assert_eq!(classify(75, 0), Api::DescribeTopicPartitions);
    assert_eq!(classify(75, 1), Api::Invalid);
    assert_eq!(classify(3, 0), Api::Invalid);
    assert_eq!(Api::from(75i16), Api::DescribeTopicPartitions);
    assert_eq!(Api::get_vec(), vec![Api::ApiVersions, Api::Fetch, Api::DescribeTopicPartitions]);
    assert_eq!(Api::Fetch.versions(), (0, 16));
    assert_eq!(ErrorCode::UnknownTopicId.code(), 100);
}

fn describe_request(name: &str) -> Vec<u8> {
    let mut rest = header("00 4b", "00 00");
    rest.extend_from_slice(&[0x02, name.len() as u8 + 1]);
    rest.extend_from_slice(name.as_bytes());
    rest.extend_from_slice(&hex("00 00 00 00 64 ff 00"));
    frame(&rest)
}

#[test]
fn describe_unknown_topic() {
    let request = describe_request("foo");
    let response = process_request(&request, &metadata_with_bar(), &vec![]).unwrap();
    let expected = hex(
        "00 00 00 07 00 \
         00 00 00 00 02 \
         00 03 04 66 6f 6f \
         00 00 00 00 00 00 00 00 00 00 00 00 00 00 00 00 \
         00 01 00 00 00 00 00 \
         ff 00",
    );
    assert_eq!(&response[4..], &expected[..]);
    assert_eq!(response[..4], (expected.len() as i32).to_be_bytes());
}

#[test]
fn describe_known_topic() {
    let request = describe_request("bar");
    let response = process_request(&request, &metadata_with_bar(), &vec![]).unwrap();
    let expected = hex(
        "00 00 00 07 00 \
         00 00 00 00 02 \
         00 00 04 62 61 72 \
         00 00 00 00 00 00 40 00 80 00 00 00 00 00 00 71 \
         00 02 \
         00 00 00 00 00 00 00 00 00 01 00 00 00 00 02 00 00 00 01 02 00 00 00 01 01 01 01 00 \
         00 00 0d f8 00 \
         ff 00",
    );
    assert_eq!(&response[4..], &expected[..]);
}

#[test]
fn describe_truncated_body() {
    let mut rest = header("00 4b", "00 00");
    rest.extend_from_slice(&[0x02, 0x04, b'f']);
    let request = frame(&rest);
    assert_eq!(process_request(&request, &metadata_with_bar(), &vec![]), Err(CodecError::EndOfBuffer));
}

fn fetch_request(topic_id: &str) -> Vec<u8> {
    let mut rest = header("00 01", "00 10");
    rest.extend_from_slice(&hex("00 00 01 f4 00 00 00 01 03 20 00 00 00 00 00 00 00 00 00 00 00 02"));
    rest.extend_from_slice(&hex(topic_id));
    rest.extend_from_slice(&hex(
        "02 00 00 00 00 ff ff ff ff 00 00 00 00 00 00 00 00 \
         ff ff ff ff ff ff ff ff 00 00 00 00 00 00 00 00 00 10 00 00 00 00",
    ));
    rest.extend_from_slice(&hex("01 01 00"));
    frame(&rest)
}

#[test]
fn fetch_unknown_topic() {
    let request = fetch_request("00000000000000000000000000000001");
    let response = process_request(&request, &metadata_with_bar(), &vec![]).unwrap();
    let expected = hex(
        "00 00 00 07 00 \
         00 00 00 00 00 00 00 00 00 00 02 \
         00 00 00 00 00 00 00 00 00 00 00 00 00 00 00 01 02 \
         00 00 00 00 00 64 \
         00 00 00 00 00 00 00 00 00 00 00 00 00 00 00 00 00 00 00 00 00 00 00 00 \
         01 00 00 00 00 01 00 00 00",
    );
    assert_eq!(&response[4..], &expected[..]);
}

#[test]
fn fetch_known_topic_with_log() {
    let request = fetch_request("00000000000040008000000000000071");
    let log_bytes = {
        let mut out = Vec::new();
        metadata_with_bar().serialize(&mut out);
        out
    };
    let logs = vec![PartitionLog {
        topic_name: TextData { data: Some("bar".to_string()) },
        partition: 0,
        log: Some(MetadataFile::deserialize(&log_bytes).unwrap()),
    }];
    let response = process_request(&request, &metadata_with_bar(), &logs).unwrap();
    let mut expected = hex(
        "00 00 00 07 00 \
         00 00 00 00 00 00 00 00 00 00 02 \
         00 00 00 00 00 00 40 00 80 00 00 00 00 00 00 71 02 \
         00 00 00 00 00 00 \
         00 00 00 00 00 00 00 00 00 00 00 00 00 00 00 00 00 00 00 00 00 00 00 00 \
         01 00 00 00 00",
    );
    let mut len = Vec::new();
    codecrafters_kafka::wire::put_uvarint(&mut len, log_bytes.len() as u128 + 1);
    expected.extend_from_slice(&len);
    expected.extend_from_slice(&log_bytes);
    expected.extend_from_slice(&hex("00 00 00"));
    assert_eq!(&response[4..], &expected[..]);
}

#[test]
fn fetch_known_topic_without_log() {
    let request = fetch_request("00000000000040008000000000000071");
    let logs = vec![PartitionLog {
        topic_name: TextData { data: Some("bar".to_string()) },
        partition: 0,
        log: None,
    }];
    let response = process_request(&request, &metadata_with_bar(), &logs).unwrap();
    let tail = hex("00 00 00 00 01 00 00 00");
    assert_eq!(&response[response.len() - 8..], &tail[..]);
}

#[test]
fn request_frame_consumes_size_plus_four() {
    let mut bytes = frame(&header("00 12", "00 04"));
    let size = bytes.len() - 4;
    bytes.extend_from_slice(&[0xde, 0xad]);
    let (request, p) = Request::deserialize(&bytes, 0).unwrap();
    assert_eq!(p, size + 4);
    assert_eq!(request.header.message_size as usize, size);
    assert_eq!(request.header.correlation_id, 7);
    assert!(request.body.is_empty());
}

#[test]
fn request_frame_errors() {
    assert_eq!(Request::deserialize(&hex("ff ff ff ff"), 0).unwrap_err(), CodecError::InvalidLength);
    assert_eq!(Request::deserialize(&hex("00 00 00 10 00 12"), 0).unwrap_err(), CodecError::EndOfBuffer);
    assert_eq!(
        Request::deserialize(&hex("00 00 00 02 00 12 00 04 00 00 00 07 00 00 00"), 0).unwrap_err(),
        CodecError::InvalidLength
    );
}

#[test]
fn request_client_id() {
    let bytes = frame(&hex("00 12 00 04 00 00 00 07 00 03 61 62 63 00 aa"));
    let (request, _) = Request::deserialize(&bytes, 0).unwrap();
    assert_eq!(request.header.client_id.id.as_deref(), Some("abc"));
    assert_eq!(request.body, vec![0xaa]);
    let bytes = frame(&hex("00 12 00 04 00 00 00 07 ff ff 00"));
    let (request, _) = Request::deserialize(&bytes, 0).unwrap();
    assert!(request.header.client_id.id.is_none());
}

#[test]
fn response_size_prefix() {
    let r = Response::new(7, vec![1, 2, 3]).to_bytes();
    assert_eq!(r, hex("00 00 00 08 00 00 00 07 00 01 02 03"));
    let r = Response::new_v0(7, vec![]).to_bytes();
    assert_eq!(r, hex("00 00 00 04 00 00 00 07"));
}

#[test]
fn server_default_log_dir() {
    assert_eq!(Server::new().log_dir, "/tmp/kraft-combined-logs");
}
