use rft::bytes::Reader;
use rft::common::ReadErrorKind;
use rft::fnv1a32::Fnv32a;
use rft::frame::{
    AckFreq, ApplicationId, ErrorCode, ErrorData, ErrorMessage, HostInformation, HostOs,
    MaxMinSupportedVersion, MessageFrame, ObjectAck, ObjectAckRequest, ObjectChunk,
    ObjectFieldDescription, ObjectHeader, ObjectSkip, Tlv,
};

#[test]
fn lib_it_works() {
    assert_eq!(2 + 2, 4);
}

#[test]
fn test_serialize_message_frame() {
    // Structure to serialize
    let message_frame = MessageFrame {
        version: 1,
        sid: 123,
        tlvs: vec![
            Tlv::ObjectHeader(ObjectHeader {
                object_id: 1,
                num_chunks: 2,
                ack_req: true,
                object_type: 42,
                fields: vec![ObjectFieldDescription {
                    field_type: 66,
                    length: 6,
                }],
            }),
            Tlv::ObjectHeader(ObjectHeader {
                object_id: 1,
                num_chunks: 2,
                ack_req: true,
                object_type: 42,
                fields: vec![ObjectFieldDescription {
                    field_type: 66,
                    length: 6,
                }],
            }),
        ],
    };

    // Serialize it!
    let mut buffer: Vec<u8> = Vec::new();
    message_frame.write(&mut buffer);

    // Deserialize it!
    let mut reader = Reader::new(buffer);
    let parsed_message_frame = match MessageFrame::read(&mut reader) {
        Ok(f) => f,
        Err(e) => panic!("Error: {}", e.what),
    };

    // Compare ...
    assert_eq!(message_frame.version, parsed_message_frame.version);
    assert_eq!(message_frame.sid, parsed_message_frame.sid);
    assert_eq!(message_frame.tlvs.len(), parsed_message_frame.tlvs.len());
    for tlv_id in 0..message_frame.tlvs.len() {
        let ltlv = &message_frame.tlvs[tlv_id];
        let rtlv = &parsed_message_frame.tlvs[tlv_id];
        match (ltlv, rtlv) {
            (Tlv::ObjectHeader(l), Tlv::ObjectHeader(r)) => {
                assert_eq!(l.object_id, r.object_id);
                assert_eq!(l.num_chunks, r.num_chunks);
                assert_eq!(l.ack_req, r.ack_req);
                assert_eq!(l.object_type, r.object_type);
                assert_eq!(l.fields.len(), r.fields.len());
                for field_id in 0..l.fields.len() {
                    assert_eq!(l.fields[field_id].field_type, r.fields[field_id].field_type);
                    assert_eq!(l.fields[field_id].length, r.fields[field_id].length);
                }
            }
            (_, _) => {}
        }
    }
}

fn fnv_case(expected: u32, input: &[u8]) {
    let mut hasher = Fnv32a::default();
    hasher.write(&input.to_vec());
    let r = hasher.finish();
    assert_eq!(r, expected as u64);
}

#[test]
fn test_a() {
    fnv_case(0x811c9dc5, b"");
    fnv_case(0xd10c0b43, b"T");
    fnv_case(0x2f4ee094, b"The ");
    fnv_case(0x048fff90, b"The quick brown fox jumps over the lazy dog");
    fnv_case(0xe35a21cb, b"Lorem ipsum dolor sit amet, consectetur adipiscing elit, sed do eiusmod tempor incididunt ut labore et dolore magna aliqua. Pharetra sit amet aliquam id. Tortor at risus viverra adipiscing at in. Risus nec feugiat in fermentum posuere urna nec tincidunt praesent. Viverra accumsan in nisl nisi scelerisque eu ultrices vitae auctor. Blandit massa enim nec dui nunc mattis enim ut tellus. Eros in cursus turpis massa tincidunt. Nulla aliquet enim tortor at auctor. Purus semper eget duis at tellus at urna condimentum. Vitae suscipit tellus mauris a diam maecenas sed enim. Massa enim nec dui nunc mattis. Diam vel quam elementum pulvinar etiam non quam lacus suspendisse. Elementum nisi quis eleifend quam. Lacus vestibulum sed arcu non odio. Diam maecenas sed enim ut sem. Est sit amet facilisis magna etiam tempor. Tristique senectus et netus et malesuada fames ac.");
}

fn round_trip(frame: MessageFrame) -> MessageFrame {
    let mut buffer: Vec<u8> = Vec::new();
    frame.write(&mut buffer);
    let mut reader = Reader::new(buffer);
    match MessageFrame::read(&mut reader) {
        Ok(f) => f,
        Err(e) => panic!("frame must parse back: {}", e.what),
    }
}

#[test]
fn round_trip_host_information() {
    let frame = MessageFrame {
        version: 2,
        sid: 7,
        tlvs: vec![Tlv::HostInformation(HostInformation {
            rcv_window_size: 300,
            out_of_order_limit: 50,
            ack_freq: AckFreq::Max,
            os: HostOs::Linux,
            app: ApplicationId::Soft,
            app_ver: 0,
        })],
    };
    let parsed = round_trip(frame);
    match &parsed.tlvs[0] {
        Tlv::HostInformation(h) => {
            assert_eq!(h.rcv_window_size, 300);
            assert_eq!(h.out_of_order_limit, 50);
            assert!(matches!(h.ack_freq, AckFreq::Max));
            assert!(matches!(h.os, HostOs::Linux));
            assert_eq!(h.app_ver, 0);
        }
        _ => panic!("wrong TLV came back"),
    }
}

#[test]
fn round_trip_object_chunk() {
    let frame = MessageFrame {
        version: 2,
        sid: 9,
        tlvs: vec![Tlv::ObjectChunk(ObjectChunk {
            object_id: 4,
            chunk_id: -1,
            more_chunks: true,
            ack_required: false,
            num_enclosed_msgs: 1,
            data: vec![1, 2, 3, 250],
        })],
    };
    let parsed = round_trip(frame);
    match &parsed.tlvs[0] {
        Tlv::ObjectChunk(c) => {
            assert_eq!(c.object_id, 4);
            assert_eq!(c.chunk_id, -1);
            assert!(c.more_chunks);
            assert!(!c.ack_required);
            assert_eq!(c.num_enclosed_msgs, 1);
            assert_eq!(c.data, vec![1, 2, 3, 250]);
        }
        _ => panic!("wrong TLV came back"),
    }
}

#[test]
fn round_trip_acks_skip_error() {
    let frame = MessageFrame {
        version: 2,
        sid: 11,
        tlvs: vec![
            Tlv::ObjectSkip(ObjectSkip {
                object_id: 5,
                skip_to: -3,
            }),
            Tlv::ObjectAck(ObjectAck {
                acknowledged_object_chunks: vec![(1, -1), (2, 700)],
            }),
            Tlv::ObjectAckRequest(ObjectAckRequest {
                req_ack_object_chunks: vec![(9, 0)],
            }),
            Tlv::ErrorMessage(ErrorMessage {
                code: ErrorCode::UnsupportedVersion,
                detail: ErrorData::UnsupportedVersion(MaxMinSupportedVersion {
                    max_ver: 3,
                    min_ver: 1,
                }),
            }),
            Tlv::ErrorMessage(ErrorMessage {
                code: ErrorCode::ObjectAbort,
                detail: ErrorData::ObjectAbort(vec![77, 78]),
            }),
        ],
    };
    let parsed = round_trip(frame);
    assert_eq!(parsed.tlvs.len(), 5);
    match &parsed.tlvs[0] {
        Tlv::ObjectSkip(s) => {
            assert_eq!(s.object_id, 5);
            assert_eq!(s.skip_to, -3);
        }
        _ => panic!("expected skip"),
    }
    match &parsed.tlvs[1] {
        Tlv::ObjectAck(a) => assert_eq!(a.acknowledged_object_chunks, vec![(1, -1), (2, 700)]),
        _ => panic!("expected ack"),
    }
    match &parsed.tlvs[2] {
        Tlv::ObjectAckRequest(a) => assert_eq!(a.req_ack_object_chunks, vec![(9, 0)]),
        _ => panic!("expected ack request"),
    }
    match &parsed.tlvs[3] {
        Tlv::ErrorMessage(e) => match (&e.code, &e.detail) {
            (ErrorCode::UnsupportedVersion, ErrorData::UnsupportedVersion(v)) => {
                assert_eq!(v.max_ver, 3);
                assert_eq!(v.min_ver, 1);
            }
            _ => panic!("wrong error detail"),
        },
        _ => panic!("expected error message"),
    }
    match &parsed.tlvs[4] {
        Tlv::ErrorMessage(e) => match (&e.code, &e.detail) {
            (ErrorCode::ObjectAbort, ErrorData::ObjectAbort(ids)) => {
                assert_eq!(ids, &vec![77, 78]);
            }
            _ => panic!("wrong error detail"),
        },
        _ => panic!("expected error message"),
    }
}

#[test]
fn checksum_mutation_fails() {
    let frame = MessageFrame {
        version: 2,
        sid: 42,
        tlvs: vec![Tlv::ObjectSkip(ObjectSkip {
            object_id: 5,
            skip_to: 0,
        })],
    };
    let mut buffer: Vec<u8> = Vec::new();
    frame.write(&mut buffer);
    let last = buffer.len() - 1;
    buffer[last] = buffer[last].wrapping_add(1);
    let mut reader = Reader::new(buffer);
    match MessageFrame::read(&mut reader) {
        Err(e) => assert!(matches!(e.kind, ReadErrorKind::Checksum)),
        Ok(_) => panic!("mutated frame must not parse"),
    }
}

#[test]
fn unknown_tlv_type_drops_frame() {
    // A frame whose single TLV has type byte 0xFF, with a valid checksum:
    // version, session id, TLV count, then the unknown record.
    let mut buffer: Vec<u8> = Vec::new();
    buffer.push(2);
    buffer.extend_from_slice(&[0, 0, 0, 0, 0, 0, 0, 1]);
    buffer.push(1);
    buffer.push(0xFF);
    buffer.push(0);
    buffer.push(0);
    let end = buffer.len();
    let checksum = Fnv32a::hash(&buffer, 0, end);
    buffer.extend_from_slice(&checksum.to_be_bytes());
    let mut reader = Reader::new(buffer);
    match MessageFrame::read(&mut reader) {
        Err(e) => {
            assert!(matches!(e.kind, ReadErrorKind::UnknownTlvType));
            assert_eq!(e.what, "unknown transport message type code");
        }
        Ok(_) => panic!("unknown type code must not parse"),
    }
}
