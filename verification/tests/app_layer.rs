use rft::app_frame::{
    parse, AppErrorCode, AppErrorData, AppTlv, AppTlvParseResult, ApplicationError, FileContent,
    FileListEntry, FileListEntryType, FileListRequest, FileListResponse, FileMetadata, FileRequest,
    FileResume, MetadataEntry, MetadataEntryType,
};
use rft::bytes::Reader;
use rft::frame::ObjectFieldDescription;
use rft::state::{sha3_512, FileRecvState};

#[test]
fn options_it_works() {
    assert_eq!(2 + 2, 4);
}

#[test]
fn mtu() {
    println!("udp_payload: {}", rft::mtu::udp_payload_default(None));
    assert_eq!(rft::mtu::udp_payload_default(None), 1472);
    assert_eq!(rft::mtu::udp_payload_default(Some(9000)), 8972);
}

#[test]
fn parse_t_accepts_and_rejects() {
    assert_eq!(rft::options::parse_t(None), Ok(42424));
    assert_eq!(rft::options::parse_t(Some(&b"8080".to_vec())), Ok(8080));
    assert_eq!(rft::options::parse_t(Some(&b"80".to_vec())), Err(()));
    assert_eq!(rft::options::parse_t(Some(&b"abc".to_vec())), Err(()));
    assert_eq!(rft::options::parse_t(Some(&b"100000".to_vec())), Err(()));
}

fn app_round_trip(tlv: &AppTlv) -> AppTlv {
    let mut buffer: Vec<u8> = Vec::new();
    tlv.write(&mut buffer);
    let mut reader = Reader::new(buffer);
    match parse(&mut reader) {
        AppTlvParseResult::Good(t) => t,
        AppTlvParseResult::Bad(e) => panic!("application TLV must parse back: {}", e.what),
    }
}

#[test]
fn round_trip_file_request() {
    let tlv = AppTlv::FileRequest(FileRequest {
        file_paths: vec![b"testdata/test.txt".to_vec(), b"b.bin".to_vec()],
    });
    match app_round_trip(&tlv) {
        AppTlv::FileRequest(r) => {
            assert_eq!(r.file_paths.len(), 2);
            assert_eq!(r.file_paths[0], b"testdata/test.txt".to_vec());
            assert_eq!(r.file_paths[1], b"b.bin".to_vec());
        }
        _ => panic!("wrong TLV came back"),
    }
}

#[test]
fn round_trip_file_resume_and_content() {
    match app_round_trip(&AppTlv::FileResume(FileResume {
        file_ids_and_chunk_ids: vec![(3, -1), (4, 512)],
    })) {
        AppTlv::FileResume(r) => assert_eq!(r.file_ids_and_chunk_ids, vec![(3, -1), (4, 512)]),
        _ => panic!("wrong TLV came back"),
    }
    match app_round_trip(&AppTlv::FileContent(FileContent {
        content: vec![9, 8, 7],
    })) {
        AppTlv::FileContent(c) => assert_eq!(c.content, vec![9, 8, 7]),
        _ => panic!("wrong TLV came back"),
    }
}

#[test]
fn round_trip_file_metadata() {
    let tlv = AppTlv::FileMetadata(FileMetadata {
        metadata_entries: vec![
            MetadataEntry {
                code: MetadataEntryType::FileSize,
                content: 600u64.to_be_bytes().to_vec(),
            },
            MetadataEntry {
                code: MetadataEntryType::FileName,
                content: b"test.txt".to_vec(),
            },
        ],
    });
    match app_round_trip(&tlv) {
        AppTlv::FileMetadata(m) => {
            assert_eq!(m.metadata_entries.len(), 2);
            assert!(matches!(
                m.metadata_entries[0].code,
                MetadataEntryType::FileSize
            ));
            assert_eq!(m.metadata_entries[0].content, 600u64.to_be_bytes().to_vec());
            assert!(matches!(
                m.metadata_entries[1].code,
                MetadataEntryType::FileName
            ));
            assert_eq!(m.metadata_entries[1].content, b"test.txt".to_vec());
        }
        _ => panic!("wrong TLV came back"),
    }
}

#[test]
fn round_trip_application_error() {
    let tlv = AppTlv::ApplicationError(ApplicationError {
        error_code: AppErrorCode::FileNotFound,
        error_data: AppErrorData::Paths(vec![b"gone.txt".to_vec()]),
    });
    match app_round_trip(&tlv) {
        AppTlv::ApplicationError(e) => {
            assert!(matches!(e.error_code, AppErrorCode::FileNotFound));
            match e.error_data {
                AppErrorData::Paths(paths) => assert_eq!(paths, vec![b"gone.txt".to_vec()]),
                _ => panic!("wrong error data"),
            }
        }
        _ => panic!("wrong TLV came back"),
    }
}

#[test]
fn round_trip_file_list_records() {
    match app_round_trip(&AppTlv::FileListRequest(FileListRequest {
        path: b"dir".to_vec(),
        level_of_recursion: 2,
        format_code: 1,
    })) {
        AppTlv::FileListRequest(r) => {
            assert_eq!(r.path, b"dir".to_vec());
            assert_eq!(r.level_of_recursion, 2);
            assert_eq!(r.format_code, 1);
        }
        _ => panic!("wrong TLV came back"),
    }
    match app_round_trip(&AppTlv::FileListResponse(FileListResponse {
        file_list_entries: vec![FileListEntry {
            entry_type: FileListEntryType::Dir,
            parent: 0,
            name: b"sub".to_vec(),
            id: 1,
        }],
    })) {
        AppTlv::FileListResponse(r) => {
            assert_eq!(r.file_list_entries.len(), 1);
            assert!(matches!(
                r.file_list_entries[0].entry_type,
                FileListEntryType::Dir
            ));
            assert_eq!(r.file_list_entries[0].name, b"sub".to_vec());
        }
        _ => panic!("wrong TLV came back"),
    }
}

#[test]
fn invalid_utf8_path_is_rejected() {
    // LEB128 length 2 followed by an invalid UTF-8 pair inside a file
    // request body with one path.
    let body: Vec<u8> = vec![1, 2, 0xC0, 0xAF];
    let mut buffer: Vec<u8> = vec![0x20, 0, body.len() as u8];
    buffer.extend_from_slice(&body);
    let mut reader = Reader::new(buffer);
    match parse(&mut reader) {
        AppTlvParseResult::Bad(_) => {}
        AppTlvParseResult::Good(_) => panic!("invalid UTF-8 must not parse"),
    }
}

fn metadata_for(data: &[u8], name: &[u8]) -> FileMetadata {
    FileMetadata {
        metadata_entries: vec![
            MetadataEntry {
                code: MetadataEntryType::FileSize,
                content: (data.len() as u64).to_be_bytes().to_vec(),
            },
            MetadataEntry {
                code: MetadataEntryType::FileName,
                content: name.to_vec(),
            },
            MetadataEntry {
                code: MetadataEntryType::Sha3,
                content: sha3_512(&data.to_vec()),
            },
        ],
    }
}

fn response_fields() -> Vec<ObjectFieldDescription> {
    vec![
        ObjectFieldDescription {
            field_type: 0x22,
            length: 1,
        },
        ObjectFieldDescription {
            field_type: 0x23,
            length: 2,
        },
    ]
}

#[test]
fn two_chunk_file_reassembles() {
    // 600 zero bytes arrive as two content chunks at wire chunk ids 1 and 2.
    let data = vec![0u8; 600];
    let mut recv = FileRecvState::new();
    recv.notify_metadata(&metadata_for(&data, b"z.bin")).unwrap();
    assert_eq!(recv.num_chunks, 2);
    assert_eq!(recv.missing_chunks.len(), 2);
    let fields = response_fields();
    let first = FileContent {
        content: data[0..512].to_vec(),
    };
    let second = FileContent {
        content: data[512..600].to_vec(),
    };
    assert!(recv.notify_content(&first, 1, &fields).is_ok());
    assert!(!recv.done());
    assert!(recv.notify_content(&second, 2, &fields).is_ok());
    assert!(recv.done());
    assert_eq!(recv.device.as_ref().unwrap(), &data);
}

#[test]
fn out_of_order_delivery_matches_in_order() {
    let mut data = vec![0u8; 600];
    for (i, b) in data.iter_mut().enumerate() {
        *b = (i % 251) as u8;
    }
    let fields = response_fields();
    let first = FileContent {
        content: data[0..512].to_vec(),
    };
    let second = FileContent {
        content: data[512..600].to_vec(),
    };

    let mut in_order = FileRecvState::new();
    in_order
        .notify_metadata(&metadata_for(&data, b"f.bin"))
        .unwrap();
    assert!(in_order.notify_content(&first, 1, &fields).is_ok());
    assert!(in_order.notify_content(&second, 2, &fields).is_ok());
    assert!(in_order.done());

    // Content chunks arrive at wire chunk id 2 before 1 (the metadata
    // field occupies one chunk). The final chunk index arriving early
    // runs the digest comparison over the still-incomplete buffer, so
    // that delivery reports a mismatch; its bytes are written all the
    // same and the assembled file comes out identical.
    let mut reordered = FileRecvState::new();
    reordered
        .notify_metadata(&metadata_for(&data, b"f.bin"))
        .unwrap();
    assert!(reordered.notify_content(&second, 2, &fields).is_err());
    assert!(!reordered.done());
    assert!(reordered.notify_content(&first, 1, &fields).is_ok());
    assert!(reordered.done());

    assert_eq!(
        in_order.device.as_ref().unwrap(),
        reordered.device.as_ref().unwrap()
    );
    assert_eq!(reordered.device.as_ref().unwrap(), &data);
}

#[test]
fn redelivered_chunk_is_ignored() {
    let data = vec![7u8; 600];
    let fields = response_fields();
    let mut recv = FileRecvState::new();
    recv.notify_metadata(&metadata_for(&data, b"r.bin")).unwrap();
    let first = FileContent {
        content: data[0..512].to_vec(),
    };
    assert!(recv.notify_content(&first, 1, &fields).is_ok());
    let before = recv.device.clone();
    // Re-delivery of the same chunk, even with different bytes, is a no-op.
    let forged = FileContent {
        content: vec![1u8; 512],
    };
    assert!(recv.notify_content(&forged, 1, &fields).is_err());
    assert_eq!(recv.device, before);
    assert_eq!(recv.missing_chunks.len(), 1);
}

#[test]
fn out_of_range_chunk_ids_are_invalid() {
    let data = vec![7u8; 600];
    let fields = response_fields();
    let mut recv = FileRecvState::new();
    recv.notify_metadata(&metadata_for(&data, b"r.bin")).unwrap();
    let chunk = FileContent {
        content: vec![0u8; 512],
    };
    // Wire ids 0 (the metadata chunk), 3 and -5 translate outside the
    // content range 0..2 and are rejected.
    assert!(recv.notify_content(&chunk, 0, &fields).is_err());
    assert!(recv.notify_content(&chunk, 3, &fields).is_err());
    assert!(recv.notify_content(&chunk, -5, &fields).is_err());
    assert_eq!(recv.missing_chunks.len(), 2);
}

#[test]
fn flipped_byte_fails_hash_check() {
    let data = b"Hello General Kenobi\n".to_vec();
    let fields = vec![
        ObjectFieldDescription {
            field_type: 0x22,
            length: 1,
        },
        ObjectFieldDescription {
            field_type: 0x23,
            length: 1,
        },
    ];
    let mut recv = FileRecvState::new();
    recv.notify_metadata(&metadata_for(&data, b"test.txt"))
        .unwrap();
    let mut flipped = data.clone();
    flipped[3] ^= 0x40;
    let chunk = FileContent { content: flipped };
    // The final chunk triggers the digest comparison, which must fail.
    assert!(recv.notify_content(&chunk, 1, &fields).is_err());
    assert!(recv.done());
}
