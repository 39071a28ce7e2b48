use rft::connection::{default_host_info, ConnEvent, Connection, EstablishedState};
use rft::frame::{MessageFrame, ObjectFieldDescription, ObjectSkip, Tlv};
use rft::jobs::{ChunkSource, Object, ObjectSendJob};
use rft::state::{sha3_512, FileSendState, ObjectRecvState, StateMachine};

/// Drains every pending frame of `from`'s send jobs into datagrams.
fn drain_datagrams(from: &mut Connection) -> Vec<Vec<u8>> {
    let mut out = Vec::new();
    loop {
        let mut sent_any = false;
        for i in 0..from.send_jobs.len() {
            if let Some(d) = from.send_once(i) {
                out.push(d);
                sent_any = true;
            }
        }
        if !sent_any {
            break;
        }
    }
    out
}

/// Feeds datagrams into a connection and its state machine, loading file
/// bytes for any file request with the given resolver.
fn deliver(
    conn: &mut Connection,
    machine: &mut StateMachine,
    datagrams: Vec<Vec<u8>>,
    resolve: impl Fn(&[u8]) -> Option<Vec<u8>>,
) -> Vec<Vec<u8>> {
    let mut replies = Vec::new();
    for d in datagrams {
        let events = conn.receive_once(d).expect("datagram must parse");
        for rj in &conn.recv_jobs {
            if !machine.has_recv_job(rj) {
                machine.push_recv_job(rj);
            }
        }
        for ev in events {
            match ev {
                ConnEvent::Chunk {
                    object_type,
                    object_id,
                    chunk_id,
                    data,
                    num_enclosed_msgs,
                } => {
                    let reqs =
                        machine.handle_chunk(object_type, object_id, data, chunk_id, num_enclosed_msgs);
                    for path in reqs {
                        let content = match resolve(&path) {
                            Some(bytes) => Ok(bytes),
                            None => Err(rft::app_frame::AppErrorCode::FileNotFound),
                        };
                        machine.push_file_send_job(path, content);
                    }
                }
                ConnEvent::HandshakeReply => {
                    replies.push(conn.send_handshake());
                }
                ConnEvent::PeerError(_) => {}
            }
        }
        while let Some(job) = machine.pop_new_send_job() {
            conn.send_jobs.push(job);
        }
    }
    replies
}

#[test]
fn handshake() {
    let mut client = Connection::new_client(default_host_info());
    let mut server = Connection::new_server(default_host_info());

    // The client's opening frame carries session id 0.
    let hello = client.send_handshake();
    assert_eq!(client.session.as_ref().unwrap().sessionid, 0);
    assert!(server.session.is_none());

    // The server answers with a fresh nonzero session id.
    let events = server.receive_once(hello).unwrap();
    assert!(matches!(events[0], ConnEvent::HandshakeReply));
    assert!(server.peer_info.is_some());
    let reply = server.send_handshake();
    let sid = server.session.as_ref().unwrap().sessionid;
    assert_ne!(sid, 0);

    // The client adopts the server's session id.
    client.receive_once(reply).unwrap();
    assert!(client.peer_info.is_some());
    assert_eq!(client.session.as_ref().unwrap().sessionid, sid);
}

#[test]
fn test_basic_file_transfer() {
    let contents = b"Hello General Kenobi\n".to_vec();
    let requested = b"testdata/test.txt".to_vec();

    let mut client = Connection::new_client(default_host_info());
    let mut server = Connection::new_server(default_host_info());
    let mut client_machine = StateMachine::new();
    let mut server_machine = StateMachine::new();

    // Handshake.
    let hello = client.send_handshake();
    let replies = deliver(&mut server, &mut server_machine, vec![hello], |_| None);
    deliver(&mut client, &mut client_machine, replies, |_| None);
    client_machine.connected();

    // The client requests the file.
    let job = client_machine.push_file_request_job(vec![requested.clone()]);
    client.send_jobs.push(job);

    // Pump datagrams both ways until both sides run dry.
    let served = contents.clone();
    for _ in 0..8 {
        let to_server = drain_datagrams(&mut client);
        let replies = deliver(&mut server, &mut server_machine, to_server, |path| {
            if path == b"testdata/test.txt" {
                Some(served.clone())
            } else {
                None
            }
        });
        deliver(&mut client, &mut client_machine, replies, |_| None);
        let to_client = drain_datagrams(&mut server);
        let replies = deliver(&mut client, &mut client_machine, to_client, |_| None);
        deliver(&mut server, &mut server_machine, replies, |_| None);
    }

    // The client holds the reassembled file under its basename.
    let mut found = false;
    for entry in &client_machine.recv_state {
        if let ObjectRecvState::File(f) = &entry.state {
            assert_eq!(f.name, b"test.txt".to_vec());
            assert_eq!(f.size, 21);
            assert!(f.done());
            assert_eq!(f.device.as_ref().unwrap(), &contents);
            found = true;
        }
    }
    assert!(found);
    assert!(client_machine.all_files_received());
    client_machine.finished();
    assert!(client_machine.is_finished());
}

#[test]
fn missing_file_yields_error_report() {
    let mut server_machine = StateMachine::new();
    server_machine.push_file_send_job(
        b"gone.txt".to_vec(),
        Err(rft::app_frame::AppErrorCode::FileNotFound),
    );
    let job = server_machine.pop_new_send_job().unwrap();
    assert_eq!(job.object_type(), 0x12);
}

#[test]
fn send_job_emits_header_then_all_chunks() {
    let data = vec![5u8; 600];
    let st = FileSendState {
        num_content_chunks: 2,
        sha3: sha3_512(&data),
        data,
        path: b"a/b.bin".to_vec(),
        name: b"b.bin".to_vec(),
    };
    let obj = Object {
        object_type: 0x11,
        object_id: 9,
        fields: vec![
            ObjectFieldDescription {
                field_type: 0x22,
                length: 1,
            },
            ObjectFieldDescription {
                field_type: 0x23,
                length: 2,
            },
        ],
    };
    let mut job = ObjectSendJob::new(obj, ChunkSource::FileResponse(st));
    assert_eq!(job.count_chunks(), 3);
    assert!(job.has_next());

    let session = EstablishedState::be_gentle(77);
    let mut frames = 0;
    while job.next_chunk < job.count_chunks() {
        let f = job.send_next(&session);
        assert_eq!(f.sid, 77);
        assert_eq!(f.tlvs.len(), 1);
        match &f.tlvs[0] {
            Tlv::ObjectHeader(h) => {
                assert_eq!(job.next_chunk, -1);
                assert_eq!(h.num_chunks, 3);
                assert_eq!(h.object_id, 9);
            }
            Tlv::ObjectChunk(c) => {
                assert_eq!(c.chunk_id, job.next_chunk);
                assert_eq!(c.more_chunks, job.next_chunk < 2);
                assert_eq!(c.num_enclosed_msgs, 1);
            }
            _ => panic!("unexpected TLV in an outgoing frame"),
        }
        job.next_chunk += 1;
        frames += 1;
    }
    // The header plus one frame per advertised chunk: 1 + 3.
    assert_eq!(frames, 4);
    assert!(!job.has_next());
}

#[test]
fn object_skip_moves_the_send_cursor() {
    let mut conn = Connection::new_server(default_host_info());
    conn.peer_info = Some(default_host_info());
    let job = ObjectSendJob::new(
        Object {
            object_type: 0x10,
            object_id: 31,
            fields: vec![ObjectFieldDescription {
                field_type: 0x20,
                length: 1,
            }],
        },
        ChunkSource::Single(vec![1, 2, 3]),
    );
    conn.send_jobs.push(job);

    let frame = MessageFrame {
        version: 2,
        sid: 5,
        tlvs: vec![Tlv::ObjectSkip(ObjectSkip {
            object_id: 31,
            skip_to: 0,
        })],
    };
    let mut datagram: Vec<u8> = Vec::new();
    frame.write(&mut datagram);
    let events = conn.receive_once(datagram).unwrap();
    assert!(events.is_empty());
    assert_eq!(conn.send_jobs[0].next_chunk, 0);
}
