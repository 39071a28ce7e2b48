use vstd::prelude::*;
use crate::frame::{AckFreq, ApplicationId, HostInformation, HostOs, Version};
use crate::common::{ReadError, ReadErrorKind};

verus! {

pub const APP_VERSION: Version = 0;

pub const PROTOCOL_VERSION: Version = 2;

/// Generous upper bound on a single datagram (jumbo frames).
pub const MAX_UDP_BUFSIZE: usize = 9000;

/// The operating system advertised in handshakes; this library assumes a
/// Linux host.
pub fn get_host_os() -> (r: HostOs)
    ensures
        r == HostOs::Linux,
{
    HostOs::Linux
}

/// The host information this implementation announces to its peer.
pub open spec fn spec_default_host_info() -> HostInformation {
    HostInformation {
        rcv_window_size: 50,
        out_of_order_limit: 50,
        ack_freq: AckFreq::Max,
        os: HostOs::Linux,
        app: ApplicationId::Soft,
        app_ver: APP_VERSION,
    }
}

pub fn default_host_info() -> (r: HostInformation)
    ensures
        r == spec_default_host_info(),
{
    HostInformation {
        rcv_window_size: 50,
        out_of_order_limit: 50,
        ack_freq: AckFreq::Max,
        os: get_host_os(),
        app: ApplicationId::Soft,
        app_ver: APP_VERSION,
    }
}

/// Session state once a handshake has been sent or completed.
#[derive(Clone, Copy, Debug, PartialEq, Eq, Structural)]
pub struct EstablishedState {
    pub sessionid: crate::frame::SessionId,
}

impl EstablishedState {
    /// A session that simply echoes the given id on every frame.
    pub fn be_gentle(sessionid: crate::frame::SessionId) -> (r: Self)
        ensures
            r.sessionid == sessionid,
    {
        EstablishedState { sessionid }
    }
}

// ---------------------------------------------------------------------------
// The connection: session establishment and per-datagram dispatch. The
// socket itself stays outside; the connection turns outbound jobs into
// datagram bytes and inbound datagram bytes into events.

/// Relies on rand::random_range: a session id drawn uniformly from the
/// nonzero 64-bit values.
#[verifier::external_body]
pub fn fresh_session_id() -> (r: u64)
    ensures
        r != 0,
{
    rand::random_range(1..=u64::MAX)
}

/// What a received datagram yields for the application.
#[derive(Debug)]
pub enum ConnEvent {
    /// A content chunk delivered to a registered receive job.
    Chunk {
        object_type: crate::frame::ObjectType,
        object_id: crate::frame::ObjectId,
        chunk_id: crate::frame::ChunkId,
        data: Vec<u8>,
        num_enclosed_msgs: u8,
    },
    /// The peer reported a transport-level error.
    PeerError(crate::frame::ErrorMessage),
    /// A client handshake arrived; the server must reply with its own
    /// handshake (`send_handshake`) before anything else is sent.
    HandshakeReply,
}

/// Ghost image of a `ConnEvent`.
pub enum ConnEventV {
    Chunk { object_type: u8, object_id: u64, chunk_id: i64, data: Seq<u8>, num_enclosed_msgs: u8 },
    PeerError(crate::frame::ErrorMessageV),
    HandshakeReply,
}

impl View for ConnEvent {
    type V = ConnEventV;

    open spec fn view(&self) -> ConnEventV {
        match self {
            ConnEvent::Chunk { object_type, object_id, chunk_id, data, num_enclosed_msgs } => {
                ConnEventV::Chunk {
                    object_type: *object_type,
                    object_id: *object_id,
                    chunk_id: *chunk_id,
                    data: data@,
                    num_enclosed_msgs: *num_enclosed_msgs,
                }
            },
            ConnEvent::PeerError(e) => ConnEventV::PeerError(e@),
            ConnEvent::HandshakeReply => ConnEventV::HandshakeReply,
        }
    }
}

/// One endpoint of a session: its job queues, its own host information,
/// what it learned of the peer, and the session id exchange.
#[derive(Debug)]
pub struct Connection {
    pub send_jobs: Vec<crate::jobs::ObjectSendJob>,
    pub recv_jobs: Vec<crate::jobs::ObjectReceiveJob>,
    pub is_server: bool,
    pub self_info: HostInformation,
    pub peer_info: Option<HostInformation>,
    pub session: Option<EstablishedState>,
}

/// Ghost image of a `Connection`.
pub struct ConnectionV {
    pub send_jobs: Seq<crate::jobs::SendJobV>,
    pub recv_jobs: Seq<crate::jobs::RecvJobV>,
    pub is_server: bool,
    pub self_info: HostInformation,
    pub peer_info: Option<HostInformation>,
    pub session: Option<EstablishedState>,
}

impl View for Connection {
    type V = ConnectionV;

    open spec fn view(&self) -> ConnectionV {
        ConnectionV {
            send_jobs: self.send_jobs@.map_values(|j: crate::jobs::ObjectSendJob| j@),
            recv_jobs: self.recv_jobs@.map_values(|j: crate::jobs::ObjectReceiveJob| j@),
            is_server: self.is_server,
            self_info: self.self_info,
            peer_info: self.peer_info,
            session: self.session,
        }
    }
}

/// The handshake frame an endpoint sends: its host information under the
/// given session id.
pub open spec fn handshake_frame(hi: HostInformation, sid: u64) -> crate::frame::MessageFrameV {
    crate::frame::MessageFrameV {
        version: PROTOCOL_VERSION,
        sid: sid,
        tlvs: seq![crate::frame::TlvV::HostInformation(hi)],
    }
}

/// The index of the first receive job for an object id.
pub open spec fn recv_job_index(jobs: Seq<crate::jobs::RecvJobV>, id: u64) -> int
    decreases jobs.len(),
{
    if jobs.len() == 0 {
        0
    } else if jobs[0].object.object_id == id {
        0
    } else {
        1 + recv_job_index(jobs.skip(1), id)
    }
}

pub open spec fn has_recv_job_for(jobs: Seq<crate::jobs::RecvJobV>, id: u64) -> bool {
    exists|j: int| 0 <= j < jobs.len() && (#[trigger] jobs[j]).object.object_id == id
}

/// Whether some receive job exists for the object key of a header.
pub open spec fn has_recv_job_for_key(jobs: Seq<crate::jobs::RecvJobV>, t: u8, id: u64) -> bool {
    exists|j: int|
        0 <= j < jobs.len() && (#[trigger] jobs[j]).object.object_id == id
            && jobs[j].object.object_type == t
}

/// The index of the first send job for an object id.
pub open spec fn send_job_index(jobs: Seq<crate::jobs::SendJobV>, id: u64) -> int
    decreases jobs.len(),
{
    if jobs.len() == 0 {
        0
    } else if jobs[0].object.object_id == id {
        0
    } else {
        1 + send_job_index(jobs.skip(1), id)
    }
}

pub open spec fn has_send_job_for(jobs: Seq<crate::jobs::SendJobV>, id: u64) -> bool {
    exists|j: int| 0 <= j < jobs.len() && (#[trigger] jobs[j]).object.object_id == id
}

/// Applying one acknowledgment request to the receive jobs.
pub open spec fn apply_ack_request(
    jobs: Seq<crate::jobs::RecvJobV>,
    p: (u64, i64),
) -> Seq<crate::jobs::RecvJobV> {
    if has_recv_job_for(jobs, p.0) {
        let j = recv_job_index(jobs, p.0);
        jobs.update(j, crate::jobs::RecvJobV { ack_req: p.1, ..jobs[j] })
    } else {
        jobs
    }
}

/// Applying a run of acknowledgment requests, in order.
pub open spec fn apply_ack_requests(
    jobs: Seq<crate::jobs::RecvJobV>,
    pairs: Seq<(u64, i64)>,
) -> Seq<crate::jobs::RecvJobV>
    decreases pairs.len(),
{
    if pairs.len() == 0 {
        jobs
    } else {
        apply_ack_requests(apply_ack_request(jobs, pairs[0]), pairs.skip(1))
    }
}

/// The dispatch of one transport TLV against the connection, as the tick
/// performs it: the successor connection state and the event it surfaces.
pub open spec fn accept_tlv_spec(
    c: ConnectionV,
    frame_sid: u64,
    t: crate::frame::TlvV,
) -> (ConnectionV, Option<ConnEventV>) {
    if c.peer_info is None {
        match t {
            crate::frame::TlvV::HostInformation(hi) => {
                if c.is_server {
                    (
                        ConnectionV { peer_info: Some(hi), ..c },
                        Some(ConnEventV::HandshakeReply),
                    )
                } else {
                    (
                        ConnectionV {
                            peer_info: Some(hi),
                            session: Some(EstablishedState { sessionid: frame_sid }),
                            ..c
                        },
                        None,
                    )
                }
            },
            _ => (c, None),
        }
    } else {
        match t {
            crate::frame::TlvV::HostInformation(hi) => (c, None),
            crate::frame::TlvV::ObjectHeader(oh) => {
                if has_recv_job_for_key(c.recv_jobs, oh.object_type, oh.object_id) {
                    (c, None)
                } else {
                    (
                        ConnectionV {
                            recv_jobs: c.recv_jobs.push(
                                crate::jobs::RecvJobV {
                                    object: crate::jobs::ObjectV {
                                        object_type: oh.object_type,
                                        object_id: oh.object_id,
                                        fields: oh.fields,
                                    },
                                    abort: false,
                                    ack_req: if oh.ack_req {
                                        -1i64
                                    } else {
                                        -2i64
                                    },
                                },
                            ),
                            ..c
                        },
                        None,
                    )
                }
            },
            crate::frame::TlvV::ObjectChunk(oc) => {
                if has_recv_job_for(c.recv_jobs, oc.object_id) {
                    let j = recv_job_index(c.recv_jobs, oc.object_id);
                    let jobs2 = if oc.ack_required {
                        c.recv_jobs.update(
                            j,
                            crate::jobs::RecvJobV { ack_req: oc.chunk_id, ..c.recv_jobs[j] },
                        )
                    } else {
                        c.recv_jobs
                    };
                    (
                        ConnectionV { recv_jobs: jobs2, ..c },
                        Some(
                            ConnEventV::Chunk {
                                object_type: c.recv_jobs[j].object.object_type,
                                object_id: oc.object_id,
                                chunk_id: oc.chunk_id,
                                data: oc.data,
                                num_enclosed_msgs: oc.num_enclosed_msgs,
                            },
                        ),
                    )
                } else {
                    (c, None)
                }
            },
            crate::frame::TlvV::ObjectAckRequest(ar) => {
                (
                    ConnectionV {
                        recv_jobs: apply_ack_requests(c.recv_jobs, ar.req_ack_object_chunks),
                        ..c
                    },
                    None,
                )
            },
            crate::frame::TlvV::ObjectAck(ack) => (c, None),
            crate::frame::TlvV::ObjectSkip(sk) => {
                if has_send_job_for(c.send_jobs, sk.object_id) {
                    let j = send_job_index(c.send_jobs, sk.object_id);
                    (
                        ConnectionV {
                            send_jobs: c.send_jobs.update(
                                j,
                                crate::jobs::SendJobV {
                                    next_chunk: sk.skip_to,
                                    ..c.send_jobs[j]
                                },
                            ),
                            ..c
                        },
                        None,
                    )
                } else {
                    (c, None)
                }
            },
            crate::frame::TlvV::ErrorMessage(em) => (c, Some(ConnEventV::PeerError(em))),
        }
    }
}

/// Folding a frame's TLVs into the connection, in arrival order.
pub open spec fn accept_fold(
    c: ConnectionV,
    frame_sid: u64,
    tlvs: Seq<crate::frame::TlvV>,
) -> (ConnectionV, Seq<ConnEventV>)
    decreases tlvs.len(),
{
    if tlvs.len() == 0 {
        (c, Seq::empty())
    } else {
        let step = accept_tlv_spec(c, frame_sid, tlvs[0]);
        let rest = accept_fold(step.0, frame_sid, tlvs.skip(1));
        (
            rest.0,
            (match step.1 {
                Some(e) => seq![e] + rest.1,
                None => rest.1,
            }),
        )
    }
}

impl Connection {
    /// A fresh client connection around the given host information; the
    /// caller sends the datagram from `send_handshake` to open the session.
    pub fn new_client(self_info: HostInformation) -> (r: Connection)
        ensures
            r@.send_jobs == Seq::<crate::jobs::SendJobV>::empty(),
            r@.recv_jobs == Seq::<crate::jobs::RecvJobV>::empty(),
            !r@.is_server,
            r@.self_info == self_info,
            r@.peer_info is None,
            r@.session is None,
    {
        let r = Connection {
            send_jobs: Vec::new(),
            recv_jobs: Vec::new(),
            is_server: false,
            self_info,
            peer_info: None,
            session: None,
        };
        proof {
            assert(r@.send_jobs =~= Seq::<crate::jobs::SendJobV>::empty());
            assert(r@.recv_jobs =~= Seq::<crate::jobs::RecvJobV>::empty());
        }
        r
    }

    /// A fresh server connection, as a listener creates one when the first
    /// datagram of a new peer arrives.
    pub fn new_server(self_info: HostInformation) -> (r: Connection)
        ensures
            r@.send_jobs == Seq::<crate::jobs::SendJobV>::empty(),
            r@.recv_jobs == Seq::<crate::jobs::RecvJobV>::empty(),
            r@.is_server,
            r@.self_info == self_info,
            r@.peer_info is None,
            r@.session is None,
    {
        let r = Connection {
            send_jobs: Vec::new(),
            recv_jobs: Vec::new(),
            is_server: true,
            self_info,
            peer_info: None,
            session: None,
        };
        proof {
            assert(r@.send_jobs =~= Seq::<crate::jobs::SendJobV>::empty());
            assert(r@.recv_jobs =~= Seq::<crate::jobs::RecvJobV>::empty());
        }
        r
    }

    /// Builds and records this side's handshake: session id 0 for a
    /// client's opening frame, a fresh nonzero id chosen by a server. The
    /// returned datagram carries the host information under that id.
    pub fn send_handshake(&mut self) -> (r: Vec<u8>)
        ensures
            final(self)@.send_jobs == old(self)@.send_jobs,
            final(self)@.recv_jobs == old(self)@.recv_jobs,
            final(self)@.is_server == old(self)@.is_server,
            final(self)@.self_info == old(self)@.self_info,
            final(self)@.peer_info == old(self)@.peer_info,
            final(self)@.session matches Some(es) && {
                &&& old(self)@.is_server ==> es.sessionid != 0
                &&& !old(self)@.is_server ==> es.sessionid == 0
                &&& r@ == crate::frame::enc_frame(handshake_frame(old(self)@.self_info, es.sessionid))
            },
    {
        let sid: u64 = if self.is_server {
            fresh_session_id()
        } else {
            0
        };
        let mut tlvs: Vec<crate::frame::Tlv> = Vec::new();
        tlvs.push(crate::frame::Tlv::HostInformation(self.self_info));
        let frame = crate::frame::MessageFrame { version: PROTOCOL_VERSION, sid, tlvs };
        proof {
            assert(frame@.tlvs =~= handshake_frame(self@.self_info, sid).tlvs);
        }
        let mut out: Vec<u8> = Vec::new();
        frame.write(&mut out);
        self.session = Some(EstablishedState::be_gentle(sid));
        proof {
            assert(final(self)@.send_jobs =~= old(self)@.send_jobs);
            assert(final(self)@.recv_jobs =~= old(self)@.recv_jobs);
        }
        out
    }

    /// Serializes the next frame of send job `i` and advances its cursor:
    /// the header at chunk -1, then each content chunk in order. Nothing is
    /// produced before the session exists, for an aborted job, or once the
    /// job is exhausted.
    pub fn send_once(&mut self, i: usize) -> (r: Option<Vec<u8>>)
        requires
            i < old(self)@.send_jobs.len(),
            crate::jobs::wf_send_job(old(self)@.send_jobs[i as int]),
            old(self)@.send_jobs[i as int].next_chunk >= -1,
        ensures
            final(self)@.recv_jobs == old(self)@.recv_jobs,
            final(self)@.is_server == old(self)@.is_server,
            final(self)@.self_info == old(self)@.self_info,
            final(self)@.peer_info == old(self)@.peer_info,
            final(self)@.session == old(self)@.session,
            ({
                let job = old(self)@.send_jobs[i as int];
                match old(self)@.session {
                    Some(es) => if !job.abort && job.next_chunk < crate::jobs::sum_lengths(
                        job.object.fields,
                    ) {
                        &&& r matches Some(d) && d@ == crate::frame::enc_frame(
                            crate::jobs::send_frame_at(job, es.sessionid, job.next_chunk as int),
                        )
                        &&& final(self)@.send_jobs == old(self)@.send_jobs.update(
                            i as int,
                            crate::jobs::SendJobV {
                                next_chunk: (job.next_chunk + 1) as i64,
                                ..job
                            },
                        )
                    } else {
                        r is None && final(self)@.send_jobs == old(self)@.send_jobs
                    },
                    None => r is None && final(self)@.send_jobs == old(self)@.send_jobs,
                }
            }),
    {
        let session = match &self.session {
            Some(es) => EstablishedState { sessionid: es.sessionid },
            None => {
                proof {
                    assert(final(self)@.send_jobs =~= old(self)@.send_jobs);
                    assert(final(self)@.recv_jobs =~= old(self)@.recv_jobs);
                }
                return None;
            },
        };
        let mut job = self.send_jobs.remove(i);
        if job.abort || job.next_chunk >= job.count_chunks() {
            self.send_jobs.insert(i, job);
            proof {
                assert(final(self)@.send_jobs =~= old(self)@.send_jobs);
                assert(final(self)@.recv_jobs =~= old(self)@.recv_jobs);
            }
            return None;
        }
        let frame = job.send_next(&session);
        let mut out: Vec<u8> = Vec::new();
        frame.write(&mut out);
        job.next_chunk = job.next_chunk + 1;
        self.send_jobs.insert(i, job);
        proof {
            let jobv = old(self)@.send_jobs[i as int];
            assert(final(self)@.send_jobs =~= old(self)@.send_jobs.update(
                i as int,
                crate::jobs::SendJobV { next_chunk: (jobv.next_chunk + 1) as i64, ..jobv },
            ));
            assert(final(self)@.recv_jobs =~= old(self)@.recv_jobs);
        }
        Some(out)
    }
}


impl Connection {
    /// Dispatches one received TLV: completes the handshake, registers new
    /// receive jobs, surfaces chunks and peer errors, applies skip and
    /// acknowledgment requests.
    #[verifier::loop_isolation(false)]
    #[verifier::rlimit(50)]
    pub fn accept_tlv(&mut self, frame_sid: u64, tlv: &crate::frame::Tlv) -> (r: Option<ConnEvent>)
        ensures
            final(self)@ == accept_tlv_spec(old(self)@, frame_sid, tlv@).0,
            ({
                let ev = accept_tlv_spec(old(self)@, frame_sid, tlv@).1;
                match r {
                    Some(e) => ev matches Some(v) && e@ == v,
                    None => ev is None,
                }
            }),
    {
        let ghost c0 = self@;
        if self.peer_info.is_none() {
            match tlv {
                crate::frame::Tlv::HostInformation(hi) => {
                    self.peer_info = Some(*hi);
                    if self.is_server {
                        proof {
                            assert(final(self)@ == accept_tlv_spec(c0, frame_sid, tlv@).0);
                        }
                        Some(ConnEvent::HandshakeReply)
                    } else {
                        self.session = Some(EstablishedState::be_gentle(frame_sid));
                        proof {
                            assert(final(self)@ == accept_tlv_spec(c0, frame_sid, tlv@).0);
                        }
                        None
                    }
                },
                _ => {
                    proof {
                        assert(final(self)@ == accept_tlv_spec(c0, frame_sid, tlv@).0);
                    }
                    None
                },
            }
        } else {
            match tlv {
                crate::frame::Tlv::ObjectHeader(oh) => {
                    let mut j: usize = 0;
                    let n = self.recv_jobs.len();
                    while j < n && !(self.recv_jobs[j].object.object_id == oh.object_id
                        && self.recv_jobs[j].object.object_type == oh.object_type)
                        invariant
                            j <= n,
                            forall|q: int|
                                0 <= q < j ==> !((#[trigger] self@.recv_jobs[q]).object.object_id
                                    == oh.object_id && self@.recv_jobs[q].object.object_type
                                    == oh.object_type),
                        decreases n - j,
                    {
                        j = j + 1;
                    }
                    if j < n {
                        proof {
                            assert((#[trigger] c0.recv_jobs[j as int]).object.object_id
                                == oh.object_id && c0.recv_jobs[j as int].object.object_type
                                == oh.object_type);
                            assert(has_recv_job_for_key(
                                c0.recv_jobs,
                                oh@.object_type,
                                oh@.object_id,
                            ));
                        }
                        None
                    } else {
                        proof {
                            assert(!has_recv_job_for_key(
                                c0.recv_jobs,
                                oh@.object_type,
                                oh@.object_id,
                            ));
                        }
                        let job = crate::jobs::ObjectReceiveJob {
                            object: crate::jobs::Object {
                                object_type: oh.object_type,
                                object_id: oh.object_id,
                                fields: crate::jobs::copy_fields(&oh.fields),
                            },
                            abort: false,
                            ack_req: if oh.ack_req {
                                -1
                            } else {
                                -2
                            },
                        };
                        self.recv_jobs.push(job);
                        proof {
                            assert(final(self)@.recv_jobs =~= accept_tlv_spec(
                                c0,
                                frame_sid,
                                tlv@,
                            ).0.recv_jobs);
                        }
                        None
                    }
                },
                crate::frame::Tlv::ObjectChunk(oc) => {
                    let mut j: usize = 0;
                    let n = self.recv_jobs.len();
                    while j < n && self.recv_jobs[j].object.object_id != oc.object_id
                        invariant
                            j <= n,
                            forall|q: int|
                                0 <= q < j ==> (#[trigger] self@.recv_jobs[q]).object.object_id
                                    != oc.object_id,
                        decreases n - j,
                    {
                        j = j + 1;
                    }
                    if j == n {
                        proof {
                            assert(!has_recv_job_for(c0.recv_jobs, oc@.object_id));
                        }
                        None
                    } else {
                        proof {
                            assert(has_recv_job_for(c0.recv_jobs, oc@.object_id));
                            lemma_recv_job_index(c0.recv_jobs, oc@.object_id);
                            assert(j as int == recv_job_index(c0.recv_jobs, oc@.object_id));
                        }
                        let otype = self.recv_jobs[j].object.object_type;
                        if oc.ack_required {
                            let mut job = self.recv_jobs.remove(j);
                            job.ack_req = oc.chunk_id;
                            self.recv_jobs.insert(j, job);
                            proof {
                                assert(final(self)@.recv_jobs =~= c0.recv_jobs.update(
                                    j as int,
                                    crate::jobs::RecvJobV {
                                        ack_req: oc@.chunk_id,
                                        ..c0.recv_jobs[j as int]
                                    },
                                ));
                            }
                        }
                        Some(
                            ConnEvent::Chunk {
                                object_type: otype,
                                object_id: oc.object_id,
                                chunk_id: oc.chunk_id,
                                data: crate::bytes::copy_bytes(&oc.data),
                                num_enclosed_msgs: oc.num_enclosed_msgs,
                            },
                        )
                    }
                },
                crate::frame::Tlv::ObjectAckRequest(ar) => {
                    let ghost pairs = ar@.req_ack_object_chunks;
                    let mut k: usize = 0;
                    proof {
                        assert(pairs.subrange(0, 0) =~= Seq::<(u64, i64)>::empty());
                        assert(apply_ack_requests(c0.recv_jobs, pairs.subrange(0, 0))
                            == c0.recv_jobs);
                    }
                    while k < ar.req_ack_object_chunks.len()
                        invariant
                            k <= pairs.len(),
                            self@.send_jobs == c0.send_jobs,
                            self@.is_server == c0.is_server,
                            self@.self_info == c0.self_info,
                            self@.peer_info == c0.peer_info,
                            self@.session == c0.session,
                            self@.recv_jobs == apply_ack_requests(
                                c0.recv_jobs,
                                pairs.subrange(0, k as int),
                            ),
                        decreases pairs.len() - k,
                    {
                        let ghost jobs_pre = self@.recv_jobs;
                        let p = ar.req_ack_object_chunks[k];
                        let mut j: usize = 0;
                        let n = self.recv_jobs.len();
                        while j < n && self.recv_jobs[j].object.object_id != p.0
                            invariant
                                j <= n,
                                n == self.recv_jobs@.len(),
                                self@.recv_jobs == jobs_pre,
                                forall|q: int|
                                    0 <= q < j ==> (#[trigger] self@.recv_jobs[q]).object.object_id
                                        != p.0,
                            decreases n - j,
                        {
                            j = j + 1;
                        }
                        if j < n {
                            proof {
                                assert((#[trigger] jobs_pre[j as int]).object.object_id == p.0);
                                assert(has_recv_job_for(jobs_pre, p.0));
                                lemma_recv_job_index(jobs_pre, p.0);
                                assert(j as int == recv_job_index(jobs_pre, p.0));
                            }
                            let mut job = self.recv_jobs.remove(j);
                            job.ack_req = p.1;
                            self.recv_jobs.insert(j, job);
                            proof {
                                assert(self@.recv_jobs =~= apply_ack_request(jobs_pre, p));
                            }
                        } else {
                            proof {
                                assert(!has_recv_job_for(jobs_pre, p.0));
                                assert(self@.recv_jobs =~= apply_ack_request(jobs_pre, p));
                            }
                        }
                        proof {
                            lemma_apply_ack_requests_push(
                                c0.recv_jobs,
                                pairs.subrange(0, k as int),
                                p,
                            );
                            assert(pairs.subrange(0, k as int).push(p) =~= pairs.subrange(
                                0,
                                k as int + 1,
                            ));
                        }
                        k = k + 1;
                    }
                    proof {
                        assert(pairs.subrange(0, pairs.len() as int) =~= pairs);
                        assert(final(self)@.recv_jobs == accept_tlv_spec(
                            c0,
                            frame_sid,
                            tlv@,
                        ).0.recv_jobs);
                    }
                    None
                },
                crate::frame::Tlv::ObjectSkip(sk) => {
                    let mut j: usize = 0;
                    let n = self.send_jobs.len();
                    while j < n && self.send_jobs[j].object_id() != sk.object_id
                        invariant
                            j <= n,
                            forall|q: int|
                                0 <= q < j ==> (#[trigger] self@.send_jobs[q]).object.object_id
                                    != sk.object_id,
                        decreases n - j,
                    {
                        j = j + 1;
                    }
                    if j < n {
                        proof {
                            assert(has_send_job_for(c0.send_jobs, sk.object_id));
                            lemma_send_job_index(c0.send_jobs, sk.object_id);
                        }
                        let mut job = self.send_jobs.remove(j);
                        job.next_chunk = sk.skip_to;
                        self.send_jobs.insert(j, job);
                        proof {
                            assert(final(self)@.send_jobs =~= c0.send_jobs.update(
                                j as int,
                                crate::jobs::SendJobV {
                                    next_chunk: sk.skip_to,
                                    ..c0.send_jobs[j as int]
                                },
                            ));
                        }
                    } else {
                        proof {
                            assert(!has_send_job_for(c0.send_jobs, sk.object_id));
                        }
                    }
                    None
                },
                crate::frame::Tlv::ErrorMessage(em) => {
                    let code = em.code;
                    let detail = match &em.detail {
                        crate::frame::ErrorData::UnsupportedVersion(x) => {
                            crate::frame::ErrorData::UnsupportedVersion(*x)
                        },
                        crate::frame::ErrorData::ObjectAbort(ids) => {
                            let mut out: Vec<u64> = Vec::new();
                            let mut q: usize = 0;
                            while q < ids.len()
                                invariant
                                    q <= ids@.len(),
                                    out@ == ids@.subrange(0, q as int),
                                decreases ids@.len() - q,
                            {
                                out.push(ids[q]);
                                assert(out@ =~= ids@.subrange(0, q as int + 1));
                                q = q + 1;
                            }
                            proof {
                                assert(out@ =~= ids@);
                            }
                            crate::frame::ErrorData::ObjectAbort(out)
                        },
                        crate::frame::ErrorData::NoDetail => crate::frame::ErrorData::NoDetail,
                    };
                    let copy = crate::frame::ErrorMessage { code, detail };
                    proof {
                        assert(copy@ == em@);
                    }
                    Some(ConnEvent::PeerError(copy))
                },
                _ => {
                    None
                },
            }
        }
    }
}

/// The first receive job for an id sits where the scan stops.
proof fn lemma_recv_job_index(jobs: Seq<crate::jobs::RecvJobV>, id: u64)
    requires
        has_recv_job_for(jobs, id),
    ensures
        0 <= recv_job_index(jobs, id) < jobs.len(),
        jobs[recv_job_index(jobs, id)].object.object_id == id,
        forall|q: int|
            0 <= q < recv_job_index(jobs, id) ==> (#[trigger] jobs[q]).object.object_id != id,
    decreases jobs.len(),
{
    if jobs.len() > 0 && jobs[0].object.object_id != id {
        let tail = jobs.skip(1);
        assert(has_recv_job_for(tail, id)) by {
            let w = choose|j: int|
                0 <= j < jobs.len() && (#[trigger] jobs[j]).object.object_id == id;
            assert(tail[w - 1] == jobs[w]);
        }
        lemma_recv_job_index(tail, id);
        assert forall|q: int|
            0 <= q < recv_job_index(jobs, id) implies (#[trigger] jobs[q]).object.object_id
            != id by {
            if q > 0 {
                assert(tail[q - 1] == jobs[q]);
            }
        }
    }
}

/// The first send job for an id sits where the scan stops.
proof fn lemma_send_job_index(jobs: Seq<crate::jobs::SendJobV>, id: u64)
    requires
        has_send_job_for(jobs, id),
    ensures
        0 <= send_job_index(jobs, id) < jobs.len(),
        jobs[send_job_index(jobs, id)].object.object_id == id,
        forall|q: int|
            0 <= q < send_job_index(jobs, id) ==> (#[trigger] jobs[q]).object.object_id != id,
    decreases jobs.len(),
{
    if jobs.len() > 0 && jobs[0].object.object_id != id {
        let tail = jobs.skip(1);
        assert(has_send_job_for(tail, id)) by {
            let w = choose|j: int|
                0 <= j < jobs.len() && (#[trigger] jobs[j]).object.object_id == id;
            assert(tail[w - 1] == jobs[w]);
        }
        lemma_send_job_index(tail, id);
        assert forall|q: int|
            0 <= q < send_job_index(jobs, id) implies (#[trigger] jobs[q]).object.object_id
            != id by {
            if q > 0 {
                assert(tail[q - 1] == jobs[q]);
            }
        }
    }
}

proof fn lemma_apply_ack_requests_push(
    jobs: Seq<crate::jobs::RecvJobV>,
    pairs: Seq<(u64, i64)>,
    p: (u64, i64),
)
    ensures
        apply_ack_requests(jobs, pairs.push(p)) == apply_ack_request(
            apply_ack_requests(jobs, pairs),
            p,
        ),
    decreases pairs.len(),
{
    let q = pairs.push(p);
    assert(q.len() == pairs.len() + 1);
    assert(apply_ack_requests(jobs, q) == apply_ack_requests(
        apply_ack_request(jobs, q[0]),
        q.skip(1),
    ));
    if pairs.len() == 0 {
        assert(q[0] == p);
        assert(q.skip(1) =~= Seq::<(u64, i64)>::empty());
        assert(apply_ack_requests(jobs, pairs) == jobs);
    } else {
        assert(q[0] == pairs[0]);
        assert(q.skip(1) =~= pairs.skip(1).push(p));
        lemma_apply_ack_requests_push(apply_ack_request(jobs, pairs[0]), pairs.skip(1), p);
    }
}


impl Connection {
    /// Accepts one received datagram: parses the frame, rejects version
    /// mismatches, and dispatches its TLVs in arrival order. A frame that
    /// does not parse (checksum error included) is dropped with an error
    /// and leaves the connection unchanged.
    #[verifier::loop_isolation(false)]
    pub fn receive_once(&mut self, datagram: Vec<u8>) -> (r: Result<Vec<ConnEvent>, ReadError>)
        ensures
            match crate::frame::dec_frame(datagram@, 0) {
                Some((f, end)) => if f.version == PROTOCOL_VERSION {
                    r matches Ok(events) && ({
                        let folded = accept_fold(old(self)@, f.sid, f.tlvs);
                        final(self)@ == folded.0 && events@.map_values(|e: ConnEvent| e@)
                            == folded.1
                    })
                } else {
                    r is Err && final(self)@ == old(self)@
                },
                None => r is Err && final(self)@ == old(self)@,
            },
            ({
                let failed = crate::frame::frame_checksum_error(datagram@, 0);
                failed ==> (r matches Err(e) && e.kind == ReadErrorKind::Checksum)
            }),
    {
        let ghost c0 = self@;
        let mut reader = crate::bytes::Reader::new(datagram);
        let frame = match crate::frame::MessageFrame::read(&mut reader) {
            Ok(f) => f,
            Err(e) => {
                return Err(e);
            },
        };
        if frame.version != PROTOCOL_VERSION {
            return Err(
                crate::common::ReadError::of_kind(
                    ReadErrorKind::Other,
                    "unsupported protocol version",
                ),
            );
        }
        let ghost tlvsv = frame@.tlvs;
        let sid = frame.sid;
        let mut events: Vec<ConnEvent> = Vec::new();
        let mut k: usize = 0;
        proof {
            assert(events@.map_values(|e: ConnEvent| e@) =~= Seq::<ConnEventV>::empty());
            assert(tlvsv.skip(0) =~= tlvsv);
        }
        while k < frame.tlvs.len()
            invariant
                k <= tlvsv.len(),
                tlvsv == frame@.tlvs,
                tlvsv.len() == frame.tlvs@.len(),
                sid == frame.sid,
                accept_fold(c0, sid, tlvsv) == ({
                    let rest = accept_fold(self@, sid, tlvsv.skip(k as int));
                    (rest.0, events@.map_values(|e: ConnEvent| e@) + rest.1)
                }),
            decreases tlvsv.len() - k,
        {
            let ghost pre_events = events@.map_values(|e: ConnEvent| e@);
            let ghost c_pre = self@;
            let tlv = &frame.tlvs[k];
            proof {
                assert(tlv@ == tlvsv[k as int]);
            }
            let ev = self.accept_tlv(sid, tlv);
            proof {
                let step = accept_tlv_spec(c_pre, sid, tlvsv[k as int]);
                assert(accept_fold(c_pre, sid, tlvsv.skip(k as int)) == ({
                    let rest = accept_fold(step.0, sid, tlvsv.skip(k as int).skip(1));
                    (rest.0, (match step.1 {
                        Some(e) => seq![e] + rest.1,
                        None => rest.1,
                    }))
                }));
                assert(tlvsv.skip(k as int).skip(1) =~= tlvsv.skip(k as int + 1));
            }
            match ev {
                Some(e) => {
                    let ghost pre2 = events@;
                    events.push(e);
                    proof {
                        let m2 = events@.map_values(|e2: ConnEvent| e2@);
                        assert(events@ == pre2.push(e));
                        assert(pre2.map_values(|e2: ConnEvent| e2@).len() == pre2.len());
                        assert forall|q: int| 0 <= q < m2.len() implies m2[q] == (pre_events
                            + seq![e@])[q] by {
                            assert(m2[q] == events@[q]@);
                            if q < pre2.len() {
                                assert(events@[q] == pre2[q]);
                                assert(pre2.map_values(|e2: ConnEvent| e2@)[q] == pre2[q]@);
                            } else {
                                assert(events@[q] == e);
                            }
                        }
                        assert(m2 =~= pre_events + seq![e@]);
                        assert forall|a: Seq<ConnEventV>| pre_events + (seq![e@] + a) =~= (
                        pre_events + seq![e@]) + a by {}
                    }
                },
                None => {
                    proof {
                        assert(events@.map_values(|e2: ConnEvent| e2@) == pre_events);
                    }
                },
            }
            k = k + 1;
        }
        proof {
            assert(tlvsv.skip(tlvsv.len() as int) =~= Seq::<crate::frame::TlvV>::empty());
            assert(accept_fold(self@, sid, tlvsv.skip(tlvsv.len() as int)) == (
                self@,
                Seq::<ConnEventV>::empty(),
            ));
            assert(events@.map_values(|e: ConnEvent| e@) + Seq::<ConnEventV>::empty()
                =~= events@.map_values(|e: ConnEvent| e@));
        }
        Ok(events)
    }
}


} // verus!
