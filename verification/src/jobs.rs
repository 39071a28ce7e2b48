use vstd::prelude::*;
use crate::app_frame::{
    enc_file_content, enc_file_metadata, FileContent, FileContentV, FileMetadata, FileMetadataV,
    MetadataEntry, MetadataEntryType, MetadataEntryV,
};
use crate::bytes::enc_u64;
use crate::connection::{EstablishedState, PROTOCOL_VERSION};
use crate::frame::{
    wf_field_description, wf_frame, ChunkId, MessageFrame, MessageFrameV, ObjectChunk,
    ObjectChunkV, ObjectFieldDescription, ObjectHeader, ObjectHeaderV, ObjectId, Tlv, TlvV,
};
use crate::state::{FileSendState, FileSendStateV};

verus! {

// ---------------------------------------------------------------------------
// Object: what an application can send and receive.

/// A transfer unit: its type and id, and the fields whose chunks make up
/// its stream.
#[derive(Debug)]
pub struct Object {
    pub object_type: crate::frame::ObjectType,
    pub object_id: ObjectId,
    pub fields: Vec<ObjectFieldDescription>,
}

/// Ghost image of an `Object`.
pub struct ObjectV {
    pub object_type: crate::frame::ObjectType,
    pub object_id: ObjectId,
    pub fields: Seq<ObjectFieldDescription>,
}

impl View for Object {
    type V = ObjectV;

    open spec fn view(&self) -> ObjectV {
        ObjectV {
            object_type: self.object_type,
            object_id: self.object_id,
            fields: self.fields@,
        }
    }
}

/// Total chunk count advertised by a field list.
pub open spec fn sum_lengths(fields: Seq<ObjectFieldDescription>) -> int
    decreases fields.len(),
{
    if fields.len() == 0 {
        0
    } else {
        fields[0].length + sum_lengths(fields.skip(1))
    }
}

pub proof fn lemma_sum_lengths_push(fields: Seq<ObjectFieldDescription>, fd: ObjectFieldDescription)
    ensures
        sum_lengths(fields.push(fd)) == sum_lengths(fields) + fd.length,
    decreases fields.len(),
{
    let p = fields.push(fd);
    assert(p.len() == fields.len() + 1);
    assert(sum_lengths(p) == p[0].length + sum_lengths(p.skip(1)));
    if fields.len() == 0 {
        assert(p[0] == fd);
        assert(p.skip(1) =~= Seq::<ObjectFieldDescription>::empty());
        assert(sum_lengths(p.skip(1)) == 0);
    } else {
        assert(p[0] == fields[0]);
        assert(p.skip(1) =~= fields.skip(1).push(fd));
        lemma_sum_lengths_push(fields.skip(1), fd);
        assert(sum_lengths(p.skip(1)) == sum_lengths(fields.skip(1)) + fd.length);
        assert(sum_lengths(fields) == fields[0].length + sum_lengths(fields.skip(1)));
    }
}

pub proof fn lemma_sum_lengths_nonneg(fields: Seq<ObjectFieldDescription>)
    requires
        forall|k: int| 0 <= k < fields.len() ==> wf_field_description(#[trigger] fields[k]),
    ensures
        sum_lengths(fields) >= 0,
    decreases fields.len(),
{
    if fields.len() > 0 {
        assert forall|k: int| 0 <= k < fields.skip(1).len() implies wf_field_description(
            #[trigger] fields.skip(1)[k],
        ) by {
            assert(fields.skip(1)[k] == fields[k + 1]);
        }
        lemma_sum_lengths_nonneg(fields.skip(1));
    }
}

// ---------------------------------------------------------------------------
// Chunk production

/// Where a send job takes its chunk payloads from.
#[derive(Debug)]
pub enum ChunkSource {
    /// A single chunk holding one pre-serialized application TLV.
    Single(Vec<u8>),
    /// A file response: chunk 0 is the metadata TLV, chunk k >= 1 carries
    /// the 512-byte slice k-1 of the file.
    FileResponse(FileSendState),
}

/// Ghost image of a `ChunkSource`.
pub enum ChunkSourceV {
    Single(Seq<u8>),
    FileResponse(FileSendStateV),
}

impl View for ChunkSource {
    type V = ChunkSourceV;

    open spec fn view(&self) -> ChunkSourceV {
        match self {
            ChunkSource::Single(b) => ChunkSourceV::Single(b@),
            ChunkSource::FileResponse(st) => ChunkSourceV::FileResponse(st@),
        }
    }
}

pub open spec fn spec_min(a: int, b: int) -> int {
    if a < b {
        a
    } else {
        b
    }
}

/// The bytes of content chunk `k` (0-based) of a file.
pub open spec fn content_slice(data: Seq<u8>, k: int) -> Seq<u8> {
    data.subrange(512 * k, spec_min(512 * (k + 1), data.len() as int))
}

/// The metadata record a file response announces: size, basename, digest.
pub open spec fn metadata_of_send(st: FileSendStateV) -> FileMetadataV {
    FileMetadataV {
        metadata_entries: seq![
            MetadataEntryV {
                code: MetadataEntryType::FileSize,
                content: enc_u64(st.data.len() as u64),
            },
            MetadataEntryV { code: MetadataEntryType::FileName, content: st.name },
            MetadataEntryV { code: MetadataEntryType::Sha3, content: st.sha3 },
        ],
    }
}

/// The serialized payload that chunk `k` of a source carries.
pub open spec fn chunk_of_source(src: ChunkSourceV, k: int) -> Seq<u8> {
    match src {
        ChunkSourceV::Single(b) => b,
        ChunkSourceV::FileResponse(st) => if k == 0 {
            enc_file_metadata(metadata_of_send(st))
        } else {
            enc_file_content(FileContentV { content: content_slice(st.data, k - 1) })
        },
    }
}

// ---------------------------------------------------------------------------
// ObjectSendJob

/// Handler for an object in sending transmission. Chunks are pulled by the
/// connection in increasing id order, the header travelling as chunk -1.
#[derive(Debug)]
pub struct ObjectSendJob {
    /// Abort sending by setting this flag to true.
    pub abort: bool,
    /// The chunk id at which transmission proceeds; advanced by the caller
    /// after each emitted frame.
    pub next_chunk: ChunkId,
    pub object_in_transfer: Object,
    pub chunk_source: ChunkSource,
}

/// Ghost image of an `ObjectSendJob`.
pub struct SendJobV {
    pub abort: bool,
    pub next_chunk: ChunkId,
    pub object: ObjectV,
    pub source: ChunkSourceV,
}

impl View for ObjectSendJob {
    type V = SendJobV;

    open spec fn view(&self) -> SendJobV {
        SendJobV {
            abort: self.abort,
            next_chunk: self.next_chunk,
            object: self.object_in_transfer@,
            source: self.chunk_source@,
        }
    }
}

/// Validity of a send job: nonnegative field lengths whose sum fits the
/// signed chunk counter, and a source that matches the advertised chunks.
pub open spec fn wf_send_job(j: SendJobV) -> bool {
    &&& forall|k: int|
        0 <= k < j.object.fields.len() ==> wf_field_description(#[trigger] j.object.fields[k])
    &&& j.object.fields.len() <= 255
    &&& sum_lengths(j.object.fields) <= i64::MAX
    &&& match j.source {
        ChunkSourceV::Single(b) => b.len() <= 2046 && sum_lengths(j.object.fields) == 1,
        ChunkSourceV::FileResponse(st) => {
            &&& crate::state::wf_file_send_state(st)
            &&& sum_lengths(j.object.fields) == 1 + st.num_content_chunks
        },
    }
}

/// The frame a job emits for chunk id `k`: the object header at -1, a
/// content chunk otherwise.
pub open spec fn send_frame_at(j: SendJobV, sid: u64, k: int) -> MessageFrameV {
    if k == -1 {
        MessageFrameV {
            version: PROTOCOL_VERSION,
            sid: sid,
            tlvs: seq![
                TlvV::ObjectHeader(
                    ObjectHeaderV {
                        object_id: j.object.object_id,
                        num_chunks: sum_lengths(j.object.fields) as i64,
                        ack_req: false,
                        object_type: j.object.object_type,
                        fields: j.object.fields,
                    },
                ),
            ],
        }
    } else {
        MessageFrameV {
            version: PROTOCOL_VERSION,
            sid: sid,
            tlvs: seq![
                TlvV::ObjectChunk(
                    ObjectChunkV {
                        object_id: j.object.object_id,
                        chunk_id: k as i64,
                        more_chunks: k < sum_lengths(j.object.fields) - 1,
                        ack_required: false,
                        num_enclosed_msgs: 1,
                        data: chunk_of_source(j.source, k),
                    },
                ),
            ],
        }
    }
}

impl ObjectSendJob {
    pub fn new(obj: Object, chunk_source: ChunkSource) -> (r: Self)
        ensures
            r@.abort == false,
            r@.next_chunk == -1,
            r@.object == obj@,
            r@.source == chunk_source@,
    {
        ObjectSendJob { abort: false, next_chunk: -1, object_in_transfer: obj, chunk_source }
    }

    pub fn object_type(&self) -> (r: crate::frame::ObjectType)
        ensures
            r == self@.object.object_type,
    {
        self.object_in_transfer.object_type
    }

    pub fn object_id(&self) -> (r: ObjectId)
        ensures
            r == self@.object.object_id,
    {
        self.object_in_transfer.object_id
    }

    /// Acknowledgment is never requested by this sender.
    pub fn ack_required(&self) -> (r: bool)
        ensures
            r == false,
    {
        false
    }

    pub fn count_chunks(&self) -> (r: ChunkId)
        requires
            wf_send_job(self@),
        ensures
            r == sum_lengths(self@.object.fields),
    {
        let mut total: i64 = 0;
        let mut k: usize = 0;
        proof {
            assert(self@.object.fields.subrange(0, 0) =~= Seq::<ObjectFieldDescription>::empty());
        }
        while k < self.object_in_transfer.fields.len()
            invariant
                k <= self@.object.fields.len(),
                wf_send_job(self@),
                total == sum_lengths(self@.object.fields.subrange(0, k as int)),
                0 <= total <= i64::MAX,
            decreases self@.object.fields.len() - k,
        {
            let fd = self.object_in_transfer.fields[k];
            proof {
                lemma_sum_lengths_push(self@.object.fields.subrange(0, k as int), fd);
                assert(self@.object.fields.subrange(0, k as int).push(fd)
                    =~= self@.object.fields.subrange(0, k as int + 1));
                lemma_sum_prefix_bound(self@.object.fields, k as int + 1);
                lemma_sum_suffix_nonneg(self@.object.fields, k as int + 1);
            }
            total = total + fd.length;
            k = k + 1;
        }
        proof {
            assert(self@.object.fields.subrange(0, self@.object.fields.len() as int)
                =~= self@.object.fields);
        }
        total
    }

    /// Whether a chunk after `next_chunk` remains.
    pub fn has_next(&self) -> (r: bool)
        requires
            wf_send_job(self@),
        ensures
            r == (self@.next_chunk < sum_lengths(self@.object.fields) - 1),
    {
        let n_chunks = self.count_chunks();
        let last_chunk = n_chunks - 1;
        self.next_chunk < last_chunk
    }

    fn send_o_header(&self, session: &EstablishedState) -> (r: MessageFrame)
        requires
            wf_send_job(self@),
        ensures
            r@ == send_frame_at(self@, session.sessionid, -1),
            wf_frame(r@),
    {
        let num_chunks = self.count_chunks();
        let oh = ObjectHeader {
            object_id: self.object_in_transfer.object_id,
            num_chunks,
            ack_req: false,
            object_type: self.object_in_transfer.object_type,
            fields: copy_fields(&self.object_in_transfer.fields),
        };
        let mut tlvs: Vec<Tlv> = Vec::new();
        tlvs.push(Tlv::ObjectHeader(oh));
        let msg = MessageFrame { version: PROTOCOL_VERSION, sid: session.sessionid, tlvs };
        proof {
            lemma_sum_lengths_nonneg(self@.object.fields);
            assert(msg@.tlvs =~= send_frame_at(self@, session.sessionid, -1).tlvs);
        }
        msg
    }

    fn send_o_chunk(&self, session: &EstablishedState) -> (r: MessageFrame)
        requires
            wf_send_job(self@),
            0 <= self@.next_chunk < sum_lengths(self@.object.fields),
        ensures
            r@ == send_frame_at(self@, session.sessionid, self@.next_chunk as int),
            wf_frame(r@),
    {
        let (data, n_tlvs) = self.get_chunk(self.next_chunk);
        let more = self.has_next();
        let oc = ObjectChunk {
            object_id: self.object_in_transfer.object_id,
            chunk_id: self.next_chunk,
            more_chunks: more,
            ack_required: false,
            num_enclosed_msgs: n_tlvs,
            data,
        };
        let mut tlvs: Vec<Tlv> = Vec::new();
        tlvs.push(Tlv::ObjectChunk(oc));
        let msg = MessageFrame { version: PROTOCOL_VERSION, sid: session.sessionid, tlvs };
        proof {
            assert(msg@.tlvs =~= send_frame_at(
                self@,
                session.sessionid,
                self@.next_chunk as int,
            ).tlvs);
        }
        msg
    }

    /// The frame for the current `next_chunk`; the caller advances
    /// `next_chunk` once the frame has been sent.
    pub fn send_next(&self, session: &EstablishedState) -> (r: MessageFrame)
        requires
            wf_send_job(self@),
            -1 <= self@.next_chunk < sum_lengths(self@.object.fields),
        ensures
            r@ == send_frame_at(self@, session.sessionid, self@.next_chunk as int),
            wf_frame(r@),
    {
        if self.next_chunk == -1 {
            self.send_o_header(session)
        } else {
            self.send_o_chunk(session)
        }
    }

    /// The payload of content chunk `chunk_id` together with the number of
    /// application TLVs enclosed in it.
    pub fn get_chunk(&self, chunk_id: ChunkId) -> (r: (Vec<u8>, u8))
        requires
            wf_send_job(self@),
            0 <= chunk_id < sum_lengths(self@.object.fields),
        ensures
            r.0@ == chunk_of_source(self@.source, chunk_id as int),
            r.1 == 1,
            r.0@.len() <= 2046,
    {
        match &self.chunk_source {
            ChunkSource::Single(bytes) => (crate::bytes::copy_bytes(bytes), 1),
            ChunkSource::FileResponse(st) => {
                if chunk_id == 0 {
                    let mut size_bytes: Vec<u8> = Vec::new();
                    crate::bytes::write_u64(&mut size_bytes, st.data.len() as u64);
                    let mut entries: Vec<MetadataEntry> = Vec::new();
                    entries.push(
                        MetadataEntry { code: MetadataEntryType::FileSize, content: size_bytes },
                    );
                    entries.push(
                        MetadataEntry {
                            code: MetadataEntryType::FileName,
                            content: crate::bytes::copy_bytes(&st.name),
                        },
                    );
                    entries.push(
                        MetadataEntry {
                            code: MetadataEntryType::Sha3,
                            content: crate::bytes::copy_bytes(&st.sha3),
                        },
                    );
                    let md = FileMetadata { metadata_entries: entries };
                    proof {
                        lemma_metadata_chunk_small(st@);
                        assert(md@.metadata_entries =~= metadata_of_send(st@).metadata_entries);
                    }
                    let mut out: Vec<u8> = Vec::new();
                    md.write(&mut out);
                    (out, 1)
                } else {
                    proof {
                        lemma_content_chunk_bounds(st@, chunk_id as int);
                    }
                    let start: usize = ((chunk_id - 1) as u64 * 512) as usize;
                    let len = st.data.len();
                    let end: usize = if len - start > 512 {
                        start + 512
                    } else {
                        len
                    };
                    let mut content: Vec<u8> = Vec::new();
                    let mut k: usize = start;
                    while k < end
                        invariant
                            start <= k <= end <= st.data@.len(),
                            content@ == st.data@.subrange(start as int, k as int),
                        decreases end - k,
                    {
                        content.push(st.data[k]);
                        assert(content@ =~= st.data@.subrange(start as int, k as int + 1));
                        k = k + 1;
                    }
                    proof {
                        assert(content@ =~= content_slice(st.data@, chunk_id - 1));
                    }
                    let fc = FileContent { content };
                    let mut out: Vec<u8> = Vec::new();
                    fc.write(&mut out);
                    (out, 1)
                }
            },
        }
    }
}

/// A prefix sum of well-formed field lengths is bounded by the whole sum.
proof fn lemma_sum_prefix_bound(fields: Seq<ObjectFieldDescription>, k: int)
    requires
        forall|j: int| 0 <= j < fields.len() ==> wf_field_description(#[trigger] fields[j]),
        0 <= k <= fields.len(),
    ensures
        sum_lengths(fields.subrange(0, k)) <= sum_lengths(fields),
    decreases fields.len() - k,
{
    if k == fields.len() {
        assert(fields.subrange(0, k) =~= fields);
    } else {
        lemma_sum_lengths_push(fields.subrange(0, k), fields[k]);
        assert(fields.subrange(0, k).push(fields[k]) =~= fields.subrange(0, k + 1));
        lemma_sum_prefix_bound(fields, k + 1);
    }
}

/// Any prefix sum of well-formed field lengths is nonnegative.
proof fn lemma_sum_suffix_nonneg(fields: Seq<ObjectFieldDescription>, k: int)
    requires
        forall|j: int| 0 <= j < fields.len() ==> wf_field_description(#[trigger] fields[j]),
        0 <= k <= fields.len(),
    ensures
        sum_lengths(fields.subrange(0, k)) >= 0,
{
    let pre = fields.subrange(0, k);
    assert forall|j: int| 0 <= j < pre.len() implies wf_field_description(#[trigger] pre[j]) by {
        assert(pre[j] == fields[j]);
    }
    lemma_sum_lengths_nonneg(pre);
}

/// The metadata chunk of a file response fits the 2046-byte chunk payload.
proof fn lemma_metadata_chunk_small(st: FileSendStateV)
    requires
        crate::state::wf_file_send_state(st),
    ensures
        enc_file_metadata(metadata_of_send(st)).len() <= 2046,
        crate::app_frame::wf_file_metadata(metadata_of_send(st)),
{
    let md = metadata_of_send(st);
    crate::app_frame::lemma_metadata_entries_len_bound(md.metadata_entries);
}

/// Index arithmetic for content chunks: the slice start lies inside the
/// data and the slice is at most 512 bytes.
proof fn lemma_content_chunk_bounds(st: FileSendStateV, k: int)
    requires
        crate::state::wf_file_send_state(st),
        1 <= k <= st.num_content_chunks,
    ensures
        512 * (k - 1) < st.data.len(),
        512 * k <= st.data.len() + 511,
        content_slice(st.data, k - 1).len() <= 512,
{
    let n = st.data.len() as int;
    let c = st.num_content_chunks as int;
    crate::lemma_spec_num_chunks(st.data.len() as u64);
    assert(512 * c <= n + 511);
    assert(512 * (k - 1) <= 512 * (c - 1)) by (nonlinear_arith)
        requires
            k <= c,
    ;
}

/// Copies a field list; field descriptions are plain values.
pub(crate) fn copy_fields(fields: &Vec<ObjectFieldDescription>) -> (r: Vec<ObjectFieldDescription>)
    ensures
        r@ == fields@,
{
    let mut out: Vec<ObjectFieldDescription> = Vec::new();
    let mut k: usize = 0;
    while k < fields.len()
        invariant
            k <= fields@.len(),
            out@ == fields@.subrange(0, k as int),
        decreases fields@.len() - k,
    {
        out.push(fields[k]);
        assert(out@ =~= fields@.subrange(0, k as int + 1));
        k = k + 1;
    }
    assert(out@ =~= fields@);
    out
}

// ---------------------------------------------------------------------------
// ObjectReceiveJob

/// Handler for an object in receiving transmission; arriving chunks are
/// surfaced as connection events.
#[derive(Debug)]
pub struct ObjectReceiveJob {
    /// Metadata about the object.
    pub object: Object,
    /// Abort receiving by setting this flag to true.
    pub abort: bool,
    /// Acknowledgment request marker: -1 none, -2 suppressed, otherwise
    /// the chunk id whose acknowledgment the peer solicits.
    pub ack_req: ChunkId,
}

/// Ghost image of an `ObjectReceiveJob`.
pub struct RecvJobV {
    pub object: ObjectV,
    pub abort: bool,
    pub ack_req: ChunkId,
}

impl View for ObjectReceiveJob {
    type V = RecvJobV;

    open spec fn view(&self) -> RecvJobV {
        RecvJobV { object: self.object@, abort: self.abort, ack_req: self.ack_req }
    }
}

// ---------------------------------------------------------------------------
// The frame-count law for the sending side: an object whose field lengths
// sum to n travels in exactly 1 + n frames, the header plus one per chunk.

/// Frames still to emit by a job, the frame for `next_chunk` included.
pub open spec fn frames_remaining(j: SendJobV) -> int {
    sum_lengths(j.object.fields) - j.next_chunk
}

/// A fresh job (header not yet sent) has exactly 1 + sum of the field
/// lengths frames to emit; each emitted frame advances `next_chunk` by one
/// and so lowers `frames_remaining` by one, and a job with no frames left
/// reports no next chunk.
pub proof fn lemma_object_frame_count(j: SendJobV)
    requires
        wf_send_job(j),
        j.next_chunk == -1,
    ensures
        frames_remaining(j) == 1 + sum_lengths(j.object.fields),
        forall|k: SendJobV|
            wf_send_job(k) && k.object == j.object && frames_remaining(k) == 0 ==> !(
            #[trigger] k.next_chunk < sum_lengths(k.object.fields) - 1),
{
}

} // verus!
