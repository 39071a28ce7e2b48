use vstd::prelude::*;
use sha3::Digest;
use std::collections::HashSet;
use crate::app_frame::{FileContent, FileMetadata, MetadataEntryType, MetadataEntryV};
use crate::frame::{ChunkId, ObjectFieldDescription};
use crate::spec_num_chunks;

verus! {

// ---------------------------------------------------------------------------
// The SHA3-512 digest, named

/// The SHA3-512 digest of a byte sequence. The digest is a function of the
/// bytes alone; its value is given by the outside implementation.
pub uninterp spec fn sha3_512_of(s: Seq<u8>) -> Seq<u8>;

/// Relies on sha3::Sha3_512 via the digest interface: the 64-byte SHA3-512
/// digest of the input, a function of the input bytes alone.
#[verifier::external_body]
pub fn sha3_512(data: &Vec<u8>) -> (r: Vec<u8>)
    ensures
        r@ == sha3_512_of(data@),
        r@.len() == 64,
{
    let mut hasher = sha3::Sha3_512::new();
    hasher.update(data.as_slice());
    hasher.finalize().to_vec()
}

// ---------------------------------------------------------------------------
// FileSendState

/// State while sending a file via a file response: the source bytes stand
/// in for the open file handle of a disk-backed sender.
#[derive(Debug)]
pub struct FileSendState {
    /// The file's bytes.
    pub data: Vec<u8>,
    pub num_content_chunks: u64,
    /// The path the peer asked for.
    pub path: Vec<u8>,
    /// The basename announced in metadata.
    pub name: Vec<u8>,
    /// The SHA3-512 digest announced in metadata.
    pub sha3: Vec<u8>,
}

/// Ghost image of a `FileSendState`.
pub struct FileSendStateV {
    pub data: Seq<u8>,
    pub num_content_chunks: u64,
    pub path: Seq<u8>,
    pub name: Seq<u8>,
    pub sha3: Seq<u8>,
}

impl View for FileSendState {
    type V = FileSendStateV;

    open spec fn view(&self) -> FileSendStateV {
        FileSendStateV {
            data: self.data@,
            num_content_chunks: self.num_content_chunks,
            path: self.path@,
            name: self.name@,
            sha3: self.sha3@,
        }
    }
}

/// The chunk count matches the data, the name fits a metadata entry, and
/// the digest has SHA3-512 width.
pub open spec fn wf_file_send_state(st: FileSendStateV) -> bool {
    &&& st.num_content_chunks == spec_num_chunks(st.data.len() as u64)
    &&& st.data.len() <= u64::MAX
    &&& st.name.len() <= 255
    &&& st.sha3.len() == 64
}

// ---------------------------------------------------------------------------
// FileRecvState

/// An all-zero byte run, standing for freshly allocated file space.
pub open spec fn zeros(n: int) -> Seq<u8> {
    Seq::new(n as nat, |i: int| 0u8)
}

/// Truncating or zero-extending a buffer to length `n`, as setting a
/// file's length does.
pub open spec fn resize_bytes(d: Seq<u8>, n: int) -> Seq<u8> {
    if n <= d.len() {
        d.take(n)
    } else {
        d + zeros(n - d.len())
    }
}

/// Writing `content` into `d` at offset `off`, extending `d` if the write
/// runs past its end: seek-and-write file semantics.
pub open spec fn write_at(d: Seq<u8>, off: int, content: Seq<u8>) -> Seq<u8> {
    Seq::new(
        (if off + content.len() > d.len() {
            off + content.len()
        } else {
            d.len() as int
        }) as nat,
        |i: int|
            if off <= i < off + content.len() {
                content[i - off]
            } else if i < d.len() {
                d[i]
            } else {
                0u8
            },
    )
}

/// The chunk ids `0 .. n`, all initially missing.
pub open spec fn missing_all(n: int) -> Set<i64> {
    Set::new(|c: i64| 0 <= c < n)
}

/// State while receiving a file via a file response: the output buffer
/// stands for the created file.
#[derive(Debug)]
pub struct FileRecvState {
    /// The announced file name; empty until the metadata arrives.
    pub name: Vec<u8>,
    pub size: u64,
    /// The announced SHA3-512 digest; empty until the metadata arrives.
    pub sha3: Vec<u8>,
    /// The reassembled bytes; present once the file name arrived.
    pub device: Option<Vec<u8>>,
    pub missing_chunks: HashSet<ChunkId>,
    pub num_chunks: u64,
    pub recv_until: ChunkId,
    pub header_received: bool,
}

/// Ghost image of a `FileRecvState`.
pub struct FileRecvStateV {
    pub name: Seq<u8>,
    pub size: u64,
    pub sha3: Seq<u8>,
    pub device: Option<Seq<u8>>,
    pub missing_chunks: Set<i64>,
    pub num_chunks: u64,
    pub recv_until: i64,
    pub header_received: bool,
}

impl View for FileRecvState {
    type V = FileRecvStateV;

    open spec fn view(&self) -> FileRecvStateV {
        FileRecvStateV {
            name: self.name@,
            size: self.size,
            sha3: self.sha3@,
            device: match &self.device {
                Some(d) => Some(d@),
                None => None,
            },
            missing_chunks: self.missing_chunks@,
            num_chunks: self.num_chunks,
            recv_until: self.recv_until,
            header_received: self.header_received,
        }
    }
}

/// The missing set tracks chunk indices of the announced count, and the
/// count matches the announced size.
pub open spec fn wf_file_recv_state(f: FileRecvStateV) -> bool {
    &&& f.missing_chunks.finite()
    &&& forall|c: i64| f.missing_chunks.contains(c) ==> 0 <= c < f.num_chunks
    &&& f.num_chunks == crate::spec_num_chunks(f.size)
    &&& f.size <= usize::MAX
}

/// Reception is complete: the header arrived and no chunk is missing.
pub open spec fn spec_done(f: FileRecvStateV) -> bool {
    f.header_received && f.missing_chunks.is_empty()
}

/// The effect of one metadata entry on the reception state: a repeated
/// or malformed entry is skipped.
pub open spec fn metadata_entry_step(f: FileRecvStateV, e: MetadataEntryV) -> FileRecvStateV {
    if e.code == MetadataEntryType::FileName {
        if f.name.len() > 0 {
            f
        } else if !crate::utf8::is_utf8(e.content) {
            f
        } else {
            FileRecvStateV { name: e.content, device: Some(zeros(f.size as int)), ..f }
        }
    } else if e.code == MetadataEntryType::FileSize {
        if f.size > 0 {
            f
        } else if e.content.len() < 8 {
            f
        } else {
            let size = crate::bytes::dec_u64_val(e.content, 0);
            if size > usize::MAX as u64 {
                f
            } else {
                FileRecvStateV {
                    size,
                    num_chunks: crate::spec_num_chunks(size) as u64,
                    missing_chunks: missing_all(crate::spec_num_chunks(size)),
                    device: match f.device {
                        Some(d) => Some(resize_bytes(d, size as int)),
                        None => None,
                    },
                    ..f
                }
            }
        }
    } else if e.code == MetadataEntryType::Sha3 {
        if f.sha3.len() > 0 {
            f
        } else if e.content.len() != 64 {
            f
        } else {
            FileRecvStateV { sha3: e.content, ..f }
        }
    } else {
        f
    }
}

/// The effect of a whole metadata record, entry by entry.
pub open spec fn metadata_fold(f: FileRecvStateV, entries: Seq<MetadataEntryV>) -> FileRecvStateV
    decreases entries.len(),
{
    if entries.len() == 0 {
        f
    } else {
        metadata_fold(metadata_entry_step(f, entries[0]), entries.skip(1))
    }
}

/// The full effect of `notify_metadata`: all entries, then the
/// header-received mark.
pub open spec fn metadata_step(f: FileRecvStateV, entries: Seq<MetadataEntryV>) -> FileRecvStateV {
    FileRecvStateV { header_received: true, ..metadata_fold(f, entries) }
}

pub proof fn lemma_metadata_fold_push(
    f: FileRecvStateV,
    entries: Seq<MetadataEntryV>,
    e: MetadataEntryV,
)
    ensures
        metadata_fold(f, entries.push(e)) == metadata_entry_step(metadata_fold(f, entries), e),
    decreases entries.len(),
{
    let p = entries.push(e);
    assert(p.len() == entries.len() + 1);
    assert(metadata_fold(f, p) == metadata_fold(metadata_entry_step(f, p[0]), p.skip(1)));
    if entries.len() == 0 {
        assert(p[0] == e);
        assert(p.skip(1) =~= Seq::<MetadataEntryV>::empty());
        assert(metadata_fold(metadata_entry_step(f, e), p.skip(1)) == metadata_entry_step(f, e));
        assert(metadata_fold(f, entries) == f);
    } else {
        assert(p[0] == entries[0]);
        assert(p.skip(1) =~= entries.skip(1).push(e));
        lemma_metadata_fold_push(metadata_entry_step(f, entries[0]), entries.skip(1), e);
        assert(metadata_fold(f, entries) == metadata_fold(
            metadata_entry_step(f, entries[0]),
            entries.skip(1),
        ));
    }
}

/// One metadata entry preserves validity.
pub proof fn lemma_metadata_entry_step_wf(f: FileRecvStateV, e: MetadataEntryV)
    requires
        wf_file_recv_state(f),
    ensures
        wf_file_recv_state(metadata_entry_step(f, e)),
{
    if e.code == MetadataEntryType::FileSize && f.size == 0 && e.content.len() >= 8 {
        let size = crate::bytes::dec_u64_val(e.content, 0);
        if size <= usize::MAX as u64 {
            let n = crate::spec_num_chunks(size);
            crate::lemma_spec_num_chunks(size);
            lemma_missing_all_len(n);
            assert forall|c: i64| missing_all(n).contains(c) implies 0 <= c < n as u64 by {}
        }
    }
}

/// The number of metadata chunks declared for a file response: the length
/// of the first field of metadata type, or zero when absent.
pub open spec fn metadata_chunks_of(fields: Seq<ObjectFieldDescription>) -> i64
    decreases fields.len(),
{
    if fields.len() == 0 {
        0
    } else if fields[0].field_type == 0x22 {
        fields[0].length
    } else {
        metadata_chunks_of(fields.skip(1))
    }
}

/// The effect of one content chunk, and whether it was accepted: file
/// handle present, transfer not yet done, chunk still missing; then the
/// bytes are written at the chunk's offset and, on the final chunk index,
/// the stored digest is compared against the digest of the assembled
/// bytes.
pub open spec fn content_step(
    f: FileRecvStateV,
    content: Seq<u8>,
    chunk_id: i64,
    fields: Seq<ObjectFieldDescription>,
) -> (FileRecvStateV, bool) {
    if f.device is None {
        (f, false)
    } else if spec_done(f) {
        (f, false)
    } else {
        let idx = chunk_id - metadata_chunks_of(fields);
        if idx < i64::MIN || idx > i64::MAX {
            (f, false)
        } else if !f.missing_chunks.contains(idx as i64) {
            (f, false)
        } else if 512 * idx + content.len() > usize::MAX {
            (f, false)
        } else {
            let d2 = write_at(f.device->Some_0, 512 * idx, content);
            let f2 = FileRecvStateV {
                missing_chunks: f.missing_chunks.remove(idx as i64),
                device: Some(d2),
                ..f
            };
            if idx + 1 == f.num_chunks {
                (f2, f.sha3 == sha3_512_of(d2))
            } else {
                (f2, true)
            }
        }
    }
}

impl FileRecvState {
    /// A fresh reception state with nothing announced yet.
    pub fn new() -> (r: FileRecvState)
        ensures
            r@.name.len() == 0,
            r@.size == 0,
            r@.sha3.len() == 0,
            r@.device is None,
            r@.missing_chunks == Set::<i64>::empty(),
            r@.num_chunks == 0,
            r@.recv_until == -1,
            r@.header_received == false,
            wf_file_recv_state(r@),
    {
        let r = FileRecvState {
            name: Vec::new(),
            size: 0,
            sha3: Vec::new(),
            device: None,
            missing_chunks: HashSet::new(),
            num_chunks: 0,
            recv_until: -1,
            header_received: false,
        };
        proof {
            assert(r@.missing_chunks =~= Set::<i64>::empty());
        }
        r
    }

    pub fn done(&self) -> (r: bool)
        ensures
            r == spec_done(self@),
    {
        self.header_received && self.missing_chunks.is_empty()
    }

    /// Folds a metadata record into the state and marks the header as
    /// received.
    #[verifier::loop_isolation(false)]
    pub fn notify_metadata(&mut self, metadata: &FileMetadata) -> (res: Result<(), ()>)
        requires
            wf_file_recv_state(old(self)@),
        ensures
            final(self)@ == metadata_step(old(self)@, metadata@.metadata_entries),
            wf_file_recv_state(final(self)@),
            res is Ok,
    {
        let ghost entries = metadata@.metadata_entries;
        let ghost f0 = self@;
        let mut k: usize = 0;
        proof {
            assert(entries.subrange(0, 0) =~= Seq::<MetadataEntryV>::empty());
        }
        while k < metadata.metadata_entries.len()
            invariant
                k <= entries.len(),
                entries == metadata@.metadata_entries,
                entries.len() == metadata.metadata_entries@.len(),
                forall|j: int|
                    0 <= j < entries.len() ==> entries[j] == metadata.metadata_entries@[j]@,
                f0 == old(self)@,
                wf_file_recv_state(f0),
                self@ == metadata_fold(f0, entries.subrange(0, k as int)),
                wf_file_recv_state(self@),
            decreases entries.len() - k,
        {
            let ghost f_here = self@;
            let entry = &metadata.metadata_entries[k];
            match entry.code {
                MetadataEntryType::FileName => {
                    if self.name.len() == 0 && crate::utf8::is_valid_utf8(&entry.content) {
                        self.name = crate::bytes::copy_bytes(&entry.content);
                        let mut buf: Vec<u8> = Vec::new();
                        let mut z: usize = 0;
                        proof {
                            assert(f_here.size <= usize::MAX);
                        }
                        let size = self.size as usize;
                        while z < size
                            invariant
                                z <= size,
                                buf@.len() == z,
                                forall|j: int| 0 <= j < z ==> buf@[j] == 0u8,
                            decreases size - z,
                        {
                            buf.push(0);
                            z = z + 1;
                        }
                        proof {
                            assert(buf@ =~= zeros(size as int));
                        }
                        self.device = Some(buf);
                    }
                },
                MetadataEntryType::FileSize => {
                    if self.size == 0 && entry.content.len() >= 8 {
                        let c = &entry.content;
                        let size = ((c[0] as u64) << 56) | ((c[1] as u64) << 48) | ((c[2] as u64)
                            << 40) | ((c[3] as u64) << 32) | ((c[4] as u64) << 24) | ((c[5] as u64)
                            << 16) | ((c[6] as u64) << 8) | (c[7] as u64);
                        if size <= usize::MAX as u64 {
                            self.size = size;
                            let n = crate::num_chunks_for_size(size);
                            self.num_chunks = n;
                            let mut i: u64 = 0;
                            proof {
                                crate::lemma_spec_num_chunks(size);
                                assert forall|c: i64| self@.missing_chunks.contains(c) implies false by {
                                    assert(0 <= c < f_here.num_chunks);
                                }
                                assert(self@.missing_chunks =~= missing_all(0));
                            }
                            let ghost mid = self@;
                            proof {
                                assert(self@ == FileRecvStateV {
                                    missing_chunks: missing_all(0),
                                    ..mid
                                });
                            }
                            while i < n
                                invariant
                                    i <= n,
                                    512 * n <= size + 511,
                                    n == crate::spec_num_chunks(size),
                                    self@ == (FileRecvStateV {
                                        missing_chunks: missing_all(i as int),
                                        ..mid
                                    }),
                                decreases n - i,
                            {
                                self.missing_chunks.insert(i as i64);
                                proof {
                                    assert(missing_all(i as int).insert(i as i64) =~= missing_all(
                                        i as int + 1,
                                    ));
                                }
                                i = i + 1;
                            }
                            match &self.device {
                                Some(d) => {
                                    let mut buf: Vec<u8> = Vec::new();
                                    let target = size as usize;
                                    let mut z: usize = 0;
                                    while z < target
                                        invariant
                                            z <= target,
                                            target <= usize::MAX,
                                            buf@.len() == z,
                                            forall|j: int|
                                                0 <= j < z ==> buf@[j] == resize_bytes(
                                                    d@,
                                                    target as int,
                                                )[j],
                                        decreases target - z,
                                    {
                                        let b: u8 = if z < d.len() {
                                            d[z]
                                        } else {
                                            0
                                        };
                                        buf.push(b);
                                        z = z + 1;
                                    }
                                    proof {
                                        assert(buf@ =~= resize_bytes(d@, target as int));
                                    }
                                    self.device = Some(buf);
                                },
                                None => {},
                            }
                        }
                    }
                },
                MetadataEntryType::Sha3 => {
                    if self.sha3.len() == 0 && entry.content.len() == 64 {
                        self.sha3 = crate::bytes::copy_bytes(&entry.content);
                    }
                },
                _ => {},
            }
            proof {
                assert(entry@ == entries[k as int]);
                assert(self@ == metadata_entry_step(f_here, entries[k as int]));
                lemma_metadata_fold_push(f0, entries.subrange(0, k as int), entries[k as int]);
                assert(entries.subrange(0, k as int).push(entries[k as int]) =~= entries.subrange(
                    0,
                    k as int + 1,
                ));
                lemma_metadata_entry_step_wf(f_here, entries[k as int]);
            }
            k = k + 1;
        }
        proof {
            assert(entries.subrange(0, entries.len() as int) =~= entries);
        }
        self.header_received = true;
        Ok(())
    }

    /// Folds one content chunk into the state; the result reports whether
    /// the chunk was accepted and, on the final chunk, whether the digest
    /// matched.
    #[verifier::loop_isolation(false)]
    pub fn notify_content(
        &mut self,
        content: &FileContent,
        chunk_id: ChunkId,
        fields: &Vec<ObjectFieldDescription>,
    ) -> (res: Result<(), ()>)
        requires
            wf_file_recv_state(old(self)@),
            forall|k: int|
                0 <= k < fields@.len() ==> crate::frame::wf_field_description(#[trigger] fields@[k]),
        ensures
            final(self)@ == content_step(
                old(self)@,
                content@.content,
                chunk_id,
                fields@,
            ).0,
            res is Ok <==> content_step(old(self)@, content@.content, chunk_id, fields@).1,
            wf_file_recv_state(final(self)@),
    {
        let ghost f0 = self@;
        let ghost step = content_step(f0, content@.content, chunk_id, fields@);
        if self.device.is_none() {
            return Err(());
        }
        if self.done() {
            return Err(());
        }
        let m = metadata_chunks_exec(fields);
        proof {
            lemma_metadata_chunks_nonneg(fields@);
        }
        if chunk_id < m {
            proof {
                let idxg = chunk_id - m as int;
                if idxg >= i64::MIN {
                    assert(!f0.missing_chunks.contains(idxg as i64));
                }
            }
            return Err(());
        }
        let idx = chunk_id - m;
        if !self.missing_chunks.contains(&idx) {
            return Err(());
        }
        proof {
            assert(0 <= idx < f0.num_chunks);
            crate::lemma_spec_num_chunks(f0.size);
        }
        let off_u64 = (idx as u64) * 512;
        if off_u64 > usize::MAX as u64 || content.content.len() > usize::MAX - (off_u64 as usize) {
            proof {
                assert(512 * (idx as int) + content@.content.len() > usize::MAX);
            }
            return Err(());
        }
        let off = off_u64 as usize;
        self.missing_chunks.remove(&idx);
        let d = match &self.device {
            Some(d) => d,
            None => {
                proof {
                    assert(false);
                }
                return Err(());
            },
        };
        let clen = content.content.len();
        let target: usize = if off + clen > d.len() {
            off + clen
        } else {
            d.len()
        };
        let mut buf: Vec<u8> = Vec::new();
        let ghost d2 = write_at(d@, off as int, content@.content);
        let mut z: usize = 0;
        proof {
            assert(d2.len() == target);
        }
        while z < target
            invariant
                z <= target,
                target == d2.len(),
                d2 == write_at(d@, off as int, content@.content),
                off + clen <= usize::MAX,
                clen == content@.content.len(),
                d@.len() <= target,
                buf@.len() == z,
                forall|j: int| 0 <= j < z ==> buf@[j] == d2[j],
            decreases target - z,
        {
            let b: u8 = if off <= z && z < off + clen {
                content.content[z - off]
            } else if z < d.len() {
                d[z]
            } else {
                0
            };
            buf.push(b);
            z = z + 1;
        }
        proof {
            assert(buf@ =~= d2);
        }
        self.device = Some(buf);
        if idx >= 0 && (idx as u64) < u64::MAX && (idx as u64) + 1 == self.num_chunks {
            let recomputed = match &self.device {
                Some(d) => sha3_512(d),
                None => {
                    proof {
                        assert(false);
                    }
                    return Err(());
                },
            };
            if crate::state::bytes_eq(&self.sha3, &recomputed) {
                Ok(())
            } else {
                Err(())
            }
        } else {
            Ok(())
        }
    }
}

/// Compares two byte vectors.
pub fn bytes_eq(a: &Vec<u8>, b: &Vec<u8>) -> (r: bool)
    ensures
        r == (a@ == b@),
{
    if a.len() != b.len() {
        proof {
            assert(a@.len() != b@.len());
        }
        return false;
    }
    let mut k: usize = 0;
    while k < a.len()
        invariant
            k <= a@.len(),
            a@.len() == b@.len(),
            forall|j: int| 0 <= j < k ==> a@[j] == b@[j],
        decreases a@.len() - k,
    {
        if a[k] != b[k] {
            return false;
        }
        k = k + 1;
    }
    proof {
        assert(a@ =~= b@);
    }
    true
}

/// The declared metadata chunk count of a field list.
fn metadata_chunks_exec(fields: &Vec<ObjectFieldDescription>) -> (r: i64)
    ensures
        r == metadata_chunks_of(fields@),
{
    let mut k: usize = 0;
    proof {
        assert(fields@.skip(0) =~= fields@);
    }
    while k < fields.len()
        invariant
            k <= fields@.len(),
            metadata_chunks_of(fields@) == metadata_chunks_of(fields@.skip(k as int)),
        decreases fields@.len() - k,
    {
        let fd = fields[k];
        if fd.field_type == 0x22 {
            proof {
                assert(fields@.skip(k as int)[0] == fields@[k as int]);
            }
            return fd.length;
        }
        proof {
            assert(fields@.skip(k as int)[0] == fields@[k as int]);
            assert(fields@.skip(k as int).skip(1) =~= fields@.skip(k as int + 1));
        }
        k = k + 1;
    }
    proof {
        assert(fields@.skip(fields@.len() as int) =~= Seq::<ObjectFieldDescription>::empty());
    }
    0
}

/// A declared metadata chunk count of well-formed fields is nonnegative.
pub proof fn lemma_metadata_chunks_nonneg(fields: Seq<ObjectFieldDescription>)
    requires
        forall|k: int|
            0 <= k < fields.len() ==> crate::frame::wf_field_description(#[trigger] fields[k]),
    ensures
        metadata_chunks_of(fields) >= 0,
    decreases fields.len(),
{
    if fields.len() > 0 && fields[0].field_type != 0x22 {
        assert forall|k: int|
            0 <= k < fields.skip(1).len() implies crate::frame::wf_field_description(
            #[trigger] fields.skip(1)[k],
        ) by {
            assert(fields.skip(1)[k] == fields[k + 1]);
        }
        lemma_metadata_chunks_nonneg(fields.skip(1));
    }
}

// ---------------------------------------------------------------------------
// The receive-side laws

/// Re-delivery is a no-op: a content chunk whose translated id is no
/// longer missing leaves the state unchanged and is rejected.
pub proof fn lemma_redelivery_noop(
    f: FileRecvStateV,
    content: Seq<u8>,
    chunk_id: i64,
    fields: Seq<ObjectFieldDescription>,
)
    requires
        !f.missing_chunks.contains((chunk_id - metadata_chunks_of(fields)) as i64),
    ensures
        content_step(f, content, chunk_id, fields).0 == f,
        content_step(f, content, chunk_id, fields).1 == false,
{
}

/// Delivering the same chunk twice is idempotent: the second delivery of a
/// chunk id changes nothing.
pub proof fn lemma_redelivery_idempotent(
    f: FileRecvStateV,
    content: Seq<u8>,
    content2: Seq<u8>,
    chunk_id: i64,
    fields: Seq<ObjectFieldDescription>,
)
    requires
        content_step(f, content, chunk_id, fields).1,
    ensures
        ({
            let f1 = content_step(f, content, chunk_id, fields).0;
            content_step(f1, content2, chunk_id, fields).0 == f1
                && !content_step(f1, content2, chunk_id, fields).1
        }),
{
    let idx = chunk_id - metadata_chunks_of(fields);
    let f1 = content_step(f, content, chunk_id, fields).0;
    assert(!f1.missing_chunks.contains(idx as i64));
}

/// Only translated chunk ids inside `0 .. num_chunks` are ever accepted;
/// all other values are invalid. Together with the header travelling as
/// chunk -1, the meaningful signed chunk ids of a file response are -1 and
/// the content range.
pub proof fn lemma_chunk_id_range(
    f: FileRecvStateV,
    content: Seq<u8>,
    chunk_id: i64,
    fields: Seq<ObjectFieldDescription>,
)
    requires
        wf_file_recv_state(f),
        content_step(f, content, chunk_id, fields).1,
    ensures
        0 <= chunk_id - metadata_chunks_of(fields) < f.num_chunks,
{
}

/// An accepted chunk shrinks the missing set by exactly one element: after
/// the metadata announced `num_chunks` missing chunks, reception completes
/// after exactly `num_chunks` accepted content chunks, i.e. after
/// 1 + num_chunks frames counting the metadata chunk.
pub proof fn lemma_accept_shrinks_missing(
    f: FileRecvStateV,
    content: Seq<u8>,
    chunk_id: i64,
    fields: Seq<ObjectFieldDescription>,
)
    requires
        wf_file_recv_state(f),
        content_step(f, content, chunk_id, fields).0 != f || content_step(
            f,
            content,
            chunk_id,
            fields,
        ).1,
    ensures
        content_step(f, content, chunk_id, fields).0.missing_chunks.len()
            == f.missing_chunks.len() - 1,
{
    let idx = chunk_id - metadata_chunks_of(fields);
    assert(f.missing_chunks.contains(idx as i64));
    assert(f.missing_chunks.remove(idx as i64).len() == f.missing_chunks.len() - 1);
}

/// The missing set installed by the size metadata has exactly `num_chunks`
/// elements.
pub proof fn lemma_missing_all_len(n: int)
    requires
        0 <= n <= i64::MAX,
    ensures
        missing_all(n).finite(),
        missing_all(n).len() == n,
    decreases n,
{
    if n == 0 {
        assert(missing_all(0) =~= Set::<i64>::empty());
    } else {
        lemma_missing_all_len(n - 1);
        assert(missing_all(n - 1).insert((n - 1) as i64) =~= missing_all(n));
    }
}

/// When the final chunk index arrives, acceptance reports success exactly
/// when the stored digest equals the digest recomputed over the assembled
/// bytes: a transfer completes successfully only with a verified hash.
pub proof fn lemma_done_hash_verified(
    f: FileRecvStateV,
    content: Seq<u8>,
    chunk_id: i64,
    fields: Seq<ObjectFieldDescription>,
)
    requires
        wf_file_recv_state(f),
        f.device is Some,
        !spec_done(f),
        f.missing_chunks.contains((chunk_id - metadata_chunks_of(fields)) as i64),
        512 * (chunk_id - metadata_chunks_of(fields)) + content.len() <= usize::MAX,
        chunk_id - metadata_chunks_of(fields) + 1 == f.num_chunks,
    ensures
        ({
            let (f2, ok) = content_step(f, content, chunk_id, fields);
            ok <==> f.sha3 == sha3_512_of(f2.device->Some_0)
        }),
{
}


// ---------------------------------------------------------------------------
// ObjectRecvState and the state machine

/// Per-object reception state: file responses carry a file reception
/// record, every other inbound object is handled statelessly.
#[derive(Debug)]
pub enum ObjectRecvState {
    File(FileRecvState),
    Empty,
}

/// Ghost image of an `ObjectRecvState`.
pub enum ObjectRecvStateV {
    File(FileRecvStateV),
    Empty,
}

impl View for ObjectRecvState {
    type V = ObjectRecvStateV;

    open spec fn view(&self) -> ObjectRecvStateV {
        match self {
            ObjectRecvState::File(f) => ObjectRecvStateV::File(f@),
            ObjectRecvState::Empty => ObjectRecvStateV::Empty,
        }
    }
}

/// A fresh reception state: a file record for file responses, stateless
/// otherwise.
pub open spec fn spec_new_recv_state(obj_type: u8) -> ObjectRecvStateV {
    if obj_type == 0x11 {
        ObjectRecvStateV::File(
            FileRecvStateV {
                name: Seq::empty(),
                size: 0,
                sha3: Seq::empty(),
                device: None,
                missing_chunks: Set::empty(),
                num_chunks: 0,
                recv_until: -1i64,
                header_received: false,
            },
        )
    } else {
        ObjectRecvStateV::Empty
    }
}

impl ObjectRecvState {
    pub fn new(obj_type: u8) -> (r: Self)
        ensures
            r@ == spec_new_recv_state(obj_type),
            wf_recv_state(r@),
    {
        if obj_type == 0x11 {
            let f = FileRecvState::new();
            proof {
                assert(f@.name =~= Seq::<u8>::empty());
                assert(f@.sha3 =~= Seq::<u8>::empty());
                assert(f@.missing_chunks =~= Set::<i64>::empty());
            }
            ObjectRecvState::File(f)
        } else {
            ObjectRecvState::Empty
        }
    }
}

/// Validity of a reception state.
pub open spec fn wf_recv_state(st: ObjectRecvStateV) -> bool {
    match st {
        ObjectRecvStateV::File(f) => wf_file_recv_state(f),
        ObjectRecvStateV::Empty => true,
    }
}

/// One registered inbound object: its key, its advertised fields, and its
/// reception state.
#[derive(Debug)]
pub struct RecvEntry {
    pub object_type: u8,
    pub object_id: u64,
    pub fields: Vec<ObjectFieldDescription>,
    pub state: ObjectRecvState,
}

/// Ghost image of a `RecvEntry`.
pub struct RecvEntryV {
    pub object_type: u8,
    pub object_id: u64,
    pub fields: Seq<ObjectFieldDescription>,
    pub state: ObjectRecvStateV,
}

impl View for RecvEntry {
    type V = RecvEntryV;

    open spec fn view(&self) -> RecvEntryV {
        RecvEntryV {
            object_type: self.object_type,
            object_id: self.object_id,
            fields: self.fields@,
            state: self.state@,
        }
    }
}

pub open spec fn wf_recv_entry(e: RecvEntryV) -> bool {
    &&& wf_recv_state(e.state)
    &&& forall|k: int|
        0 <= k < e.fields.len() ==> crate::frame::wf_field_description(#[trigger] e.fields[k])
}

/// Startup and Connected behave alike; only Finished matters to the
/// driving loop.
#[derive(Clone, Copy, Debug, PartialEq, Eq, Structural)]
pub enum State {
    Startup,
    Connected,
    Finished,
}

/// Holds the application state of a client or server.
#[derive(Debug)]
pub struct StateMachine {
    pub state: State,
    pub next_object_id: u64,
    pub expected_files: Vec<Vec<u8>>,
    pub recv_state: Vec<RecvEntry>,
    pub send_job_outbox: Vec<crate::jobs::ObjectSendJob>,
}

/// Ghost image of a `StateMachine`.
pub struct StateMachineV {
    pub state: State,
    pub next_object_id: u64,
    pub expected_files: Seq<Seq<u8>>,
    pub recv_state: Seq<RecvEntryV>,
    pub send_job_outbox: Seq<crate::jobs::SendJobV>,
}

impl View for StateMachine {
    type V = StateMachineV;

    open spec fn view(&self) -> StateMachineV {
        StateMachineV {
            state: self.state,
            next_object_id: self.next_object_id,
            expected_files: self.expected_files@.map_values(|b: Vec<u8>| b@),
            recv_state: self.recv_state@.map_values(|e: RecvEntry| e@),
            send_job_outbox: self.send_job_outbox@.map_values(|j: crate::jobs::ObjectSendJob| j@),
        }
    }
}

pub open spec fn wf_state_machine(m: StateMachineV) -> bool {
    forall|k: int| 0 <= k < m.recv_state.len() ==> wf_recv_entry(#[trigger] m.recv_state[k])
}

/// How many registered file receptions are complete.
pub open spec fn count_done(entries: Seq<RecvEntryV>) -> int
    decreases entries.len(),
{
    if entries.len() == 0 {
        0
    } else {
        (match entries[0].state {
            ObjectRecvStateV::File(f) => if spec_done(f) {
                1int
            } else {
                0int
            },
            ObjectRecvStateV::Empty => 0int,
        }) + count_done(entries.skip(1))
    }
}

proof fn lemma_count_done_push(entries: Seq<RecvEntryV>, e: RecvEntryV)
    ensures
        count_done(entries.push(e)) == count_done(entries) + (match e.state {
            ObjectRecvStateV::File(f) => if spec_done(f) {
                1int
            } else {
                0int
            },
            ObjectRecvStateV::Empty => 0int,
        }),
    decreases entries.len(),
{
    let p = entries.push(e);
    assert(p.len() == entries.len() + 1);
    assert(count_done(p) == (match p[0].state {
        ObjectRecvStateV::File(f) => if spec_done(f) {
            1int
        } else {
            0int
        },
        ObjectRecvStateV::Empty => 0int,
    }) + count_done(p.skip(1)));
    if entries.len() == 0 {
        assert(p[0] == e);
        assert(p.skip(1) =~= Seq::<RecvEntryV>::empty());
        assert(count_done(p.skip(1)) == 0);
        assert(count_done(entries) == 0);
    } else {
        assert(p[0] == entries[0]);
        assert(p.skip(1) =~= entries.skip(1).push(e));
        lemma_count_done_push(entries.skip(1), e);
        assert(count_done(entries) == (match entries[0].state {
            ObjectRecvStateV::File(f) => if spec_done(f) {
                1int
            } else {
                0int
            },
            ObjectRecvStateV::Empty => 0int,
        }) + count_done(entries.skip(1)));
    }
}

/// Whether some registered entry carries the given object key.
pub open spec fn has_entry(entries: Seq<RecvEntryV>, t: u8, id: u64) -> bool {
    exists|j: int|
        0 <= j < entries.len() && (#[trigger] entries[j]).object_type == t && entries[j].object_id
            == id
}

/// The index of the first entry with the given key.
pub open spec fn entry_index(entries: Seq<RecvEntryV>, t: u8, id: u64) -> int
    decreases entries.len(),
{
    if entries.len() == 0 {
        0
    } else if entries[0].object_type == t && entries[0].object_id == id {
        0
    } else {
        1 + entry_index(entries.skip(1), t, id)
    }
}

proof fn lemma_entry_index(entries: Seq<RecvEntryV>, t: u8, id: u64)
    requires
        has_entry(entries, t, id),
    ensures
        0 <= entry_index(entries, t, id) < entries.len(),
        entries[entry_index(entries, t, id)].object_type == t,
        entries[entry_index(entries, t, id)].object_id == id,
        forall|j: int|
            0 <= j < entry_index(entries, t, id) ==> !((#[trigger] entries[j]).object_type == t
                && entries[j].object_id == id),
    decreases entries.len(),
{
    if entries.len() > 0 {
        if !(entries[0].object_type == t && entries[0].object_id == id) {
            let tail = entries.skip(1);
            assert(has_entry(tail, t, id)) by {
                let w = choose|j: int|
                    0 <= j < entries.len() && (#[trigger] entries[j]).object_type == t
                        && entries[j].object_id == id;
                assert(tail[w - 1] == entries[w]);
            }
            lemma_entry_index(tail, t, id);
            assert forall|j: int| 0 <= j < entry_index(entries, t, id) implies !((
            #[trigger] entries[j]).object_type == t && entries[j].object_id == id) by {
                if j > 0 {
                    assert(tail[j - 1] == entries[j]);
                }
            }
        }
    }
}

// ---------------------------------------------------------------------------
// Dispatch of inbound application TLVs

/// The dispatch table for one decoded application TLV against the
/// reception state of its object: the new state, whether the machine
/// finishes, and the paths of any file request to serve.
pub open spec fn app_dispatch(
    st: ObjectRecvStateV,
    t: crate::app_frame::AppTlvV,
    chunk_id: i64,
    fields: Seq<ObjectFieldDescription>,
) -> (ObjectRecvStateV, bool, Seq<Seq<u8>>) {
    match t {
        crate::app_frame::AppTlvV::FileMetadata(md) => match st {
            ObjectRecvStateV::File(f) => (
                ObjectRecvStateV::File(metadata_step(f, md.metadata_entries)),
                false,
                Seq::empty(),
            ),
            ObjectRecvStateV::Empty => (st, true, Seq::empty()),
        },
        crate::app_frame::AppTlvV::FileContent(c) => match st {
            ObjectRecvStateV::File(f) => (
                ObjectRecvStateV::File(content_step(f, c.content, chunk_id, fields).0),
                false,
                Seq::empty(),
            ),
            ObjectRecvStateV::Empty => (st, true, Seq::empty()),
        },
        crate::app_frame::AppTlvV::FileRequest(rq) => match st {
            ObjectRecvStateV::Empty => (st, false, rq.file_paths),
            ObjectRecvStateV::File(f) => (st, true, Seq::empty()),
        },
        _ => (st, true, Seq::empty()),
    }
}

/// The effect of one received chunk: its enclosed TLVs are parsed and
/// dispatched in order; a parse error stops the processing of the chunk.
pub open spec fn handle_chunk_fold(
    st: ObjectRecvStateV,
    machine: State,
    data: Seq<u8>,
    pos: int,
    n: nat,
    chunk_id: i64,
    fields: Seq<ObjectFieldDescription>,
) -> (ObjectRecvStateV, State, Seq<Seq<u8>>)
    decreases n,
{
    if n == 0 {
        (st, machine, Seq::empty())
    } else {
        match crate::app_frame::dec_app_tlv(data, pos) {
            Some((t, j)) => {
                let step = app_dispatch(st, t, chunk_id, fields);
                let m1 = if step.1 {
                    State::Finished
                } else {
                    machine
                };
                let rest = handle_chunk_fold(step.0, m1, data, j, (n - 1) as nat, chunk_id, fields);
                (rest.0, rest.1, step.2 + rest.2)
            },
            None => (st, machine, Seq::empty()),
        }
    }
}

impl StateMachine {
    pub fn new() -> (r: Self)
        ensures
            r@.state == State::Startup,
            r@.next_object_id == 0,
            r@.expected_files == Seq::<Seq<u8>>::empty(),
            r@.recv_state == Seq::<RecvEntryV>::empty(),
            r@.send_job_outbox == Seq::<crate::jobs::SendJobV>::empty(),
            wf_state_machine(r@),
    {
        let r = StateMachine {
            state: State::Startup,
            next_object_id: 0,
            expected_files: Vec::new(),
            recv_state: Vec::new(),
            send_job_outbox: Vec::new(),
        };
        proof {
            assert(r@.expected_files =~= Seq::<Seq<u8>>::empty());
            assert(r@.recv_state =~= Seq::<RecvEntryV>::empty());
            assert(r@.send_job_outbox =~= Seq::<crate::jobs::SendJobV>::empty());
        }
        r
    }

    /// The object id counter is monotone and starts handing out 1.
    pub fn get_next_object_id(&mut self) -> (r: u64)
        requires
            old(self).next_object_id < u64::MAX,
        ensures
            final(self).next_object_id == old(self).next_object_id + 1,
            r == final(self).next_object_id,
            final(self).state == old(self).state,
            final(self).expected_files@ == old(self).expected_files@,
            final(self).recv_state@ == old(self).recv_state@,
            final(self).send_job_outbox@ == old(self).send_job_outbox@,
    {
        self.next_object_id = self.next_object_id + 1;
        self.next_object_id
    }

    pub fn connected(&mut self)
        ensures
            final(self).state == State::Connected,
            final(self).next_object_id == old(self).next_object_id,
            final(self).expected_files@ == old(self).expected_files@,
            final(self).recv_state@ == old(self).recv_state@,
            final(self).send_job_outbox@ == old(self).send_job_outbox@,
    {
        self.state = State::Connected;
    }

    pub fn finished(&mut self)
        ensures
            final(self).state == State::Finished,
            final(self).next_object_id == old(self).next_object_id,
            final(self).expected_files@ == old(self).expected_files@,
            final(self).recv_state@ == old(self).recv_state@,
            final(self).send_job_outbox@ == old(self).send_job_outbox@,
    {
        self.state = State::Finished;
    }

    pub fn is_finished(&self) -> (r: bool)
        ensures
            r == (self@.state == State::Finished),
    {
        match self.state {
            State::Finished => true,
            _ => false,
        }
    }

    /// Whether every expected file has been fully received: the number of
    /// complete file receptions equals the number of requested files.
    pub fn all_files_received(&self) -> (r: bool)
        ensures
            r == (count_done(self@.recv_state) == self@.expected_files.len()),
    {
        let mut num: usize = 0;
        let mut k: usize = 0;
        proof {
            assert(self@.recv_state.subrange(0, 0) =~= Seq::<RecvEntryV>::empty());
        }
        while k < self.recv_state.len()
            invariant
                k <= self.recv_state@.len(),
                num <= k,
                num == count_done(self@.recv_state.subrange(0, k as int)),
            decreases self.recv_state@.len() - k,
        {
            let entry = &self.recv_state[k];
            let is_done = match &entry.state {
                ObjectRecvState::File(f) => f.done(),
                ObjectRecvState::Empty => false,
            };
            proof {
                lemma_count_done_push(
                    self@.recv_state.subrange(0, k as int),
                    self@.recv_state[k as int],
                );
                assert(self@.recv_state.subrange(0, k as int).push(self@.recv_state[k as int])
                    =~= self@.recv_state.subrange(0, k as int + 1));
            }
            if is_done {
                num = num + 1;
            }
            k = k + 1;
        }
        proof {
            assert(self@.recv_state.subrange(0, self@.recv_state.len() as int) =~= self@.recv_state);
        }
        num == self.expected_files.len()
    }

    /// Whether a reception record for the job's object key exists.
    pub fn has_recv_job(&self, recv_job: &crate::jobs::ObjectReceiveJob) -> (r: bool)
        ensures
            r == has_entry(
                self@.recv_state,
                recv_job@.object.object_type,
                recv_job@.object.object_id,
            ),
    {
        let t = recv_job.object.object_type;
        let id = recv_job.object.object_id;
        let mut k: usize = 0;
        while k < self.recv_state.len()
            invariant
                k <= self.recv_state@.len(),
                t == recv_job@.object.object_type,
                id == recv_job@.object.object_id,
                forall|j: int|
                    0 <= j < k ==> !((#[trigger] self@.recv_state[j]).object_type == t
                        && self@.recv_state[j].object_id == id),
            decreases self.recv_state@.len() - k,
        {
            let entry = &self.recv_state[k];
            if entry.object_type == t && entry.object_id == id {
                proof {
                    assert((#[trigger] self@.recv_state[k as int]).object_type == t
                        && self@.recv_state[k as int].object_id == id);
                }
                return true;
            }
            k = k + 1;
        }
        proof {
            assert(!has_entry(self@.recv_state, t, id));
        }
        false
    }

    /// Registers reception state for a newly announced object.
    pub fn push_recv_job(&mut self, recv_job: &crate::jobs::ObjectReceiveJob)
        requires
            wf_state_machine(old(self)@),
            forall|k: int|
                0 <= k < recv_job@.object.fields.len() ==> crate::frame::wf_field_description(
                    #[trigger] recv_job@.object.fields[k],
                ),
        ensures
            final(self)@.recv_state == old(self)@.recv_state.push(
                RecvEntryV {
                    object_type: recv_job@.object.object_type,
                    object_id: recv_job@.object.object_id,
                    fields: recv_job@.object.fields,
                    state: spec_new_recv_state(recv_job@.object.object_type),
                },
            ),
            final(self)@.state == old(self)@.state,
            final(self)@.next_object_id == old(self)@.next_object_id,
            final(self)@.expected_files == old(self)@.expected_files,
            final(self)@.send_job_outbox == old(self)@.send_job_outbox,
            wf_state_machine(final(self)@),
    {
        let entry = RecvEntry {
            object_type: recv_job.object.object_type,
            object_id: recv_job.object.object_id,
            fields: crate::jobs::copy_fields(&recv_job.object.fields),
            state: ObjectRecvState::new(recv_job.object.object_type),
        };
        self.recv_state.push(entry);
        proof {
            assert(final(self)@.recv_state =~= old(self)@.recv_state.push(
                RecvEntryV {
                    object_type: recv_job@.object.object_type,
                    object_id: recv_job@.object.object_id,
                    fields: recv_job@.object.fields,
                    state: spec_new_recv_state(recv_job@.object.object_type),
                },
            ));
            assert(final(self)@.expected_files =~= old(self)@.expected_files);
            assert(final(self)@.send_job_outbox =~= old(self)@.send_job_outbox);
        }
    }

    /// Takes the most recently queued send job out of the outbox.
    pub fn pop_new_send_job(&mut self) -> (r: Option<crate::jobs::ObjectSendJob>)
        ensures
            final(self)@.state == old(self)@.state,
            final(self)@.next_object_id == old(self)@.next_object_id,
            final(self)@.expected_files == old(self)@.expected_files,
            final(self)@.recv_state == old(self)@.recv_state,
            old(self)@.send_job_outbox.len() == 0 ==> r is None && final(self)@.send_job_outbox
                == old(self)@.send_job_outbox,
            old(self)@.send_job_outbox.len() > 0 ==> (r matches Some(j) && j@ == old(
                self,
            )@.send_job_outbox.last() && final(self)@.send_job_outbox
                == old(self)@.send_job_outbox.drop_last()),
    {
        let r = self.send_job_outbox.pop();
        proof {
            assert(final(self)@.expected_files =~= old(self)@.expected_files);
            assert(final(self)@.recv_state =~= old(self)@.recv_state);
            if old(self)@.send_job_outbox.len() > 0 {
                assert(final(self)@.send_job_outbox =~= old(self)@.send_job_outbox.drop_last());
            } else {
                assert(final(self)@.send_job_outbox =~= old(self)@.send_job_outbox);
            }
        }
        r
    }
}


// ---------------------------------------------------------------------------
// Building send jobs

/// The basename of a byte path: everything after the last slash.
pub open spec fn basename_cut(p: Seq<u8>) -> int
    decreases p.len(),
{
    if p.len() == 0 {
        0
    } else if p[p.len() - 1] == 47u8 {
        p.len() as int
    } else {
        basename_cut(p.drop_last())
    }
}

pub open spec fn spec_basename(p: Seq<u8>) -> Seq<u8> {
    p.subrange(basename_cut(p), p.len() as int)
}

proof fn lemma_basename_cut_bounds(p: Seq<u8>)
    ensures
        0 <= basename_cut(p) <= p.len(),
        forall|j: int| basename_cut(p) <= j < p.len() ==> p[j] != 47u8,
    decreases p.len(),
{
    if p.len() > 0 && p[p.len() - 1] != 47u8 {
        lemma_basename_cut_bounds(p.drop_last());
        assert(basename_cut(p) == basename_cut(p.drop_last()));
        assert forall|j: int| basename_cut(p) <= j < p.len() implies p[j] != 47u8 by {
            if j < p.len() - 1 {
                assert(p.drop_last()[j] == p[j]);
            }
        }
    }
}

/// The path component after the last slash, as created files are named by
/// their basename alone.
pub fn basename(path: &Vec<u8>) -> (r: Vec<u8>)
    ensures
        r@ == spec_basename(path@),
{
    let n = path.len();
    let mut k: usize = n;
    while k > 0
        invariant
            k <= n,
            n == path@.len(),
            forall|j: int| k <= j < n ==> path@[j] != 47u8,
        ensures
            k <= n,
            n == path@.len(),
            forall|j: int| k <= j < n ==> path@[j] != 47u8,
            k == 0 || path@[k - 1] == 47u8,
        decreases k,
    {
        if path[k - 1] == 47 {
            break;
        }
        k = k - 1;
    }
    proof {
        if k == 0 {
            lemma_basename_no_slash(path@);
        } else {
            lemma_basename_suffix(path@, k as int);
        }
        assert(basename_cut(path@) == k);
    }
    let cut = k;
    let mut out: Vec<u8> = Vec::new();
    let mut i: usize = cut;
    while i < n
        invariant
            cut <= i <= n,
            n == path@.len(),
            cut == basename_cut(path@),
            out@ == path@.subrange(cut as int, i as int),
        decreases n - i,
    {
        out.push(path[i]);
        assert(out@ =~= path@.subrange(cut as int, i as int + 1));
        i = i + 1;
    }
    proof {
        assert(out@ =~= spec_basename(path@));
    }
    out
}

/// If position `k - 1` holds a slash and nothing after it does, the cut is
/// exactly `k`.
proof fn lemma_basename_suffix(p: Seq<u8>, k: int)
    requires
        1 <= k <= p.len(),
        p[k - 1] == 47u8,
        forall|j: int| k <= j < p.len() ==> p[j] != 47u8,
    ensures
        basename_cut(p) == k,
    decreases p.len(),
{
    if p.len() == k {
    } else {
        assert(p[p.len() - 1] != 47u8);
        assert forall|j: int| k <= j < p.drop_last().len() implies p.drop_last()[j] != 47u8 by {
            assert(p.drop_last()[j] == p[j]);
        }
        assert(p.drop_last()[k - 1] == 47u8);
        lemma_basename_suffix(p.drop_last(), k);
    }
}

/// A path without any slash from `cut` on, where `cut` reached zero, has
/// cut zero.
proof fn lemma_basename_no_slash(p: Seq<u8>)
    requires
        forall|j: int| 0 <= j < p.len() ==> p[j] != 47u8,
    ensures
        basename_cut(p) == 0,
    decreases p.len(),
{
    if p.len() > 0 {
        assert forall|j: int| 0 <= j < p.drop_last().len() implies p.drop_last()[j] != 47u8 by {
            assert(p.drop_last()[j] == p[j]);
        }
        lemma_basename_no_slash(p.drop_last());
    }
}

impl StateMachine {
    /// Queues the file request for the given paths and remembers them as
    /// the expected files.
    pub fn push_file_request_job(&mut self, files: Vec<Vec<u8>>) -> (r: crate::jobs::ObjectSendJob)
        requires
            old(self).next_object_id < u64::MAX,
            crate::app_frame::wf_file_request(
                crate::app_frame::FileRequestV {
                    file_paths: files@.map_values(|b: Vec<u8>| b@),
                },
            ),
            crate::app_frame::enc_file_request(
                crate::app_frame::FileRequestV {
                    file_paths: files@.map_values(|b: Vec<u8>| b@),
                },
            ).len() <= 2046,
        ensures
            final(self)@.expected_files == files@.map_values(|b: Vec<u8>| b@),
            final(self)@.next_object_id == old(self)@.next_object_id + 1,
            final(self)@.state == old(self)@.state,
            final(self)@.recv_state == old(self)@.recv_state,
            final(self)@.send_job_outbox == old(self)@.send_job_outbox,
            r@.next_chunk == -1 && !r@.abort,
            r@.object.object_type == 0x10,
            r@.object.object_id == old(self)@.next_object_id + 1,
            r@.object.fields == seq![
                ObjectFieldDescription { field_type: 0x20, length: 1i64 },
            ],
            r@.source == crate::jobs::ChunkSourceV::Single(
                crate::app_frame::enc_file_request(
                    crate::app_frame::FileRequestV {
                        file_paths: files@.map_values(|b: Vec<u8>| b@),
                    },
                ),
            ),
            crate::jobs::wf_send_job(r@),
    {
        let ghost filesv = files@.map_values(|b: Vec<u8>| b@);
        let request = crate::app_frame::FileRequest { file_paths: files };
        let mut payload: Vec<u8> = Vec::new();
        request.write(&mut payload);
        let mut expected: Vec<Vec<u8>> = Vec::new();
        let mut k: usize = 0;
        proof {
            assert(expected@.map_values(|b: Vec<u8>| b@) =~= filesv.subrange(0, 0));
        }
        while k < request.file_paths.len()
            invariant
                k <= request.file_paths@.len(),
                request@.file_paths == filesv,
                expected@.map_values(|b: Vec<u8>| b@) == filesv.subrange(0, k as int),
            decreases request.file_paths@.len() - k,
        {
            let c = crate::bytes::copy_bytes(&request.file_paths[k]);
            proof {
                assert(filesv[k as int] == request.file_paths@[k as int]@);
                assert(c@ == filesv[k as int]);
            }
            let ghost pre = expected@;
            expected.push(c);
            proof {
                let m = expected@.map_values(|b: Vec<u8>| b@);
                assert(expected@ == pre.push(c));
                assert(pre.map_values(|b: Vec<u8>| b@).len() == pre.len());
                assert(pre.len() == k as int);
                assert(expected@.len() == k + 1);
                assert(m.len() == k + 1);
                assert forall|j: int|
                    0 <= j < k + 1 implies m[j] == filesv.subrange(0, k as int + 1)[j] by {
                    assert(m[j] == expected@[j]@);
                    if j < k {
                        assert(expected@[j] == pre[j]);
                        assert(pre.map_values(|b: Vec<u8>| b@)[j] == pre[j]@);
                    } else {
                        assert(expected@[j] == c);
                    }
                }
                assert(m =~= filesv.subrange(0, k as int + 1));
            }
            k = k + 1;
        }
        proof {
            assert(filesv.subrange(0, filesv.len() as int) =~~= filesv);
        }
        self.expected_files = expected;
        let id = self.get_next_object_id();
        let mut fields: Vec<ObjectFieldDescription> = Vec::new();
        fields.push(ObjectFieldDescription { field_type: 0x20, length: 1 });
        proof {
            assert(fields@ =~= seq![ObjectFieldDescription { field_type: 0x20, length: 1i64 }]);
        }
        let obj = crate::jobs::Object { object_type: 0x10, object_id: id, fields };
        let job = crate::jobs::ObjectSendJob::new(
            obj,
            crate::jobs::ChunkSource::Single(payload),
        );
        proof {
            assert(job@.object.fields =~= seq![
                ObjectFieldDescription { field_type: 0x20, length: 1i64 },
            ]);
            assert(crate::jobs::sum_lengths(job@.object.fields) == 1) by {
                let fs = job@.object.fields;
                assert(fs.len() == 1);
                assert(fs.skip(1) =~= Seq::<ObjectFieldDescription>::empty());
                assert(crate::jobs::sum_lengths(fs.skip(1)) == 0);
                assert(crate::jobs::sum_lengths(fs) == fs[0].length + crate::jobs::sum_lengths(
                    fs.skip(1),
                ));
                assert(fs[0].length == 1);
            }
            assert(final(self)@.expected_files =~~= filesv);
            assert(final(self)@.recv_state =~= old(self)@.recv_state);
            assert(final(self)@.send_job_outbox =~= old(self)@.send_job_outbox);
        }
        job
    }

    /// Queues one error report object carrying the given application
    /// error.
    pub fn push_error_send_job(&mut self, app_err: crate::app_frame::ApplicationError)
        requires
            old(self).next_object_id < u64::MAX,
            crate::app_frame::wf_application_error(app_err@),
            crate::app_frame::enc_application_error(app_err@).len() <= 2046,
        ensures
            final(self)@.next_object_id == old(self)@.next_object_id + 1,
            final(self)@.state == old(self)@.state,
            final(self)@.expected_files == old(self)@.expected_files,
            final(self)@.recv_state == old(self)@.recv_state,
            final(self)@.send_job_outbox.len() == old(self)@.send_job_outbox.len() + 1,
            final(self)@.send_job_outbox.drop_last() == old(self)@.send_job_outbox,
            ({
                let j = final(self)@.send_job_outbox.last();
                &&& j.next_chunk == -1 && !j.abort
                &&& j.object.object_type == 0x12
                &&& j.object.object_id == old(self)@.next_object_id + 1
                &&& j.object.fields == seq![
                    ObjectFieldDescription { field_type: 0x24, length: 1i64 },
                ]
                &&& j.source == crate::jobs::ChunkSourceV::Single(
                    crate::app_frame::enc_application_error(app_err@),
                )
                &&& crate::jobs::wf_send_job(j)
            }),
    {
        let mut payload: Vec<u8> = Vec::new();
        app_err.write(&mut payload);
        let id = self.get_next_object_id();
        let mut fields: Vec<ObjectFieldDescription> = Vec::new();
        fields.push(ObjectFieldDescription { field_type: 0x24, length: 1 });
        proof {
            assert(fields@ =~= seq![ObjectFieldDescription { field_type: 0x24, length: 1i64 }]);
        }
        let obj = crate::jobs::Object { object_type: 0x12, object_id: id, fields };
        let job = crate::jobs::ObjectSendJob::new(
            obj,
            crate::jobs::ChunkSource::Single(payload),
        );
        proof {
            assert(job@.object.fields =~= seq![
                ObjectFieldDescription { field_type: 0x24, length: 1i64 },
            ]);
            assert(crate::jobs::sum_lengths(job@.object.fields) == 1) by {
                let fs = job@.object.fields;
                assert(fs.len() == 1);
                assert(fs.skip(1) =~= Seq::<ObjectFieldDescription>::empty());
                assert(crate::jobs::sum_lengths(fs.skip(1)) == 0);
                assert(crate::jobs::sum_lengths(fs) == fs[0].length + crate::jobs::sum_lengths(
                    fs.skip(1),
                ));
                assert(fs[0].length == 1);
            }
        }
        self.send_job_outbox.push(job);
        proof {
            assert(final(self)@.expected_files =~= old(self)@.expected_files);
            assert(final(self)@.recv_state =~= old(self)@.recv_state);
            assert(final(self)@.send_job_outbox.drop_last() =~= old(self)@.send_job_outbox);
        }
    }

    /// Queues a file response for a path whose bytes the caller loaded, or
    /// an error report when loading failed. The metadata chunk announces
    /// the size, the basename and the SHA3-512 digest of the bytes.
    pub fn push_file_send_job(
        &mut self,
        path: Vec<u8>,
        content: Result<Vec<u8>, crate::app_frame::AppErrorCode>,
    )
        requires
            old(self).next_object_id < u64::MAX,
            spec_basename(path@).len() <= 255,
            content matches Err(code) ==> {
                &&& crate::app_frame::app_error_code_takes_paths(code)
                &&& crate::wire::wf_str(path@)
                &&& path@.len() + 64 <= 2046
            },
        ensures
            final(self)@.next_object_id == old(self)@.next_object_id + 1,
            final(self)@.state == old(self)@.state,
            final(self)@.expected_files == old(self)@.expected_files,
            final(self)@.recv_state == old(self)@.recv_state,
            final(self)@.send_job_outbox.len() == old(self)@.send_job_outbox.len() + 1,
            final(self)@.send_job_outbox.drop_last() == old(self)@.send_job_outbox,
            ({
                let j = final(self)@.send_job_outbox.last();
                match content {
                    Ok(data) => {
                        &&& j.object.object_type == 0x11
                        &&& j.object.object_id == old(self)@.next_object_id + 1
                        &&& j.next_chunk == -1 && !j.abort
                        &&& j.object.fields == seq![
                            ObjectFieldDescription { field_type: 0x22, length: 1i64 },
                            ObjectFieldDescription {
                                field_type: 0x23,
                                length: crate::spec_num_chunks(data@.len() as u64) as i64,
                            },
                        ]
                        &&& j.source matches crate::jobs::ChunkSourceV::FileResponse(st)
                            && st.data == data@ && st.path == path@ && st.name == spec_basename(
                            path@,
                        ) && st.sha3 == sha3_512_of(data@)
                        &&& crate::jobs::wf_send_job(j)
                    },
                    Err(code) => {
                        &&& j.object.object_type == 0x12
                        &&& j.source == crate::jobs::ChunkSourceV::Single(
                            crate::app_frame::enc_application_error(
                                crate::app_frame::ApplicationErrorV {
                                    error_code: code,
                                    error_data: crate::app_frame::AppErrorDataV::Paths(
                                        seq![path@],
                                    ),
                                },
                            ),
                        )
                        &&& crate::jobs::wf_send_job(j)
                    },
                }
            }),
    {
        match content {
            Ok(data) => {
                let name = basename(&path);
                let digest = sha3_512(&data);
                let n = crate::num_chunks_for_size(data.len() as u64);
                proof {
                    crate::lemma_spec_num_chunks(data@.len() as u64);
                }
                let send_state = FileSendState {
                    num_content_chunks: n,
                    data,
                    path,
                    name,
                    sha3: digest,
                };
                let id = self.get_next_object_id();
                let mut fields: Vec<ObjectFieldDescription> = Vec::new();
                fields.push(ObjectFieldDescription { field_type: 0x22, length: 1 });
                fields.push(ObjectFieldDescription { field_type: 0x23, length: n as i64 });
                proof {
                    assert(fields@ =~= seq![
                        ObjectFieldDescription { field_type: 0x22, length: 1i64 },
                        ObjectFieldDescription { field_type: 0x23, length: n as i64 },
                    ]);
                }
                let obj = crate::jobs::Object { object_type: 0x11, object_id: id, fields };
                let job = crate::jobs::ObjectSendJob::new(
                    obj,
                    crate::jobs::ChunkSource::FileResponse(send_state),
                );
                proof {
                    let fs = job@.object.fields;
                    assert(crate::jobs::sum_lengths(fs) == 1 + n) by {
                        assert(fs.len() == 2);
                        assert(fs.skip(1)[0] == fs[1]);
                        assert(fs.skip(1).len() == 1);
                        assert(fs.skip(1).skip(1) =~= Seq::<ObjectFieldDescription>::empty());
                        assert(crate::jobs::sum_lengths(fs.skip(1).skip(1)) == 0);
                        assert(crate::jobs::sum_lengths(fs.skip(1)) == fs[1].length
                            + crate::jobs::sum_lengths(fs.skip(1).skip(1)));
                        assert(crate::jobs::sum_lengths(fs) == fs[0].length
                            + crate::jobs::sum_lengths(fs.skip(1)));
                    }
                }
                self.send_job_outbox.push(job);
                proof {
                    assert(final(self)@.send_job_outbox.last().object.fields =~= seq![
                        ObjectFieldDescription { field_type: 0x22, length: 1i64 },
                        ObjectFieldDescription {
                            field_type: 0x23,
                            length: crate::spec_num_chunks(
                                final(self)@.send_job_outbox.last().source->FileResponse_0.data.len() as u64,
                            ) as i64,
                        },
                    ]);
                    assert(final(self)@.expected_files =~= old(self)@.expected_files);
                    assert(final(self)@.recv_state =~= old(self)@.recv_state);
                    assert(final(self)@.send_job_outbox.drop_last() =~= old(
                        self,
                    )@.send_job_outbox);
                }
            },
            Err(code) => {
                let mut paths: Vec<Vec<u8>> = Vec::new();
                paths.push(path);
                let err = crate::app_frame::ApplicationError {
                    error_code: code,
                    error_data: crate::app_frame::AppErrorData::Paths(paths),
                };
                proof {
                    let pv = err@.error_data->Paths_0;
                    assert(pv =~= seq![err.error_data->Paths_0@[0]@]);
                    assert(crate::app_frame::wf_application_error(err@)) by {
                        assert(crate::wire::enc_list(pv, crate::app_frame::str_enc())
                            == crate::app_frame::str_enc()(pv[0]) + crate::wire::enc_list(
                            pv.skip(1),
                            crate::app_frame::str_enc(),
                        ));
                        assert(pv.skip(1) =~= Seq::<Seq<u8>>::empty());
                        crate::bytes::lemma_enc_uleb_len(pv[0].len() as nat);
                    }
                    assert(crate::app_frame::enc_application_error(err@).len() <= 2046) by {
                        assert(crate::wire::enc_list(pv, crate::app_frame::str_enc())
                            == crate::app_frame::str_enc()(pv[0]) + crate::wire::enc_list(
                            pv.skip(1),
                            crate::app_frame::str_enc(),
                        ));
                        assert(pv.skip(1) =~= Seq::<Seq<u8>>::empty());
                        crate::bytes::lemma_enc_uleb_len(pv[0].len() as nat);
                    }
                }
                self.push_error_send_job(err);
            },
        }
    }
}


impl StateMachine {
    /// Dispatches one received chunk of an object: its enclosed application
    /// TLVs are parsed and folded into the object's reception state in
    /// order. Unexpected or error TLVs finish the machine; a file request
    /// is answered by returning the requested paths for the caller to load
    /// and queue.
    #[verifier::loop_isolation(false)]
    #[verifier::rlimit(100)]
    pub fn handle_chunk(
        &mut self,
        object_type: u8,
        object_id: u64,
        data: Vec<u8>,
        chunk_id: ChunkId,
        num_tlv: u8,
    ) -> (reqs: Vec<Vec<u8>>)
        requires
            wf_state_machine(old(self)@),
            has_entry(old(self)@.recv_state, object_type, object_id),
        ensures
            wf_state_machine(final(self)@),
            final(self)@.next_object_id == old(self)@.next_object_id,
            final(self)@.expected_files == old(self)@.expected_files,
            final(self)@.send_job_outbox == old(self)@.send_job_outbox,
            ({
                let at = entry_index(old(self)@.recv_state, object_type, object_id);
                let entry = old(self)@.recv_state[at];
                let folded = handle_chunk_fold(
                    entry.state,
                    old(self)@.state,
                    data@,
                    0,
                    num_tlv as nat,
                    chunk_id,
                    entry.fields,
                );
                &&& final(self)@.recv_state == old(self)@.recv_state.update(
                    at,
                    RecvEntryV { state: folded.0, ..entry },
                )
                &&& final(self)@.state == folded.1
                &&& reqs@.map_values(|b: Vec<u8>| b@) == folded.2
            }),
    {
        proof {
            lemma_entry_index(old(self)@.recv_state, object_type, object_id);
        }
        let ghost target = entry_index(old(self)@.recv_state, object_type, object_id);
        let n_entries = self.recv_state.len();
        let mut at: usize = 0;
        while at < n_entries && !(self.recv_state[at].object_type == object_type
            && self.recv_state[at].object_id == object_id)
            invariant
                at <= n_entries,
                n_entries == self.recv_state@.len(),
                forall|j: int|
                    0 <= j < at ==> !((#[trigger] self@.recv_state[j]).object_type == object_type
                        && self@.recv_state[j].object_id == object_id),
            decreases n_entries - at,
        {
            at = at + 1;
        }
        proof {
            if at == n_entries {
                assert(!has_entry(self@.recv_state, object_type, object_id));
                assert(false);
            }
            assert(self@.recv_state[at as int].object_type == object_type
                && self@.recv_state[at as int].object_id == object_id);
            if (at as int) < target {
                assert(!((self@.recv_state[at as int]).object_type == object_type
                    && self@.recv_state[at as int].object_id == object_id));
                assert(false);
            }
            if target < at as int {
                assert(!((self@.recv_state[target]).object_type == object_type
                    && self@.recv_state[target].object_id == object_id));
                assert(false);
            }
            assert(at as int == target);
        }
        let ghost at0 = at as int;
        let ghost entry0 = self@.recv_state[at0];
        let ghost m0 = self@.state;
        let mut entry = self.recv_state.remove(at);
        let ghost fieldsv = entry0.fields;
        let mut r = crate::bytes::Reader::new(data);
        let mut reqs: Vec<Vec<u8>> = Vec::new();
        let mut finished_flag = false;
        let mut failed = false;
        let mut k: u8 = 0;
        proof {
            assert(entry@ == entry0);
            assert(reqs@.map_values(|b: Vec<u8>| b@) =~= Seq::<Seq<u8>>::empty());
        }
        while k < num_tlv && !failed
            invariant
                k <= num_tlv,
                r.data@ == data@,
                entry@.object_type == entry0.object_type,
                entry@.object_id == entry0.object_id,
                entry@.fields == fieldsv,
                wf_recv_entry(entry@),
                !failed ==> handle_chunk_fold(
                    entry0.state,
                    m0,
                    data@,
                    0,
                    num_tlv as nat,
                    chunk_id,
                    fieldsv,
                ) == ({
                    let rest = handle_chunk_fold(
                        entry@.state,
                        if finished_flag {
                            State::Finished
                        } else {
                            m0
                        },
                        data@,
                        r.pos as int,
                        (num_tlv - k) as nat,
                        chunk_id,
                        fieldsv,
                    );
                    (rest.0, rest.1, reqs@.map_values(|b: Vec<u8>| b@) + rest.2)
                }),
                failed ==> handle_chunk_fold(
                    entry0.state,
                    m0,
                    data@,
                    0,
                    num_tlv as nat,
                    chunk_id,
                    fieldsv,
                ) == (entry@.state, (if finished_flag {
                    State::Finished
                } else {
                    m0
                }), reqs@.map_values(|b: Vec<u8>| b@)),
            decreases num_tlv - k, (if failed { 0int } else { 1int }),
        {
            let ghost pos_here = r.pos as int;
            let ghost n_left = (num_tlv - k) as nat;
            let ghost reqs_pre = reqs@.map_values(|b: Vec<u8>| b@);
            let ghost st_pre = entry@.state;
            let ghost fin_pre = finished_flag;
            match crate::app_frame::AppTlv::read(&mut r) {
                Ok(tlv) => {
                    let ghost tv = tlv@;
                    let ghost step = app_dispatch(st_pre, tv, chunk_id, fieldsv);
                    let st = entry.state;
                    match (tlv, st) {
                        (crate::app_frame::AppTlv::FileMetadata(md), ObjectRecvState::File(mut f)) => {
                            let outcome = f.notify_metadata(&md);
                            entry.state = ObjectRecvState::File(f);
                        },
                        (crate::app_frame::AppTlv::FileContent(c), ObjectRecvState::File(mut f)) => {
                            let outcome = f.notify_content(&c, chunk_id, &entry.fields);
                            entry.state = ObjectRecvState::File(f);
                        },
                        (crate::app_frame::AppTlv::ApplicationError(e), ObjectRecvState::Empty) => {
                            entry.state = ObjectRecvState::Empty;
                            finished_flag = true;
                        },
                        (crate::app_frame::AppTlv::FileRequest(rq), ObjectRecvState::Empty) => {
                            entry.state = ObjectRecvState::Empty;
                            let ghost rqv = rq@.file_paths;
                            let mut i: usize = 0;
                            proof {
                                assert(reqs@.map_values(|b: Vec<u8>| b@) =~= reqs_pre
                                    + rqv.subrange(0, 0));
                            }
                            while i < rq.file_paths.len()
                                invariant
                                    i <= rq.file_paths@.len(),
                                    rqv == rq@.file_paths,
                                    reqs@.map_values(|b: Vec<u8>| b@) == reqs_pre + rqv.subrange(
                                        0,
                                        i as int,
                                    ),
                                decreases rq.file_paths@.len() - i,
                            {
                                let c2 = crate::bytes::copy_bytes(&rq.file_paths[i]);
                                proof {
                                    assert(rqv[i as int] == rq.file_paths@[i as int]@);
                                }
                                let ghost pre2 = reqs@;
                                reqs.push(c2);
                                proof {
                                    let m2 = reqs@.map_values(|b: Vec<u8>| b@);
                                    assert(reqs@ == pre2.push(c2));
                                    assert(pre2.map_values(|b: Vec<u8>| b@).len() == pre2.len());
                                    assert(m2.len() == pre2.len() + 1);
                                    assert forall|j: int|
                                        0 <= j < m2.len() implies m2[j] == (reqs_pre + rqv.subrange(
                                        0,
                                        i as int + 1,
                                    ))[j] by {
                                        assert(m2[j] == reqs@[j]@);
                                        if j < pre2.len() {
                                            assert(reqs@[j] == pre2[j]);
                                            assert(pre2.map_values(|b: Vec<u8>| b@)[j] == pre2[j]@);
                                        } else {
                                            assert(reqs@[j] == c2);
                                        }
                                    }
                                    assert(m2 =~= reqs_pre + rqv.subrange(0, i as int + 1));
                                }
                                i = i + 1;
                            }
                            proof {
                                assert(rqv.subrange(0, rqv.len() as int) =~= rqv);
                            }
                        },
                        (t2, st2) => {
                            entry.state = st2;
                            finished_flag = true;
                        },
                    }
                    proof {
                        assert(entry@.state == step.0);
                        assert(finished_flag == (fin_pre || step.1));
                        assert(reqs@.map_values(|b: Vec<u8>| b@) =~~= reqs_pre + step.2);
                        let m_pre = if fin_pre {
                            State::Finished
                        } else {
                            m0
                        };
                        let m_next = if finished_flag {
                            State::Finished
                        } else {
                            m0
                        };
                        assert(handle_chunk_fold(st_pre, m_pre, data@, pos_here, n_left, chunk_id, fieldsv)
                            == ({
                            let rest = handle_chunk_fold(
                                step.0,
                                if step.1 {
                                    State::Finished
                                } else {
                                    m_pre
                                },
                                data@,
                                r.pos as int,
                                (n_left - 1) as nat,
                                chunk_id,
                                fieldsv,
                            );
                            (rest.0, rest.1, step.2 + rest.2)
                        }));
                        assert((if step.1 {
                            State::Finished
                        } else {
                            m_pre
                        }) == m_next);
                        assert forall|a: Seq<Seq<u8>>| reqs_pre + (step.2 + a) =~= (reqs_pre
                            + step.2) + a by {}
                    }
                    k = k + 1;
                },
                Err(e) => {
                    proof {
                        assert(crate::app_frame::dec_app_tlv(data@, pos_here) is None);
                        assert(handle_chunk_fold(
                            entry@.state,
                            if finished_flag {
                                State::Finished
                            } else {
                                m0
                            },
                            data@,
                            pos_here,
                            n_left,
                            chunk_id,
                            fieldsv,
                        ) == (entry@.state, (if finished_flag {
                            State::Finished
                        } else {
                            m0
                        }), Seq::<Seq<u8>>::empty()));
                        assert(reqs@.map_values(|b: Vec<u8>| b@) + Seq::<Seq<u8>>::empty()
                            =~= reqs@.map_values(|b: Vec<u8>| b@));
                    }
                    failed = true;
                },
            }
        }
        proof {
            if !failed {
                assert(handle_chunk_fold(
                    entry@.state,
                    if finished_flag {
                        State::Finished
                    } else {
                        m0
                    },
                    data@,
                    r.pos as int,
                    0,
                    chunk_id,
                    fieldsv,
                ) == (entry@.state, if finished_flag {
                    State::Finished
                } else {
                    m0
                }, Seq::<Seq<u8>>::empty()));
                assert(reqs@.map_values(|b: Vec<u8>| b@) + Seq::<Seq<u8>>::empty()
                    =~= reqs@.map_values(|b: Vec<u8>| b@));
            }
        }
        if finished_flag {
            self.state = State::Finished;
        }
        let ghost before_insert = self@.recv_state;
        self.recv_state.insert(at, entry);
        proof {
            assert(final(self)@.recv_state =~~= old(self)@.recv_state.update(
                at0,
                RecvEntryV { state: entry@.state, ..entry0 },
            ));
            assert(final(self)@.expected_files =~= old(self)@.expected_files);
            assert(final(self)@.send_job_outbox =~= old(self)@.send_job_outbox);
            assert forall|j: int|
                0 <= j < final(self)@.recv_state.len() implies wf_recv_entry(
                #[trigger] final(self)@.recv_state[j],
            ) by {
                if j != at0 {
                    assert(final(self)@.recv_state[j] == old(self)@.recv_state[j]);
                }
            }
        }
        reqs
    }
}


} // verus!
