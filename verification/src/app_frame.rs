use vstd::prelude::*;
use crate::bytes::{
    enc_u8, enc_u64, dec_u8, dec_u64, dec_bytes, lemma_concat_parts, lemma_dec_enc_u8,
    lemma_dec_enc_u64, write_u8, write_u64, Reader,
};
use crate::common::{ReadError, ReadErrorKind};
use crate::frame::{dec_tlv_at, lemma_dec_enc_pairs, pair_dec, pair_enc, read_pairs, ChunkId};
use crate::wire::{
    dec_list, dec_pair, dec_str, enc_list, enc_pair, enc_str, enc_tlv, lemma_dec_enc_list,
    lemma_dec_enc_str, lemma_dec_tlv_header, lemma_enc_list_push, lemma_sleb_len_i64, read_str,
    wf_str, write_str, write_tlv,
};

verus! {

// ---------------------------------------------------------------------------
// Application object and field types

pub type FileId = u64;

pub const APP_TLV_FILE_REQUEST: u8 = 0x20;

pub const APP_TLV_FILE_RESUME: u8 = 0x21;

pub const APP_TLV_FILE_METADATA: u8 = 0x22;

pub const APP_TLV_FILE_CONTENT: u8 = 0x23;

pub const APP_TLV_APPLICATION_ERROR: u8 = 0x24;

pub const APP_TLV_FILE_LIST_REQUEST: u8 = 0x25;

pub const APP_TLV_FILE_LIST_RESPONSE: u8 = 0x26;

/// The object types of the application layer.
#[derive(Clone, Copy, Debug, PartialEq, Eq, Structural)]
pub enum ObjectType {
    FileRequest,
    FileResponse,
    ErrorReport,
    FileListRequest,
    FileListResponse,
}

pub open spec fn object_type_code(t: ObjectType) -> u8 {
    match t {
        ObjectType::FileRequest => 0x10,
        ObjectType::FileResponse => 0x11,
        ObjectType::ErrorReport => 0x12,
        ObjectType::FileListRequest => 0x13,
        ObjectType::FileListResponse => 0x14,
    }
}

pub open spec fn object_type_from(b: u8) -> Option<ObjectType> {
    if b == 0x10 {
        Some(ObjectType::FileRequest)
    } else if b == 0x11 {
        Some(ObjectType::FileResponse)
    } else if b == 0x12 {
        Some(ObjectType::ErrorReport)
    } else if b == 0x13 {
        Some(ObjectType::FileListRequest)
    } else if b == 0x14 {
        Some(ObjectType::FileListResponse)
    } else {
        None
    }
}

impl ObjectType {
    pub fn to_u8(&self) -> (r: u8)
        ensures
            r == object_type_code(*self),
    {
        match self {
            ObjectType::FileRequest => 0x10,
            ObjectType::FileResponse => 0x11,
            ObjectType::ErrorReport => 0x12,
            ObjectType::FileListRequest => 0x13,
            ObjectType::FileListResponse => 0x14,
        }
    }

    pub fn from_u8(b: u8) -> (r: Option<ObjectType>)
        ensures
            r == object_type_from(b),
    {
        if b == 0x10 {
            Some(ObjectType::FileRequest)
        } else if b == 0x11 {
            Some(ObjectType::FileResponse)
        } else if b == 0x12 {
            Some(ObjectType::ErrorReport)
        } else if b == 0x13 {
            Some(ObjectType::FileListRequest)
        } else if b == 0x14 {
            Some(ObjectType::FileListResponse)
        } else {
            None
        }
    }
}

/// The field types an application object advertises in its header.
#[derive(Clone, Copy, Debug, PartialEq, Eq, Structural)]
pub enum ObjectFieldType {
    FileRequestSend,
    FileRequestResume,
    FileResponseMetadata,
    FileResponseContent,
    ErrorReportContent,
    FileListRequestContent,
    FileListResponseContent,
}

pub open spec fn object_field_type_code(t: ObjectFieldType) -> u8 {
    match t {
        ObjectFieldType::FileRequestSend => 0x20,
        ObjectFieldType::FileRequestResume => 0x21,
        ObjectFieldType::FileResponseMetadata => 0x22,
        ObjectFieldType::FileResponseContent => 0x23,
        ObjectFieldType::ErrorReportContent => 0x24,
        ObjectFieldType::FileListRequestContent => 0x25,
        ObjectFieldType::FileListResponseContent => 0x26,
    }
}

impl ObjectFieldType {
    pub fn to_u8(&self) -> (r: u8)
        ensures
            r == object_field_type_code(*self),
    {
        match self {
            ObjectFieldType::FileRequestSend => 0x20,
            ObjectFieldType::FileRequestResume => 0x21,
            ObjectFieldType::FileResponseMetadata => 0x22,
            ObjectFieldType::FileResponseContent => 0x23,
            ObjectFieldType::ErrorReportContent => 0x24,
            ObjectFieldType::FileListRequestContent => 0x25,
            ObjectFieldType::FileListResponseContent => 0x26,
        }
    }
}

/// The type codes of the application TLVs.
#[derive(Clone, Copy, Debug, PartialEq, Eq, Structural)]
pub enum AppTlvType {
    FileRequest,
    FileResume,
    FileMetadata,
    FileContent,
    ApplicationError,
    FileListRequest,
    FileListResponse,
}

pub open spec fn app_tlv_type_code(t: AppTlvType) -> u8 {
    match t {
        AppTlvType::FileRequest => 0x20,
        AppTlvType::FileResume => 0x21,
        AppTlvType::FileMetadata => 0x22,
        AppTlvType::FileContent => 0x23,
        AppTlvType::ApplicationError => 0x24,
        AppTlvType::FileListRequest => 0x25,
        AppTlvType::FileListResponse => 0x26,
    }
}

// ---------------------------------------------------------------------------
// Wire strings as lists

/// The element encoder for string runs.
pub open spec fn str_enc() -> spec_fn(Seq<u8>) -> Seq<u8> {
    |b: Seq<u8>| enc_str(b)
}

/// The element decoder for string runs.
pub open spec fn str_dec() -> spec_fn(Seq<u8>, int) -> Option<(Seq<u8>, int)> {
    |s: Seq<u8>, i: int| dec_str(s, i)
}

/// Reads `count` consecutive wire strings.
fn read_strs(r: &mut Reader, count: u8) -> (res: Result<Vec<Vec<u8>>, ReadError>)
    ensures
        final(r).data@ == old(r).data@,
        old(r).pos <= final(r).pos <= final(r).data@.len() || final(r).pos == old(r).pos,
        match dec_list(old(r).data@, old(r).pos as int, count as nat, str_dec()) {
            Some((v, j)) => res matches Ok(items) && items@.map_values(|b: Vec<u8>| b@) == v
                && final(r).pos == j,
            None => res is Err,
        },
{
    let ghost s = r.data@;
    let ghost pos0 = r.pos as int;
    let ghost g = str_dec();
    let mut items: Vec<Vec<u8>> = Vec::new();
    let mut k: u8 = 0;
    proof {
        if let Some((rest, e)) = dec_list(s, pos0, count as nat, g) {
            assert(Seq::<Seq<u8>>::empty() + rest =~= rest);
        }
        assert(items@.map_values(|b: Vec<u8>| b@) =~= Seq::<Seq<u8>>::empty());
    }
    while k < count
        invariant
            k <= count,
            r.data@ == s,
            s == old(r).data@,
            pos0 == old(r).pos as int,
            g == str_dec(),
            pos0 <= r.pos as int <= s.len() || r.pos as int == pos0,
            dec_list(s, pos0, count as nat, g) == (match dec_list(
                s,
                r.pos as int,
                (count - k) as nat,
                g,
            ) {
                Some((rest, e)) => Some((items@.map_values(|b: Vec<u8>| b@) + rest, e)),
                None => None::<(Seq<Seq<u8>>, int)>,
            }),
        decreases count - k,
    {
        let ghost pos_here = r.pos as int;
        let ghost n_left = (count - k) as nat;
        let b = match read_str(r) {
            Ok(v) => v,
            Err(e) => {
                proof {
                    assert(g(s, pos_here) == dec_str(s, pos_here));
                    assert(dec_list(s, pos_here, n_left, g) is None);
                }
                return Err(e);
            },
        };
        let ghost old_items = items@.map_values(|b2: Vec<u8>| b2@);
        items.push(b);
        proof {
            assert(g(s, pos_here) == dec_str(s, pos_here));
            assert(g(s, pos_here) == Some((b@, r.pos as int)));
            assert(items@.map_values(|b2: Vec<u8>| b2@) =~= old_items.push(b@));
            match dec_list(s, r.pos as int, (n_left - 1) as nat, g) {
                Some((rest, e)) => {
                    assert(dec_list(s, pos_here, n_left, g) == Some((seq![b@] + rest, e)));
                    assert(old_items + (seq![b@] + rest) =~= old_items.push(b@) + rest);
                },
                None => {
                    assert(dec_list(s, pos_here, n_left, g) is None);
                },
            }
        }
        k = k + 1;
    }
    proof {
        assert(dec_list(s, r.pos as int, 0, g) == Some((Seq::<Seq<u8>>::empty(), r.pos as int)));
        assert(items@.map_values(|b: Vec<u8>| b@) + Seq::<Seq<u8>>::empty() =~= items@.map_values(
            |b: Vec<u8>| b@,
        ));
    }
    Ok(items)
}

/// Appends each string of `paths` in order.
fn write_strs(out: &mut Vec<u8>, paths: &Vec<Vec<u8>>)
    ensures
        final(out)@ == old(out)@ + enc_list(paths@.map_values(|b: Vec<u8>| b@), str_enc()),
{
    let ghost view = paths@.map_values(|b: Vec<u8>| b@);
    let ghost prefix = out@;
    let mut k: usize = 0;
    while k < paths.len()
        invariant
            k <= paths@.len(),
            view == paths@.map_values(|b: Vec<u8>| b@),
            out@ == prefix + enc_list(view.subrange(0, k as int), str_enc()),
        decreases paths@.len() - k,
    {
        write_str(out, &paths[k]);
        proof {
            lemma_enc_list_push(view.subrange(0, k as int), view[k as int], str_enc());
            assert(view.subrange(0, k as int).push(view[k as int]) =~= view.subrange(
                0,
                k as int + 1,
            ));
            assert(out@ =~= prefix + enc_list(view.subrange(0, k as int + 1), str_enc()));
        }
        k = k + 1;
    }
    proof {
        assert(view.subrange(0, view.len() as int) =~= view);
    }
}

/// Instantiates the generic run round trip for string runs.
pub proof fn lemma_dec_enc_strs(s: Seq<u8>, i: int, items: Seq<Seq<u8>>)
    requires
        0 <= i,
        forall|k: int| 0 <= k < items.len() ==> wf_str(#[trigger] items[k]),
        i + enc_list(items, str_enc()).len() <= s.len(),
        s.subrange(i, i + enc_list(items, str_enc()).len()) == enc_list(items, str_enc()),
    ensures
        dec_list(s, i, items.len() as nat, str_dec()) == Some(
            (items, i + enc_list(items, str_enc()).len()),
        ),
{
    assert forall|v: Seq<u8>, j: int|
        #![trigger str_dec()(s, j), str_enc()(v)]
        wf_str(v) && 0 <= j && j + str_enc()(v).len() <= s.len() && s.subrange(
            j,
            j + str_enc()(v).len() as int,
        ) == str_enc()(v) implies str_dec()(s, j) == Some((v, j + str_enc()(v).len() as int)) by {
        lemma_dec_enc_str(s, j, v);
    }
    lemma_dec_enc_list(s, i, items, str_enc(), str_dec(), |v: Seq<u8>| wf_str(v));
}

// ---------------------------------------------------------------------------
// FileRequest

#[derive(Debug)]
pub struct FileRequest {
    /// Requested paths, as UTF-8 bytes.
    pub file_paths: Vec<Vec<u8>>,
}

/// Ghost image of a `FileRequest`.
pub struct FileRequestV {
    pub file_paths: Seq<Seq<u8>>,
}

impl View for FileRequest {
    type V = FileRequestV;

    open spec fn view(&self) -> FileRequestV {
        FileRequestV { file_paths: self.file_paths@.map_values(|b: Vec<u8>| b@) }
    }
}

pub open spec fn enc_file_request_body(v: FileRequestV) -> Seq<u8> {
    enc_u8(v.file_paths.len() as u8) + enc_list(v.file_paths, str_enc())
}

pub open spec fn wf_file_request(v: FileRequestV) -> bool {
    &&& v.file_paths.len() <= 255
    &&& forall|k: int| 0 <= k < v.file_paths.len() ==> wf_str(#[trigger] v.file_paths[k])
    &&& enc_file_request_body(v).len() <= 0xFFFF
}

pub open spec fn enc_file_request(v: FileRequestV) -> Seq<u8> {
    enc_tlv(APP_TLV_FILE_REQUEST, enc_file_request_body(v))
}

pub open spec fn dec_file_request(s: Seq<u8>, i: int) -> Option<(FileRequestV, int)> {
    match dec_tlv_at(s, i, APP_TLV_FILE_REQUEST) {
        Some((blen, i2)) => match dec_u8(s, i2) {
            Some((n, i3)) => match dec_list(s, i3, n as nat, str_dec()) {
                Some((paths, i4)) => if i4 - i2 == blen {
                    Some((FileRequestV { file_paths: paths }, i4))
                } else {
                    None
                },
                None => None,
            },
            None => None,
        },
        None => None,
    }
}

impl FileRequest {
    pub fn write(&self, out: &mut Vec<u8>)
        requires
            wf_file_request(self@),
        ensures
            final(out)@ == old(out)@ + enc_file_request(self@),
    {
        let mut body: Vec<u8> = Vec::new();
        write_u8(&mut body, self.file_paths.len() as u8);
        write_strs(&mut body, &self.file_paths);
        proof {
            assert(body@ =~= enc_file_request_body(self@));
        }
        write_tlv(out, APP_TLV_FILE_REQUEST, &body);
    }

    pub fn read(r: &mut Reader) -> (res: Result<FileRequest, ReadError>)
        ensures
            final(r).data@ == old(r).data@,
            old(r).pos <= final(r).pos <= final(r).data@.len() || final(r).pos == old(r).pos,
            match dec_file_request(old(r).data@, old(r).pos as int) {
                Some((v, j)) => res matches Ok(x) && x@ == v && final(r).pos == j,
                None => res is Err,
            },
    {
        let code = match r.read_u8() {
            Ok(v) => v,
            Err(e) => {
                return Err(e);
            },
        };
        if code != APP_TLV_FILE_REQUEST {
            return Err(ReadError::of_kind(ReadErrorKind::UnknownAppTlvType, "unexpected type byte"));
        }
        let blen = match r.read_u16() {
            Ok(v) => v,
            Err(e) => {
                return Err(e);
            },
        };
        let body_start = r.position();
        let n = match r.read_u8() {
            Ok(v) => v,
            Err(e) => {
                return Err(e);
            },
        };
        let paths = match read_strs(r, n) {
            Ok(v) => v,
            Err(e) => {
                return Err(e);
            },
        };
        let body_end = r.position();
        if body_end - body_start != blen as usize {
            return Err(ReadError::of_kind(ReadErrorKind::LengthMismatch, "length mismatch"));
        }
        Ok(FileRequest { file_paths: paths })
    }
}

pub proof fn lemma_dec_enc_file_request(s: Seq<u8>, i: int, v: FileRequestV)
    requires
        0 <= i,
        wf_file_request(v),
        i + enc_file_request(v).len() <= s.len(),
        s.subrange(i, i + enc_file_request(v).len()) == enc_file_request(v),
    ensures
        dec_file_request(s, i) == Some((v, i + enc_file_request(v).len())),
{
    let body = enc_file_request_body(v);
    lemma_dec_tlv_header(s, i, APP_TLV_FILE_REQUEST, body);
    let i2 = i + 3;
    let p1 = enc_u8(v.file_paths.len() as u8);
    let p2 = enc_list(v.file_paths, str_enc());
    lemma_concat_parts(s, i2, p1, p2);
    lemma_dec_enc_u8(s, i2, v.file_paths.len() as u8);
    lemma_dec_enc_strs(s, i2 + 1, v.file_paths);
}

// ---------------------------------------------------------------------------
// FileResume

#[derive(Debug)]
pub struct FileResume {
    pub file_ids_and_chunk_ids: Vec<(FileId, ChunkId)>,
}

/// Ghost image of a `FileResume`.
pub struct FileResumeV {
    pub file_ids_and_chunk_ids: Seq<(FileId, ChunkId)>,
}

impl View for FileResume {
    type V = FileResumeV;

    open spec fn view(&self) -> FileResumeV {
        FileResumeV { file_ids_and_chunk_ids: self.file_ids_and_chunk_ids@ }
    }
}

pub open spec fn wf_file_resume(v: FileResumeV) -> bool {
    v.file_ids_and_chunk_ids.len() <= 255
}

pub open spec fn enc_file_resume_body(v: FileResumeV) -> Seq<u8> {
    enc_u8(v.file_ids_and_chunk_ids.len() as u8) + enc_list(v.file_ids_and_chunk_ids, pair_enc())
}

pub open spec fn enc_file_resume(v: FileResumeV) -> Seq<u8> {
    enc_tlv(APP_TLV_FILE_RESUME, enc_file_resume_body(v))
}

pub open spec fn dec_file_resume(s: Seq<u8>, i: int) -> Option<(FileResumeV, int)> {
    match dec_tlv_at(s, i, APP_TLV_FILE_RESUME) {
        Some((blen, i2)) => match dec_u8(s, i2) {
            Some((n, i3)) => match dec_list(s, i3, n as nat, pair_dec()) {
                Some((items, i4)) => if i4 - i2 == blen {
                    Some((FileResumeV { file_ids_and_chunk_ids: items }, i4))
                } else {
                    None
                },
                None => None,
            },
            None => None,
        },
        None => None,
    }
}

impl FileResume {
    pub fn write(&self, out: &mut Vec<u8>)
        requires
            wf_file_resume(self@),
        ensures
            final(out)@ == old(out)@ + enc_file_resume(self@),
    {
        let mut body: Vec<u8> = Vec::new();
        write_u8(&mut body, self.file_ids_and_chunk_ids.len() as u8);
        let ghost prefix = body@;
        let mut k: usize = 0;
        while k < self.file_ids_and_chunk_ids.len()
            invariant
                k <= self.file_ids_and_chunk_ids@.len(),
                body@ == prefix + enc_list(
                    self.file_ids_and_chunk_ids@.subrange(0, k as int),
                    pair_enc(),
                ),
            decreases self.file_ids_and_chunk_ids@.len() - k,
        {
            let p = self.file_ids_and_chunk_ids[k];
            crate::wire::write_pair(&mut body, p.0, p.1);
            proof {
                lemma_enc_list_push(
                    self.file_ids_and_chunk_ids@.subrange(0, k as int),
                    self.file_ids_and_chunk_ids@[k as int],
                    pair_enc(),
                );
                assert(self.file_ids_and_chunk_ids@.subrange(0, k as int).push(
                    self.file_ids_and_chunk_ids@[k as int],
                ) =~= self.file_ids_and_chunk_ids@.subrange(0, k as int + 1));
                assert(body@ =~= prefix + enc_list(
                    self.file_ids_and_chunk_ids@.subrange(0, k as int + 1),
                    pair_enc(),
                ));
            }
            k = k + 1;
        }
        proof {
            assert(self.file_ids_and_chunk_ids@.subrange(
                0,
                self.file_ids_and_chunk_ids@.len() as int,
            ) =~= self.file_ids_and_chunk_ids@);
            crate::frame::lemma_pair_list_len_bound(self.file_ids_and_chunk_ids@);
            assert(body@ =~= enc_file_resume_body(self@));
        }
        write_tlv(out, APP_TLV_FILE_RESUME, &body);
    }

    pub fn read(r: &mut Reader) -> (res: Result<FileResume, ReadError>)
        ensures
            final(r).data@ == old(r).data@,
            old(r).pos <= final(r).pos <= final(r).data@.len() || final(r).pos == old(r).pos,
            match dec_file_resume(old(r).data@, old(r).pos as int) {
                Some((v, j)) => res matches Ok(x) && x@ == v && final(r).pos == j,
                None => res is Err,
            },
    {
        let code = match r.read_u8() {
            Ok(v) => v,
            Err(e) => {
                return Err(e);
            },
        };
        if code != APP_TLV_FILE_RESUME {
            return Err(ReadError::of_kind(ReadErrorKind::UnknownAppTlvType, "unexpected type byte"));
        }
        let blen = match r.read_u16() {
            Ok(v) => v,
            Err(e) => {
                return Err(e);
            },
        };
        let body_start = r.position();
        let n = match r.read_u8() {
            Ok(v) => v,
            Err(e) => {
                return Err(e);
            },
        };
        let items = match read_pairs(r, n) {
            Ok(v) => v,
            Err(e) => {
                return Err(e);
            },
        };
        let body_end = r.position();
        if body_end - body_start != blen as usize {
            return Err(ReadError::of_kind(ReadErrorKind::LengthMismatch, "length mismatch"));
        }
        Ok(FileResume { file_ids_and_chunk_ids: items })
    }
}

pub proof fn lemma_dec_enc_file_resume(s: Seq<u8>, i: int, v: FileResumeV)
    requires
        0 <= i,
        wf_file_resume(v),
        i + enc_file_resume(v).len() <= s.len(),
        s.subrange(i, i + enc_file_resume(v).len()) == enc_file_resume(v),
    ensures
        dec_file_resume(s, i) == Some((v, i + enc_file_resume(v).len())),
{
    let body = enc_file_resume_body(v);
    crate::frame::lemma_pair_list_len_bound(v.file_ids_and_chunk_ids);
    lemma_dec_tlv_header(s, i, APP_TLV_FILE_RESUME, body);
    let i2 = i + 3;
    let p1 = enc_u8(v.file_ids_and_chunk_ids.len() as u8);
    let p2 = enc_list(v.file_ids_and_chunk_ids, pair_enc());
    lemma_concat_parts(s, i2, p1, p2);
    lemma_dec_enc_u8(s, i2, v.file_ids_and_chunk_ids.len() as u8);
    lemma_dec_enc_pairs(s, i2 + 1, v.file_ids_and_chunk_ids);
}

// ---------------------------------------------------------------------------
// FileMetadata

#[derive(Clone, Copy, Debug, PartialEq, Eq, Structural)]
pub enum MetadataEntryType {
    Unspecified,
    FileName,
    FilePath,
    FileSize,
    NumChunks,
    Stat,
    Stat64,
    Crc,
    Md5,
    Sha0,
    Sha1,
    Sha2,
    Sha3,
}

pub open spec fn metadata_entry_type_code(t: MetadataEntryType) -> u8 {
    match t {
        MetadataEntryType::Unspecified => 0x00,
        MetadataEntryType::FileName => 0x01,
        MetadataEntryType::FilePath => 0x02,
        MetadataEntryType::FileSize => 0x03,
        MetadataEntryType::NumChunks => 0x04,
        MetadataEntryType::Stat => 0x05,
        MetadataEntryType::Stat64 => 0x06,
        MetadataEntryType::Crc => 0x10,
        MetadataEntryType::Md5 => 0x11,
        MetadataEntryType::Sha0 => 0x12,
        MetadataEntryType::Sha1 => 0x13,
        MetadataEntryType::Sha2 => 0x14,
        MetadataEntryType::Sha3 => 0x15,
    }
}

/// An unknown code falls back to the unspecified entry type.
pub open spec fn metadata_entry_type_from(b: u8) -> MetadataEntryType {
    if b == 0x01 {
        MetadataEntryType::FileName
    } else if b == 0x02 {
        MetadataEntryType::FilePath
    } else if b == 0x03 {
        MetadataEntryType::FileSize
    } else if b == 0x04 {
        MetadataEntryType::NumChunks
    } else if b == 0x05 {
        MetadataEntryType::Stat
    } else if b == 0x06 {
        MetadataEntryType::Stat64
    } else if b == 0x10 {
        MetadataEntryType::Crc
    } else if b == 0x11 {
        MetadataEntryType::Md5
    } else if b == 0x12 {
        MetadataEntryType::Sha0
    } else if b == 0x13 {
        MetadataEntryType::Sha1
    } else if b == 0x14 {
        MetadataEntryType::Sha2
    } else if b == 0x15 {
        MetadataEntryType::Sha3
    } else {
        MetadataEntryType::Unspecified
    }
}

impl MetadataEntryType {
    pub fn to_u8(&self) -> (r: u8)
        ensures
            r == metadata_entry_type_code(*self),
    {
        match self {
            MetadataEntryType::Unspecified => 0x00,
            MetadataEntryType::FileName => 0x01,
            MetadataEntryType::FilePath => 0x02,
            MetadataEntryType::FileSize => 0x03,
            MetadataEntryType::NumChunks => 0x04,
            MetadataEntryType::Stat => 0x05,
            MetadataEntryType::Stat64 => 0x06,
            MetadataEntryType::Crc => 0x10,
            MetadataEntryType::Md5 => 0x11,
            MetadataEntryType::Sha0 => 0x12,
            MetadataEntryType::Sha1 => 0x13,
            MetadataEntryType::Sha2 => 0x14,
            MetadataEntryType::Sha3 => 0x15,
        }
    }

    pub fn from_u8(b: u8) -> (r: MetadataEntryType)
        ensures
            r == metadata_entry_type_from(b),
    {
        if b == 0x01 {
            MetadataEntryType::FileName
        } else if b == 0x02 {
            MetadataEntryType::FilePath
        } else if b == 0x03 {
            MetadataEntryType::FileSize
        } else if b == 0x04 {
            MetadataEntryType::NumChunks
        } else if b == 0x05 {
            MetadataEntryType::Stat
        } else if b == 0x06 {
            MetadataEntryType::Stat64
        } else if b == 0x10 {
            MetadataEntryType::Crc
        } else if b == 0x11 {
            MetadataEntryType::Md5
        } else if b == 0x12 {
            MetadataEntryType::Sha0
        } else if b == 0x13 {
            MetadataEntryType::Sha1
        } else if b == 0x14 {
            MetadataEntryType::Sha2
        } else if b == 0x15 {
            MetadataEntryType::Sha3
        } else {
            MetadataEntryType::Unspecified
        }
    }
}

#[derive(Debug)]
pub struct MetadataEntry {
    pub code: MetadataEntryType,
    pub content: Vec<u8>,
}

/// Ghost image of a `MetadataEntry`.
pub struct MetadataEntryV {
    pub code: MetadataEntryType,
    pub content: Seq<u8>,
}

impl View for MetadataEntry {
    type V = MetadataEntryV;

    open spec fn view(&self) -> MetadataEntryV {
        MetadataEntryV { code: self.code, content: self.content@ }
    }
}

/// The content of one entry carries a one-byte length.
pub open spec fn wf_metadata_entry(e: MetadataEntryV) -> bool {
    &&& e.content.len() <= 255
    &&& metadata_entry_type_from(metadata_entry_type_code(e.code)) == e.code
}

pub open spec fn enc_metadata_entry(e: MetadataEntryV) -> Seq<u8> {
    enc_u8(metadata_entry_type_code(e.code)) + enc_u8(e.content.len() as u8) + e.content
}

pub open spec fn dec_metadata_entry(s: Seq<u8>, i: int) -> Option<(MetadataEntryV, int)> {
    match dec_u8(s, i) {
        Some((cb, i1)) => match dec_u8(s, i1) {
            Some((n, i2)) => match dec_bytes(s, i2, n as int) {
                Some((content, i3)) => Some(
                    (MetadataEntryV { code: metadata_entry_type_from(cb), content }, i3),
                ),
                None => None,
            },
            None => None,
        },
        None => None,
    }
}

/// The element encoder for metadata entry runs.
pub open spec fn metadata_entry_enc() -> spec_fn(MetadataEntryV) -> Seq<u8> {
    |e: MetadataEntryV| enc_metadata_entry(e)
}

/// The element decoder for metadata entry runs.
pub open spec fn metadata_entry_dec() -> spec_fn(Seq<u8>, int) -> Option<(MetadataEntryV, int)> {
    |s: Seq<u8>, i: int| dec_metadata_entry(s, i)
}

pub proof fn lemma_dec_enc_metadata_entry(s: Seq<u8>, i: int, e: MetadataEntryV)
    requires
        0 <= i,
        wf_metadata_entry(e),
        i + enc_metadata_entry(e).len() <= s.len(),
        s.subrange(i, i + enc_metadata_entry(e).len()) == enc_metadata_entry(e),
    ensures
        dec_metadata_entry(s, i) == Some((e, i + enc_metadata_entry(e).len())),
{
    let p1 = enc_u8(metadata_entry_type_code(e.code));
    let p2 = enc_u8(e.content.len() as u8);
    let p3 = e.content;
    lemma_concat_parts(s, i, p1 + p2, p3);
    lemma_concat_parts(s, i, p1, p2);
    lemma_dec_enc_u8(s, i, metadata_entry_type_code(e.code));
    lemma_dec_enc_u8(s, i + 1, e.content.len() as u8);
}

impl MetadataEntry {
    pub fn write(&self, out: &mut Vec<u8>)
        requires
            wf_metadata_entry(self@),
        ensures
            final(out)@ == old(out)@ + enc_metadata_entry(self@),
    {
        write_u8(out, self.code.to_u8());
        write_u8(out, self.content.len() as u8);
        let mut k: usize = 0;
        let ghost mid = out@;
        while k < self.content.len()
            invariant
                k <= self.content@.len(),
                out@ == mid + self.content@.subrange(0, k as int),
            decreases self.content@.len() - k,
        {
            out.push(self.content[k]);
            assert(out@ =~= mid + self.content@.subrange(0, k as int + 1));
            k = k + 1;
        }
        proof {
            assert(self.content@.subrange(0, self.content@.len() as int) =~= self.content@);
            assert(out@ =~= old(out)@ + enc_metadata_entry(self@));
        }
    }

    pub fn read(r: &mut Reader) -> (res: Result<MetadataEntry, ReadError>)
        ensures
            final(r).data@ == old(r).data@,
            old(r).pos <= final(r).pos <= final(r).data@.len() || final(r).pos == old(r).pos,
            match dec_metadata_entry(old(r).data@, old(r).pos as int) {
                Some((v, j)) => res matches Ok(x) && x@ == v && final(r).pos == j,
                None => res is Err,
            },
    {
        let cb = match r.read_u8() {
            Ok(v) => v,
            Err(e) => {
                return Err(e);
            },
        };
        let n = match r.read_u8() {
            Ok(v) => v,
            Err(e) => {
                return Err(e);
            },
        };
        let content = match r.read_bytes(n as usize) {
            Ok(v) => v,
            Err(e) => {
                return Err(e);
            },
        };
        Ok(MetadataEntry { code: MetadataEntryType::from_u8(cb), content })
    }
}

/// Reads `count` consecutive metadata entries.
fn read_metadata_entries(r: &mut Reader, count: u8) -> (res: Result<Vec<MetadataEntry>, ReadError>)
    ensures
        final(r).data@ == old(r).data@,
        old(r).pos <= final(r).pos <= final(r).data@.len() || final(r).pos == old(r).pos,
        match dec_list(old(r).data@, old(r).pos as int, count as nat, metadata_entry_dec()) {
            Some((v, j)) => res matches Ok(items) && items@.map_values(|e: MetadataEntry| e@) == v
                && final(r).pos == j,
            None => res is Err,
        },
{
    let ghost s = r.data@;
    let ghost pos0 = r.pos as int;
    let ghost g = metadata_entry_dec();
    let mut items: Vec<MetadataEntry> = Vec::new();
    let mut k: u8 = 0;
    proof {
        if let Some((rest, e)) = dec_list(s, pos0, count as nat, g) {
            assert(Seq::<MetadataEntryV>::empty() + rest =~= rest);
        }
        assert(items@.map_values(|e: MetadataEntry| e@) =~= Seq::<MetadataEntryV>::empty());
    }
    while k < count
        invariant
            k <= count,
            r.data@ == s,
            s == old(r).data@,
            pos0 == old(r).pos as int,
            g == metadata_entry_dec(),
            pos0 <= r.pos as int <= s.len() || r.pos as int == pos0,
            dec_list(s, pos0, count as nat, g) == (match dec_list(
                s,
                r.pos as int,
                (count - k) as nat,
                g,
            ) {
                Some((rest, e)) => Some((items@.map_values(|e2: MetadataEntry| e2@) + rest, e)),
                None => None::<(Seq<MetadataEntryV>, int)>,
            }),
        decreases count - k,
    {
        let ghost pos_here = r.pos as int;
        let ghost n_left = (count - k) as nat;
        let entry = match MetadataEntry::read(r) {
            Ok(v) => v,
            Err(e) => {
                proof {
                    assert(g(s, pos_here) == dec_metadata_entry(s, pos_here));
                    assert(dec_list(s, pos_here, n_left, g) is None);
                }
                return Err(e);
            },
        };
        let ghost old_items = items@.map_values(|e2: MetadataEntry| e2@);
        items.push(entry);
        proof {
            assert(g(s, pos_here) == dec_metadata_entry(s, pos_here));
            assert(g(s, pos_here) == Some((entry@, r.pos as int)));
            assert(items@.map_values(|e2: MetadataEntry| e2@) =~= old_items.push(entry@));
            match dec_list(s, r.pos as int, (n_left - 1) as nat, g) {
                Some((rest, e)) => {
                    assert(dec_list(s, pos_here, n_left, g) == Some((seq![entry@] + rest, e)));
                    assert(old_items + (seq![entry@] + rest) =~= old_items.push(entry@) + rest);
                },
                None => {
                    assert(dec_list(s, pos_here, n_left, g) is None);
                },
            }
        }
        k = k + 1;
    }
    proof {
        assert(dec_list(s, r.pos as int, 0, g) == Some(
            (Seq::<MetadataEntryV>::empty(), r.pos as int),
        ));
        assert(items@.map_values(|e: MetadataEntry| e@) + Seq::<MetadataEntryV>::empty()
            =~= items@.map_values(|e: MetadataEntry| e@));
    }
    Ok(items)
}

#[derive(Debug)]
pub struct FileMetadata {
    pub metadata_entries: Vec<MetadataEntry>,
}

/// Ghost image of a `FileMetadata`.
pub struct FileMetadataV {
    pub metadata_entries: Seq<MetadataEntryV>,
}

impl View for FileMetadata {
    type V = FileMetadataV;

    open spec fn view(&self) -> FileMetadataV {
        FileMetadataV { metadata_entries: self.metadata_entries@.map_values(|e: MetadataEntry| e@) }
    }
}

pub open spec fn wf_file_metadata(v: FileMetadataV) -> bool {
    &&& v.metadata_entries.len() <= 255
    &&& forall|k: int|
        0 <= k < v.metadata_entries.len() ==> wf_metadata_entry(#[trigger] v.metadata_entries[k])
    &&& enc_file_metadata_body(v).len() <= 0xFFFF
}

pub open spec fn enc_file_metadata_body(v: FileMetadataV) -> Seq<u8> {
    enc_u8(v.metadata_entries.len() as u8) + enc_list(v.metadata_entries, metadata_entry_enc())
}

pub open spec fn enc_file_metadata(v: FileMetadataV) -> Seq<u8> {
    enc_tlv(APP_TLV_FILE_METADATA, enc_file_metadata_body(v))
}

pub open spec fn dec_file_metadata(s: Seq<u8>, i: int) -> Option<(FileMetadataV, int)> {
    match dec_tlv_at(s, i, APP_TLV_FILE_METADATA) {
        Some((blen, i2)) => match dec_u8(s, i2) {
            Some((n, i3)) => match dec_list(s, i3, n as nat, metadata_entry_dec()) {
                Some((items, i4)) => if i4 - i2 == blen {
                    Some((FileMetadataV { metadata_entries: items }, i4))
                } else {
                    None
                },
                None => None,
            },
            None => None,
        },
        None => None,
    }
}

/// Each metadata entry encodes to at most 257 bytes, so a run of 255 fits
/// the 16-bit body length.
pub proof fn lemma_metadata_entries_len_bound(items: Seq<MetadataEntryV>)
    requires
        forall|k: int| 0 <= k < items.len() ==> wf_metadata_entry(#[trigger] items[k]),
    ensures
        enc_list(items, metadata_entry_enc()).len() <= items.len() * 257,
{
    assert forall|k: int| 0 <= k < items.len() implies (#[trigger] metadata_entry_enc()(
        items[k],
    )).len() <= 257 by {}
    crate::wire::lemma_enc_list_len_bound(items, metadata_entry_enc(), 257);
}

impl FileMetadata {
    pub fn write(&self, out: &mut Vec<u8>)
        requires
            wf_file_metadata(self@),
        ensures
            final(out)@ == old(out)@ + enc_file_metadata(self@),
    {
        let mut body: Vec<u8> = Vec::new();
        write_u8(&mut body, self.metadata_entries.len() as u8);
        let ghost view = self.metadata_entries@.map_values(|e: MetadataEntry| e@);
        let ghost prefix = body@;
        let mut k: usize = 0;
        while k < self.metadata_entries.len()
            invariant
                k <= self.metadata_entries@.len(),
                view == self.metadata_entries@.map_values(|e: MetadataEntry| e@),
                forall|j: int| 0 <= j < view.len() ==> wf_metadata_entry(#[trigger] view[j]),
                body@ == prefix + enc_list(view.subrange(0, k as int), metadata_entry_enc()),
            decreases self.metadata_entries@.len() - k,
        {
            self.metadata_entries[k].write(&mut body);
            proof {
                lemma_enc_list_push(view.subrange(0, k as int), view[k as int], metadata_entry_enc());
                assert(view.subrange(0, k as int).push(view[k as int]) =~= view.subrange(
                    0,
                    k as int + 1,
                ));
                assert(body@ =~= prefix + enc_list(
                    view.subrange(0, k as int + 1),
                    metadata_entry_enc(),
                ));
            }
            k = k + 1;
        }
        proof {
            assert(view.subrange(0, view.len() as int) =~= view);
            lemma_metadata_entries_len_bound(view);
            assert(body@ =~= enc_file_metadata_body(self@));
        }
        write_tlv(out, APP_TLV_FILE_METADATA, &body);
    }

    pub fn read(r: &mut Reader) -> (res: Result<FileMetadata, ReadError>)
        ensures
            final(r).data@ == old(r).data@,
            old(r).pos <= final(r).pos <= final(r).data@.len() || final(r).pos == old(r).pos,
            match dec_file_metadata(old(r).data@, old(r).pos as int) {
                Some((v, j)) => res matches Ok(x) && x@ == v && final(r).pos == j,
                None => res is Err,
            },
    {
        let code = match r.read_u8() {
            Ok(v) => v,
            Err(e) => {
                return Err(e);
            },
        };
        if code != APP_TLV_FILE_METADATA {
            return Err(ReadError::of_kind(ReadErrorKind::UnknownAppTlvType, "unexpected type byte"));
        }
        let blen = match r.read_u16() {
            Ok(v) => v,
            Err(e) => {
                return Err(e);
            },
        };
        let body_start = r.position();
        let n = match r.read_u8() {
            Ok(v) => v,
            Err(e) => {
                return Err(e);
            },
        };
        let items = match read_metadata_entries(r, n) {
            Ok(v) => v,
            Err(e) => {
                return Err(e);
            },
        };
        let body_end = r.position();
        if body_end - body_start != blen as usize {
            return Err(ReadError::of_kind(ReadErrorKind::LengthMismatch, "length mismatch"));
        }
        Ok(FileMetadata { metadata_entries: items })
    }
}

pub proof fn lemma_dec_enc_file_metadata(s: Seq<u8>, i: int, v: FileMetadataV)
    requires
        0 <= i,
        wf_file_metadata(v),
        i + enc_file_metadata(v).len() <= s.len(),
        s.subrange(i, i + enc_file_metadata(v).len()) == enc_file_metadata(v),
    ensures
        dec_file_metadata(s, i) == Some((v, i + enc_file_metadata(v).len())),
{
    let body = enc_file_metadata_body(v);
    lemma_metadata_entries_len_bound(v.metadata_entries);
    lemma_dec_tlv_header(s, i, APP_TLV_FILE_METADATA, body);
    let i2 = i + 3;
    let p1 = enc_u8(v.metadata_entries.len() as u8);
    let p2 = enc_list(v.metadata_entries, metadata_entry_enc());
    lemma_concat_parts(s, i2, p1, p2);
    lemma_dec_enc_u8(s, i2, v.metadata_entries.len() as u8);
    assert forall|e: MetadataEntryV, j: int|
        #![trigger metadata_entry_dec()(s, j), metadata_entry_enc()(e)]
        wf_metadata_entry(e) && 0 <= j && j + metadata_entry_enc()(e).len() <= s.len()
            && s.subrange(j, j + metadata_entry_enc()(e).len() as int) == metadata_entry_enc()(
            e,
        ) implies metadata_entry_dec()(s, j) == Some(
        (e, j + metadata_entry_enc()(e).len() as int),
    ) by {
        lemma_dec_enc_metadata_entry(s, j, e);
    }
    lemma_dec_enc_list(
        s,
        i2 + 1,
        v.metadata_entries,
        metadata_entry_enc(),
        metadata_entry_dec(),
        |e: MetadataEntryV| wf_metadata_entry(e),
    );
}

// ---------------------------------------------------------------------------
// FileContent

#[derive(Debug)]
pub struct FileContent {
    pub content: Vec<u8>,
}

/// Ghost image of a `FileContent`.
pub struct FileContentV {
    pub content: Seq<u8>,
}

impl View for FileContent {
    type V = FileContentV;

    open spec fn view(&self) -> FileContentV {
        FileContentV { content: self.content@ }
    }
}

pub open spec fn wf_file_content(v: FileContentV) -> bool {
    v.content.len() <= 0xFFFF
}

pub open spec fn enc_file_content(v: FileContentV) -> Seq<u8> {
    enc_tlv(APP_TLV_FILE_CONTENT, v.content)
}

/// The announced TLV length is itself the byte count of the content.
pub open spec fn dec_file_content(s: Seq<u8>, i: int) -> Option<(FileContentV, int)> {
    match dec_tlv_at(s, i, APP_TLV_FILE_CONTENT) {
        Some((blen, i2)) => match dec_bytes(s, i2, blen as int) {
            Some((content, i3)) => Some((FileContentV { content }, i3)),
            None => None,
        },
        None => None,
    }
}

impl FileContent {
    pub fn write(&self, out: &mut Vec<u8>)
        requires
            wf_file_content(self@),
        ensures
            final(out)@ == old(out)@ + enc_file_content(self@),
    {
        write_tlv(out, APP_TLV_FILE_CONTENT, &self.content);
    }

    pub fn read(r: &mut Reader) -> (res: Result<FileContent, ReadError>)
        ensures
            final(r).data@ == old(r).data@,
            old(r).pos <= final(r).pos <= final(r).data@.len() || final(r).pos == old(r).pos,
            match dec_file_content(old(r).data@, old(r).pos as int) {
                Some((v, j)) => res matches Ok(x) && x@ == v && final(r).pos == j,
                None => res is Err,
            },
    {
        let code = match r.read_u8() {
            Ok(v) => v,
            Err(e) => {
                return Err(e);
            },
        };
        if code != APP_TLV_FILE_CONTENT {
            return Err(ReadError::of_kind(ReadErrorKind::UnknownAppTlvType, "unexpected type byte"));
        }
        let blen = match r.read_u16() {
            Ok(v) => v,
            Err(e) => {
                return Err(e);
            },
        };
        let content = match r.read_bytes(blen as usize) {
            Ok(v) => v,
            Err(e) => {
                return Err(e);
            },
        };
        Ok(FileContent { content })
    }
}

pub proof fn lemma_dec_enc_file_content(s: Seq<u8>, i: int, v: FileContentV)
    requires
        0 <= i,
        wf_file_content(v),
        i + enc_file_content(v).len() <= s.len(),
        s.subrange(i, i + enc_file_content(v).len()) == enc_file_content(v),
    ensures
        dec_file_content(s, i) == Some((v, i + enc_file_content(v).len())),
{
    lemma_dec_tlv_header(s, i, APP_TLV_FILE_CONTENT, v.content);
}

// ---------------------------------------------------------------------------
// ApplicationError

#[derive(Clone, Copy, Debug, PartialEq, Eq, Structural)]
pub enum AppErrorCode {
    NoError,
    FileNotFound,
    FileChanged,
    NoSpaceLeftOnDisk,
    FileHashError,
    FileAbort,
    InvalidFileResumeRequest,
    InvalidDepthForList,
    UnknownFormatCode,
}

pub open spec fn app_error_code_byte(c: AppErrorCode) -> u8 {
    match c {
        AppErrorCode::NoError => 0x00,
        AppErrorCode::FileNotFound => 0x01,
        AppErrorCode::FileChanged => 0x02,
        AppErrorCode::NoSpaceLeftOnDisk => 0x03,
        AppErrorCode::FileHashError => 0x04,
        AppErrorCode::FileAbort => 0x05,
        AppErrorCode::InvalidFileResumeRequest => 0x06,
        AppErrorCode::InvalidDepthForList => 0x07,
        AppErrorCode::UnknownFormatCode => 0x08,
    }
}

/// An unknown code falls back to the no-error code.
pub open spec fn app_error_code_from(b: u8) -> AppErrorCode {
    if b == 0x01 {
        AppErrorCode::FileNotFound
    } else if b == 0x02 {
        AppErrorCode::FileChanged
    } else if b == 0x03 {
        AppErrorCode::NoSpaceLeftOnDisk
    } else if b == 0x04 {
        AppErrorCode::FileHashError
    } else if b == 0x05 {
        AppErrorCode::FileAbort
    } else if b == 0x06 {
        AppErrorCode::InvalidFileResumeRequest
    } else if b == 0x07 {
        AppErrorCode::InvalidDepthForList
    } else if b == 0x08 {
        AppErrorCode::UnknownFormatCode
    } else {
        AppErrorCode::NoError
    }
}

impl AppErrorCode {
    pub fn to_u8(&self) -> (r: u8)
        ensures
            r == app_error_code_byte(*self),
    {
        match self {
            AppErrorCode::NoError => 0x00,
            AppErrorCode::FileNotFound => 0x01,
            AppErrorCode::FileChanged => 0x02,
            AppErrorCode::NoSpaceLeftOnDisk => 0x03,
            AppErrorCode::FileHashError => 0x04,
            AppErrorCode::FileAbort => 0x05,
            AppErrorCode::InvalidFileResumeRequest => 0x06,
            AppErrorCode::InvalidDepthForList => 0x07,
            AppErrorCode::UnknownFormatCode => 0x08,
        }
    }

    pub fn from_u8(b: u8) -> (r: AppErrorCode)
        ensures
            r == app_error_code_from(b),
    {
        if b == 0x01 {
            AppErrorCode::FileNotFound
        } else if b == 0x02 {
            AppErrorCode::FileChanged
        } else if b == 0x03 {
            AppErrorCode::NoSpaceLeftOnDisk
        } else if b == 0x04 {
            AppErrorCode::FileHashError
        } else if b == 0x05 {
            AppErrorCode::FileAbort
        } else if b == 0x06 {
            AppErrorCode::InvalidFileResumeRequest
        } else if b == 0x07 {
            AppErrorCode::InvalidDepthForList
        } else if b == 0x08 {
            AppErrorCode::UnknownFormatCode
        } else {
            AppErrorCode::NoError
        }
    }
}

#[derive(Debug)]
pub enum AppErrorData {
    Empty,
    Paths(Vec<Vec<u8>>),
    FormatCodes(Vec<u8>),
}

/// Ghost image of an `AppErrorData`.
pub enum AppErrorDataV {
    Empty,
    Paths(Seq<Seq<u8>>),
    FormatCodes(Seq<u8>),
}

impl View for AppErrorData {
    type V = AppErrorDataV;

    open spec fn view(&self) -> AppErrorDataV {
        match self {
            AppErrorData::Empty => AppErrorDataV::Empty,
            AppErrorData::Paths(p) => AppErrorDataV::Paths(p@.map_values(|b: Vec<u8>| b@)),
            AppErrorData::FormatCodes(c) => AppErrorDataV::FormatCodes(c@),
        }
    }
}

#[derive(Debug)]
pub struct ApplicationError {
    pub error_code: AppErrorCode,
    pub error_data: AppErrorData,
}

/// Ghost image of an `ApplicationError`.
pub struct ApplicationErrorV {
    pub error_code: AppErrorCode,
    pub error_data: AppErrorDataV,
}

impl View for ApplicationError {
    type V = ApplicationErrorV;

    open spec fn view(&self) -> ApplicationErrorV {
        ApplicationErrorV { error_code: self.error_code, error_data: self.error_data@ }
    }
}

/// Which codes carry a path list on the wire.
pub open spec fn app_error_code_takes_paths(c: AppErrorCode) -> bool {
    c == AppErrorCode::FileNotFound || c == AppErrorCode::FileChanged || c
        == AppErrorCode::FileHashError || c == AppErrorCode::FileAbort
}

pub open spec fn enc_application_error_body(v: ApplicationErrorV) -> Seq<u8> {
    enc_u8(app_error_code_byte(v.error_code)) + (if v.error_code
        == AppErrorCode::InvalidDepthForList {
        match v.error_data {
            AppErrorDataV::Paths(paths) => enc_str(paths[0]),
            _ => Seq::<u8>::empty(),
        }
    } else if app_error_code_takes_paths(v.error_code) {
        match v.error_data {
            AppErrorDataV::Paths(paths) => enc_u8(paths.len() as u8) + enc_list(paths, str_enc()),
            _ => Seq::<u8>::empty(),
        }
    } else if v.error_code == AppErrorCode::UnknownFormatCode {
        match v.error_data {
            AppErrorDataV::FormatCodes(codes) => enc_u8(codes.len() as u8) + codes,
            _ => Seq::<u8>::empty(),
        }
    } else {
        Seq::<u8>::empty()
    })
}

/// The shape of the data must match the code, as the code alone drives the
/// decoder.
pub open spec fn wf_application_error(v: ApplicationErrorV) -> bool {
    &&& (v.error_code == AppErrorCode::InvalidDepthForList ==> (v.error_data matches
        AppErrorDataV::Paths(paths) && paths.len() == 1 && wf_str(paths[0])))
    &&& (app_error_code_takes_paths(v.error_code) ==> (v.error_data matches AppErrorDataV::Paths(
        paths,
    ) && paths.len() <= 255 && (forall|k: int|
        0 <= k < paths.len() ==> wf_str(#[trigger] paths[k]))))
    &&& (v.error_code == AppErrorCode::UnknownFormatCode ==> (v.error_data matches
        AppErrorDataV::FormatCodes(codes) && codes.len() <= 255))
    &&& (v.error_code == AppErrorCode::NoError || v.error_code == AppErrorCode::NoSpaceLeftOnDisk
        || v.error_code == AppErrorCode::InvalidFileResumeRequest ==> (v.error_data matches
        AppErrorDataV::Empty))
    &&& app_error_code_from(app_error_code_byte(v.error_code)) == v.error_code
    &&& enc_application_error_body(v).len() <= 0xFFFF
}

pub open spec fn enc_application_error(v: ApplicationErrorV) -> Seq<u8> {
    enc_tlv(APP_TLV_APPLICATION_ERROR, enc_application_error_body(v))
}

pub open spec fn dec_application_error(s: Seq<u8>, i: int) -> Option<(ApplicationErrorV, int)> {
    match dec_tlv_at(s, i, APP_TLV_APPLICATION_ERROR) {
        Some((blen, i2)) => match dec_u8(s, i2) {
            Some((cb, i3)) => {
                let code = app_error_code_from(cb);
                if code == AppErrorCode::InvalidDepthForList {
                    match dec_str(s, i3) {
                        Some((p, i4)) => if i4 - i2 == blen {
                            Some(
                                (
                                    ApplicationErrorV {
                                        error_code: code,
                                        error_data: AppErrorDataV::Paths(seq![p]),
                                    },
                                    i4,
                                ),
                            )
                        } else {
                            None
                        },
                        None => None,
                    }
                } else if app_error_code_takes_paths(code) {
                    match dec_u8(s, i3) {
                        Some((n, i4)) => match dec_list(s, i4, n as nat, str_dec()) {
                            Some((paths, i5)) => if i5 - i2 == blen {
                                Some(
                                    (
                                        ApplicationErrorV {
                                            error_code: code,
                                            error_data: AppErrorDataV::Paths(paths),
                                        },
                                        i5,
                                    ),
                                )
                            } else {
                                None
                            },
                            None => None,
                        },
                        None => None,
                    }
                } else if code == AppErrorCode::UnknownFormatCode {
                    match dec_u8(s, i3) {
                        Some((n, i4)) => match dec_bytes(s, i4, n as int) {
                            Some((codes, i5)) => if i5 - i2 == blen {
                                Some(
                                    (
                                        ApplicationErrorV {
                                            error_code: code,
                                            error_data: AppErrorDataV::FormatCodes(codes),
                                        },
                                        i5,
                                    ),
                                )
                            } else {
                                None
                            },
                            None => None,
                        },
                        None => None,
                    }
                } else {
                    if i3 - i2 == blen {
                        Some(
                            (
                                ApplicationErrorV {
                                    error_code: code,
                                    error_data: AppErrorDataV::Empty,
                                },
                                i3,
                            ),
                        )
                    } else {
                        None
                    }
                }
            },
            None => None,
        },
        None => None,
    }
}

impl ApplicationError {
    pub fn write(&self, out: &mut Vec<u8>)
        requires
            wf_application_error(self@),
        ensures
            final(out)@ == old(out)@ + enc_application_error(self@),
    {
        let mut body: Vec<u8> = Vec::new();
        write_u8(&mut body, self.error_code.to_u8());
        let takes_paths = match self.error_code {
            AppErrorCode::FileNotFound => true,
            AppErrorCode::FileChanged => true,
            AppErrorCode::FileHashError => true,
            AppErrorCode::FileAbort => true,
            _ => false,
        };
        match (&self.error_code, &self.error_data) {
            (AppErrorCode::InvalidDepthForList, AppErrorData::Paths(paths)) => {
                write_str(&mut body, &paths[0]);
                proof {
                    assert(paths@.map_values(|b: Vec<u8>| b@)[0] == paths@[0]@);
                }
            },
            (_, AppErrorData::Paths(paths)) => {
                if takes_paths {
                    write_u8(&mut body, paths.len() as u8);
                    write_strs(&mut body, paths);
                }
            },
            (AppErrorCode::UnknownFormatCode, AppErrorData::FormatCodes(codes)) => {
                write_u8(&mut body, codes.len() as u8);
                let mut k: usize = 0;
                let ghost mid = body@;
                while k < codes.len()
                    invariant
                        k <= codes@.len(),
                        body@ == mid + codes@.subrange(0, k as int),
                    decreases codes@.len() - k,
                {
                    body.push(codes[k]);
                    assert(body@ =~= mid + codes@.subrange(0, k as int + 1));
                    k = k + 1;
                }
                proof {
                    assert(codes@.subrange(0, codes@.len() as int) =~= codes@);
                }
            },
            (_, _) => {},
        }
        proof {
            assert(body@ =~= enc_application_error_body(self@));
        }
        write_tlv(out, APP_TLV_APPLICATION_ERROR, &body);
    }

    pub fn read(r: &mut Reader) -> (res: Result<ApplicationError, ReadError>)
        ensures
            final(r).data@ == old(r).data@,
            old(r).pos <= final(r).pos <= final(r).data@.len() || final(r).pos == old(r).pos,
            match dec_application_error(old(r).data@, old(r).pos as int) {
                Some((v, j)) => res matches Ok(x) && x@ == v && final(r).pos == j,
                None => res is Err,
            },
    {
        let code = match r.read_u8() {
            Ok(v) => v,
            Err(e) => {
                return Err(e);
            },
        };
        if code != APP_TLV_APPLICATION_ERROR {
            return Err(ReadError::of_kind(ReadErrorKind::UnknownAppTlvType, "unexpected type byte"));
        }
        let blen = match r.read_u16() {
            Ok(v) => v,
            Err(e) => {
                return Err(e);
            },
        };
        let body_start = r.position();
        let cb = match r.read_u8() {
            Ok(v) => v,
            Err(e) => {
                return Err(e);
            },
        };
        let ecode = AppErrorCode::from_u8(cb);
        let takes_paths = match ecode {
            AppErrorCode::FileNotFound => true,
            AppErrorCode::FileChanged => true,
            AppErrorCode::FileHashError => true,
            AppErrorCode::FileAbort => true,
            _ => false,
        };
        let data: AppErrorData;
        if matches!(ecode, AppErrorCode::InvalidDepthForList) {
            let p = match read_str(r) {
                Ok(v) => v,
                Err(e) => {
                    return Err(e);
                },
            };
            let mut paths: Vec<Vec<u8>> = Vec::new();
            paths.push(p);
            proof {
                assert(paths@.map_values(|b: Vec<u8>| b@) =~= seq![paths@[0]@]);
            }
            data = AppErrorData::Paths(paths);
        } else if takes_paths {
            let n = match r.read_u8() {
                Ok(v) => v,
                Err(e) => {
                    return Err(e);
                },
            };
            let paths = match read_strs(r, n) {
                Ok(v) => v,
                Err(e) => {
                    return Err(e);
                },
            };
            data = AppErrorData::Paths(paths);
        } else if matches!(ecode, AppErrorCode::UnknownFormatCode) {
            let n = match r.read_u8() {
                Ok(v) => v,
                Err(e) => {
                    return Err(e);
                },
            };
            let codes = match r.read_bytes(n as usize) {
                Ok(v) => v,
                Err(e) => {
                    return Err(e);
                },
            };
            data = AppErrorData::FormatCodes(codes);
        } else {
            data = AppErrorData::Empty;
        }
        let body_end = r.position();
        if body_end - body_start != blen as usize {
            return Err(ReadError::of_kind(ReadErrorKind::LengthMismatch, "length mismatch"));
        }
        Ok(ApplicationError { error_code: ecode, error_data: data })
    }
}

pub proof fn lemma_dec_enc_application_error(s: Seq<u8>, i: int, v: ApplicationErrorV)
    requires
        0 <= i,
        wf_application_error(v),
        i + enc_application_error(v).len() <= s.len(),
        s.subrange(i, i + enc_application_error(v).len()) == enc_application_error(v),
    ensures
        dec_application_error(s, i) == Some((v, i + enc_application_error(v).len())),
{
    let body = enc_application_error_body(v);
    lemma_dec_tlv_header(s, i, APP_TLV_APPLICATION_ERROR, body);
    let i2 = i + 3;
    let p1 = enc_u8(app_error_code_byte(v.error_code));
    if v.error_code == AppErrorCode::InvalidDepthForList {
        let paths = v.error_data->Paths_0;
        let p2 = enc_str(paths[0]);
        lemma_concat_parts(s, i2, p1, p2);
        lemma_dec_enc_u8(s, i2, app_error_code_byte(v.error_code));
        lemma_dec_enc_str(s, i2 + 1, paths[0]);
        assert(seq![paths[0]] =~= paths);
    } else if app_error_code_takes_paths(v.error_code) {
        let paths = v.error_data->Paths_0;
        let p2 = enc_u8(paths.len() as u8);
        let p3 = enc_list(paths, str_enc());
        assert(body =~= (p1 + p2) + p3);
        lemma_concat_parts(s, i2, p1 + p2, p3);
        lemma_concat_parts(s, i2, p1, p2);
        lemma_dec_enc_u8(s, i2, app_error_code_byte(v.error_code));
        lemma_dec_enc_u8(s, i2 + 1, paths.len() as u8);
        lemma_dec_enc_strs(s, i2 + 2, paths);
    } else if v.error_code == AppErrorCode::UnknownFormatCode {
        let codes = v.error_data->FormatCodes_0;
        let p2 = enc_u8(codes.len() as u8);
        assert(body =~= (p1 + p2) + codes);
        lemma_concat_parts(s, i2, p1 + p2, codes);
        lemma_concat_parts(s, i2, p1, p2);
        lemma_dec_enc_u8(s, i2, app_error_code_byte(v.error_code));
        lemma_dec_enc_u8(s, i2 + 1, codes.len() as u8);
    } else {
        assert(body =~= p1 + Seq::<u8>::empty());
        lemma_concat_parts(s, i2, p1, Seq::<u8>::empty());
        lemma_dec_enc_u8(s, i2, app_error_code_byte(v.error_code));
    }
}

// ---------------------------------------------------------------------------
// FileListRequest

pub const DEFAULT_FORMAT_CODE: u8 = 0x01;

#[derive(Debug)]
pub struct FileListRequest {
    pub path: Vec<u8>,
    pub level_of_recursion: u8,
    pub format_code: u8,
}

/// Ghost image of a `FileListRequest`.
pub struct FileListRequestV {
    pub path: Seq<u8>,
    pub level_of_recursion: u8,
    pub format_code: u8,
}

impl View for FileListRequest {
    type V = FileListRequestV;

    open spec fn view(&self) -> FileListRequestV {
        FileListRequestV {
            path: self.path@,
            level_of_recursion: self.level_of_recursion,
            format_code: self.format_code,
        }
    }
}

pub open spec fn wf_file_list_request(v: FileListRequestV) -> bool {
    wf_str(v.path) && enc_file_list_request_body(v).len() <= 0xFFFF
}

pub open spec fn enc_file_list_request_body(v: FileListRequestV) -> Seq<u8> {
    enc_str(v.path) + enc_u8(v.level_of_recursion) + enc_u8(v.format_code)
}

pub open spec fn enc_file_list_request(v: FileListRequestV) -> Seq<u8> {
    enc_tlv(APP_TLV_FILE_LIST_REQUEST, enc_file_list_request_body(v))
}

pub open spec fn dec_file_list_request(s: Seq<u8>, i: int) -> Option<(FileListRequestV, int)> {
    match dec_tlv_at(s, i, APP_TLV_FILE_LIST_REQUEST) {
        Some((blen, i2)) => match dec_str(s, i2) {
            Some((path, i3)) => match dec_u8(s, i3) {
                Some((lvl, i4)) => match dec_u8(s, i4) {
                    Some((fc, i5)) => if i5 - i2 == blen {
                        Some(
                            (
                                FileListRequestV {
                                    path,
                                    level_of_recursion: lvl,
                                    format_code: fc,
                                },
                                i5,
                            ),
                        )
                    } else {
                        None
                    },
                    None => None,
                },
                None => None,
            },
            None => None,
        },
        None => None,
    }
}

impl FileListRequest {
    pub fn write(&self, out: &mut Vec<u8>)
        requires
            wf_file_list_request(self@),
        ensures
            final(out)@ == old(out)@ + enc_file_list_request(self@),
    {
        let mut body: Vec<u8> = Vec::new();
        write_str(&mut body, &self.path);
        write_u8(&mut body, self.level_of_recursion);
        write_u8(&mut body, self.format_code);
        proof {
            crate::bytes::lemma_enc_uleb_len(self.path@.len() as nat);
            assert(body@ =~= enc_file_list_request_body(self@));
        }
        write_tlv(out, APP_TLV_FILE_LIST_REQUEST, &body);
    }

    pub fn read(r: &mut Reader) -> (res: Result<FileListRequest, ReadError>)
        ensures
            final(r).data@ == old(r).data@,
            old(r).pos <= final(r).pos <= final(r).data@.len() || final(r).pos == old(r).pos,
            match dec_file_list_request(old(r).data@, old(r).pos as int) {
                Some((v, j)) => res matches Ok(x) && x@ == v && final(r).pos == j,
                None => res is Err,
            },
    {
        let code = match r.read_u8() {
            Ok(v) => v,
            Err(e) => {
                return Err(e);
            },
        };
        if code != APP_TLV_FILE_LIST_REQUEST {
            return Err(ReadError::of_kind(ReadErrorKind::UnknownAppTlvType, "unexpected type byte"));
        }
        let blen = match r.read_u16() {
            Ok(v) => v,
            Err(e) => {
                return Err(e);
            },
        };
        let body_start = r.position();
        let path = match read_str(r) {
            Ok(v) => v,
            Err(e) => {
                return Err(e);
            },
        };
        let lvl = match r.read_u8() {
            Ok(v) => v,
            Err(e) => {
                return Err(e);
            },
        };
        let fc = match r.read_u8() {
            Ok(v) => v,
            Err(e) => {
                return Err(e);
            },
        };
        let body_end = r.position();
        if body_end - body_start != blen as usize {
            return Err(ReadError::of_kind(ReadErrorKind::LengthMismatch, "length mismatch"));
        }
        Ok(FileListRequest { path, level_of_recursion: lvl, format_code: fc })
    }
}

pub proof fn lemma_dec_enc_file_list_request(s: Seq<u8>, i: int, v: FileListRequestV)
    requires
        0 <= i,
        wf_file_list_request(v),
        i + enc_file_list_request(v).len() <= s.len(),
        s.subrange(i, i + enc_file_list_request(v).len()) == enc_file_list_request(v),
    ensures
        dec_file_list_request(s, i) == Some((v, i + enc_file_list_request(v).len())),
{
    let body = enc_file_list_request_body(v);
    crate::bytes::lemma_enc_uleb_len(v.path.len() as nat);
    lemma_dec_tlv_header(s, i, APP_TLV_FILE_LIST_REQUEST, body);
    let i2 = i + 3;
    let p1 = enc_str(v.path);
    let p2 = enc_u8(v.level_of_recursion);
    let p3 = enc_u8(v.format_code);
    lemma_concat_parts(s, i2, p1 + p2, p3);
    lemma_concat_parts(s, i2, p1, p2);
    lemma_dec_enc_str(s, i2, v.path);
    lemma_dec_enc_u8(s, i2 + p1.len(), v.level_of_recursion);
    lemma_dec_enc_u8(s, i2 + p1.len() + 1, v.format_code);
}

// ---------------------------------------------------------------------------
// FileListResponse

#[derive(Clone, Copy, Debug, PartialEq, Eq, Structural)]
pub enum FileListEntryType {
    File,
    Dir,
}

pub open spec fn file_list_entry_type_code(t: FileListEntryType) -> u8 {
    match t {
        FileListEntryType::File => 0x00,
        FileListEntryType::Dir => 0x01,
    }
}

/// An unknown code falls back to a plain file entry.
pub open spec fn file_list_entry_type_from(b: u8) -> FileListEntryType {
    if b == 0x01 {
        FileListEntryType::Dir
    } else {
        FileListEntryType::File
    }
}

#[derive(Debug)]
pub struct FileListEntry {
    pub entry_type: FileListEntryType,
    pub parent: FileId,
    pub name: Vec<u8>,
    pub id: FileId,
}

/// Ghost image of a `FileListEntry`.
pub struct FileListEntryV {
    pub entry_type: FileListEntryType,
    pub parent: FileId,
    pub name: Seq<u8>,
    pub id: FileId,
}

impl View for FileListEntry {
    type V = FileListEntryV;

    open spec fn view(&self) -> FileListEntryV {
        FileListEntryV {
            entry_type: self.entry_type,
            parent: self.parent,
            name: self.name@,
            id: self.id,
        }
    }
}

pub open spec fn wf_file_list_entry(e: FileListEntryV) -> bool {
    wf_str(e.name)
}

pub open spec fn enc_file_list_entry(e: FileListEntryV) -> Seq<u8> {
    enc_u8(file_list_entry_type_code(e.entry_type)) + enc_u64(e.parent) + enc_str(e.name) + enc_u64(
        e.id,
    )
}

pub open spec fn dec_file_list_entry(s: Seq<u8>, i: int) -> Option<(FileListEntryV, int)> {
    match dec_u8(s, i) {
        Some((tb, i1)) => match dec_u64(s, i1) {
            Some((parent, i2)) => match dec_str(s, i2) {
                Some((name, i3)) => match dec_u64(s, i3) {
                    Some((id, i4)) => Some(
                        (
                            FileListEntryV {
                                entry_type: file_list_entry_type_from(tb),
                                parent,
                                name,
                                id,
                            },
                            i4,
                        ),
                    ),
                    None => None,
                },
                None => None,
            },
            None => None,
        },
        None => None,
    }
}

/// The element encoder for file list entry runs.
pub open spec fn file_list_entry_enc() -> spec_fn(FileListEntryV) -> Seq<u8> {
    |e: FileListEntryV| enc_file_list_entry(e)
}

/// The element decoder for file list entry runs.
pub open spec fn file_list_entry_dec() -> spec_fn(Seq<u8>, int) -> Option<(FileListEntryV, int)> {
    |s: Seq<u8>, i: int| dec_file_list_entry(s, i)
}

pub proof fn lemma_dec_enc_file_list_entry(s: Seq<u8>, i: int, e: FileListEntryV)
    requires
        0 <= i,
        wf_file_list_entry(e),
        i + enc_file_list_entry(e).len() <= s.len(),
        s.subrange(i, i + enc_file_list_entry(e).len()) == enc_file_list_entry(e),
    ensures
        dec_file_list_entry(s, i) == Some((e, i + enc_file_list_entry(e).len())),
{
    let p1 = enc_u8(file_list_entry_type_code(e.entry_type));
    let p2 = enc_u64(e.parent);
    let p3 = enc_str(e.name);
    let p4 = enc_u64(e.id);
    lemma_concat_parts(s, i, p1 + p2 + p3, p4);
    lemma_concat_parts(s, i, p1 + p2, p3);
    lemma_concat_parts(s, i, p1, p2);
    lemma_dec_enc_u8(s, i, file_list_entry_type_code(e.entry_type));
    lemma_dec_enc_u64(s, i + 1, e.parent);
    lemma_dec_enc_str(s, i + 9, e.name);
    lemma_dec_enc_u64(s, i + 9 + p3.len(), e.id);
}

impl FileListEntry {
    pub fn write(&self, out: &mut Vec<u8>)
        requires
            wf_file_list_entry(self@),
        ensures
            final(out)@ == old(out)@ + enc_file_list_entry(self@),
    {
        let tb: u8 = match self.entry_type {
            FileListEntryType::File => 0x00,
            FileListEntryType::Dir => 0x01,
        };
        write_u8(out, tb);
        write_u64(out, self.parent);
        write_str(out, &self.name);
        write_u64(out, self.id);
        assert(out@ =~= old(out)@ + enc_file_list_entry(self@));
    }

    pub fn read(r: &mut Reader) -> (res: Result<FileListEntry, ReadError>)
        ensures
            final(r).data@ == old(r).data@,
            old(r).pos <= final(r).pos <= final(r).data@.len() || final(r).pos == old(r).pos,
            match dec_file_list_entry(old(r).data@, old(r).pos as int) {
                Some((v, j)) => res matches Ok(x) && x@ == v && final(r).pos == j,
                None => res is Err,
            },
    {
        let tb = match r.read_u8() {
            Ok(v) => v,
            Err(e) => {
                return Err(e);
            },
        };
        let parent = match r.read_u64() {
            Ok(v) => v,
            Err(e) => {
                return Err(e);
            },
        };
        let name = match read_str(r) {
            Ok(v) => v,
            Err(e) => {
                return Err(e);
            },
        };
        let id = match r.read_u64() {
            Ok(v) => v,
            Err(e) => {
                return Err(e);
            },
        };
        Ok(
            FileListEntry {
                entry_type: if tb == 0x01 {
                    FileListEntryType::Dir
                } else {
                    FileListEntryType::File
                },
                parent,
                name,
                id,
            },
        )
    }
}

/// Reads `count` consecutive file list entries.
fn read_file_list_entries(r: &mut Reader, count: u8) -> (res: Result<Vec<FileListEntry>, ReadError>)
    ensures
        final(r).data@ == old(r).data@,
        old(r).pos <= final(r).pos <= final(r).data@.len() || final(r).pos == old(r).pos,
        match dec_list(old(r).data@, old(r).pos as int, count as nat, file_list_entry_dec()) {
            Some((v, j)) => res matches Ok(items) && items@.map_values(|e: FileListEntry| e@) == v
                && final(r).pos == j,
            None => res is Err,
        },
{
    let ghost s = r.data@;
    let ghost pos0 = r.pos as int;
    let ghost g = file_list_entry_dec();
    let mut items: Vec<FileListEntry> = Vec::new();
    let mut k: u8 = 0;
    proof {
        if let Some((rest, e)) = dec_list(s, pos0, count as nat, g) {
            assert(Seq::<FileListEntryV>::empty() + rest =~= rest);
        }
        assert(items@.map_values(|e: FileListEntry| e@) =~= Seq::<FileListEntryV>::empty());
    }
    while k < count
        invariant
            k <= count,
            r.data@ == s,
            s == old(r).data@,
            pos0 == old(r).pos as int,
            g == file_list_entry_dec(),
            pos0 <= r.pos as int <= s.len() || r.pos as int == pos0,
            dec_list(s, pos0, count as nat, g) == (match dec_list(
                s,
                r.pos as int,
                (count - k) as nat,
                g,
            ) {
                Some((rest, e)) => Some((items@.map_values(|e2: FileListEntry| e2@) + rest, e)),
                None => None::<(Seq<FileListEntryV>, int)>,
            }),
        decreases count - k,
    {
        let ghost pos_here = r.pos as int;
        let ghost n_left = (count - k) as nat;
        let entry = match FileListEntry::read(r) {
            Ok(v) => v,
            Err(e) => {
                proof {
                    assert(g(s, pos_here) == dec_file_list_entry(s, pos_here));
                    assert(dec_list(s, pos_here, n_left, g) is None);
                }
                return Err(e);
            },
        };
        let ghost old_items = items@.map_values(|e2: FileListEntry| e2@);
        items.push(entry);
        proof {
            assert(g(s, pos_here) == dec_file_list_entry(s, pos_here));
            assert(g(s, pos_here) == Some((entry@, r.pos as int)));
            assert(items@.map_values(|e2: FileListEntry| e2@) =~= old_items.push(entry@));
            match dec_list(s, r.pos as int, (n_left - 1) as nat, g) {
                Some((rest, e)) => {
                    assert(dec_list(s, pos_here, n_left, g) == Some((seq![entry@] + rest, e)));
                    assert(old_items + (seq![entry@] + rest) =~= old_items.push(entry@) + rest);
                },
                None => {
                    assert(dec_list(s, pos_here, n_left, g) is None);
                },
            }
        }
        k = k + 1;
    }
    proof {
        assert(dec_list(s, r.pos as int, 0, g) == Some(
            (Seq::<FileListEntryV>::empty(), r.pos as int),
        ));
        assert(items@.map_values(|e: FileListEntry| e@) + Seq::<FileListEntryV>::empty()
            =~= items@.map_values(|e: FileListEntry| e@));
    }
    Ok(items)
}

#[derive(Debug)]
pub struct FileListResponse {
    pub file_list_entries: Vec<FileListEntry>,
}

/// Ghost image of a `FileListResponse`.
pub struct FileListResponseV {
    pub file_list_entries: Seq<FileListEntryV>,
}

impl View for FileListResponse {
    type V = FileListResponseV;

    open spec fn view(&self) -> FileListResponseV {
        FileListResponseV {
            file_list_entries: self.file_list_entries@.map_values(|e: FileListEntry| e@),
        }
    }
}

pub open spec fn enc_file_list_response_body(v: FileListResponseV) -> Seq<u8> {
    enc_u8(v.file_list_entries.len() as u8) + enc_list(v.file_list_entries, file_list_entry_enc())
}

pub open spec fn wf_file_list_response(v: FileListResponseV) -> bool {
    &&& v.file_list_entries.len() <= 255
    &&& forall|k: int|
        0 <= k < v.file_list_entries.len() ==> wf_file_list_entry(#[trigger] v.file_list_entries[k])
    &&& enc_file_list_response_body(v).len() <= 0xFFFF
}

pub open spec fn enc_file_list_response(v: FileListResponseV) -> Seq<u8> {
    enc_tlv(APP_TLV_FILE_LIST_RESPONSE, enc_file_list_response_body(v))
}

pub open spec fn dec_file_list_response(s: Seq<u8>, i: int) -> Option<(FileListResponseV, int)> {
    match dec_tlv_at(s, i, APP_TLV_FILE_LIST_RESPONSE) {
        Some((blen, i2)) => match dec_u8(s, i2) {
            Some((n, i3)) => match dec_list(s, i3, n as nat, file_list_entry_dec()) {
                Some((items, i4)) => if i4 - i2 == blen {
                    Some((FileListResponseV { file_list_entries: items }, i4))
                } else {
                    None
                },
                None => None,
            },
            None => None,
        },
        None => None,
    }
}

impl FileListResponse {
    pub fn write(&self, out: &mut Vec<u8>)
        requires
            wf_file_list_response(self@),
        ensures
            final(out)@ == old(out)@ + enc_file_list_response(self@),
    {
        let mut body: Vec<u8> = Vec::new();
        write_u8(&mut body, self.file_list_entries.len() as u8);
        let ghost view = self.file_list_entries@.map_values(|e: FileListEntry| e@);
        let ghost prefix = body@;
        let mut k: usize = 0;
        while k < self.file_list_entries.len()
            invariant
                k <= self.file_list_entries@.len(),
                view == self.file_list_entries@.map_values(|e: FileListEntry| e@),
                forall|j: int| 0 <= j < view.len() ==> wf_file_list_entry(#[trigger] view[j]),
                body@ == prefix + enc_list(view.subrange(0, k as int), file_list_entry_enc()),
            decreases self.file_list_entries@.len() - k,
        {
            self.file_list_entries[k].write(&mut body);
            proof {
                lemma_enc_list_push(view.subrange(0, k as int), view[k as int], file_list_entry_enc());
                assert(view.subrange(0, k as int).push(view[k as int]) =~= view.subrange(
                    0,
                    k as int + 1,
                ));
                assert(body@ =~= prefix + enc_list(
                    view.subrange(0, k as int + 1),
                    file_list_entry_enc(),
                ));
            }
            k = k + 1;
        }
        proof {
            assert(view.subrange(0, view.len() as int) =~= view);
            assert(body@ =~= enc_file_list_response_body(self@));
        }
        write_tlv(out, APP_TLV_FILE_LIST_RESPONSE, &body);
    }

    pub fn read(r: &mut Reader) -> (res: Result<FileListResponse, ReadError>)
        ensures
            final(r).data@ == old(r).data@,
            old(r).pos <= final(r).pos <= final(r).data@.len() || final(r).pos == old(r).pos,
            match dec_file_list_response(old(r).data@, old(r).pos as int) {
                Some((v, j)) => res matches Ok(x) && x@ == v && final(r).pos == j,
                None => res is Err,
            },
    {
        let code = match r.read_u8() {
            Ok(v) => v,
            Err(e) => {
                return Err(e);
            },
        };
        if code != APP_TLV_FILE_LIST_RESPONSE {
            return Err(ReadError::of_kind(ReadErrorKind::UnknownAppTlvType, "unexpected type byte"));
        }
        let blen = match r.read_u16() {
            Ok(v) => v,
            Err(e) => {
                return Err(e);
            },
        };
        let body_start = r.position();
        let n = match r.read_u8() {
            Ok(v) => v,
            Err(e) => {
                return Err(e);
            },
        };
        let items = match read_file_list_entries(r, n) {
            Ok(v) => v,
            Err(e) => {
                return Err(e);
            },
        };
        let body_end = r.position();
        if body_end - body_start != blen as usize {
            return Err(ReadError::of_kind(ReadErrorKind::LengthMismatch, "length mismatch"));
        }
        Ok(FileListResponse { file_list_entries: items })
    }
}

pub proof fn lemma_dec_enc_file_list_response(s: Seq<u8>, i: int, v: FileListResponseV)
    requires
        0 <= i,
        wf_file_list_response(v),
        i + enc_file_list_response(v).len() <= s.len(),
        s.subrange(i, i + enc_file_list_response(v).len()) == enc_file_list_response(v),
    ensures
        dec_file_list_response(s, i) == Some((v, i + enc_file_list_response(v).len())),
{
    let body = enc_file_list_response_body(v);
    lemma_dec_tlv_header(s, i, APP_TLV_FILE_LIST_RESPONSE, body);
    let i2 = i + 3;
    let p1 = enc_u8(v.file_list_entries.len() as u8);
    let p2 = enc_list(v.file_list_entries, file_list_entry_enc());
    lemma_concat_parts(s, i2, p1, p2);
    lemma_dec_enc_u8(s, i2, v.file_list_entries.len() as u8);
    assert forall|e: FileListEntryV, j: int|
        #![trigger file_list_entry_dec()(s, j), file_list_entry_enc()(e)]
        wf_file_list_entry(e) && 0 <= j && j + file_list_entry_enc()(e).len() <= s.len()
            && s.subrange(j, j + file_list_entry_enc()(e).len() as int) == file_list_entry_enc()(
            e,
        ) implies file_list_entry_dec()(s, j) == Some(
        (e, j + file_list_entry_enc()(e).len() as int),
    ) by {
        lemma_dec_enc_file_list_entry(s, j, e);
    }
    lemma_dec_enc_list(
        s,
        i2 + 1,
        v.file_list_entries,
        file_list_entry_enc(),
        file_list_entry_dec(),
        |e: FileListEntryV| wf_file_list_entry(e),
    );
}

// ---------------------------------------------------------------------------
// AppTlv: the tagged union of every application record.

#[derive(Debug)]
pub enum AppTlv {
    FileRequest(FileRequest),
    FileResume(FileResume),
    FileMetadata(FileMetadata),
    FileContent(FileContent),
    ApplicationError(ApplicationError),
    FileListRequest(FileListRequest),
    FileListResponse(FileListResponse),
}

/// Ghost image of an `AppTlv`.
pub enum AppTlvV {
    FileRequest(FileRequestV),
    FileResume(FileResumeV),
    FileMetadata(FileMetadataV),
    FileContent(FileContentV),
    ApplicationError(ApplicationErrorV),
    FileListRequest(FileListRequestV),
    FileListResponse(FileListResponseV),
}

impl View for AppTlv {
    type V = AppTlvV;

    open spec fn view(&self) -> AppTlvV {
        match self {
            AppTlv::FileRequest(x) => AppTlvV::FileRequest(x@),
            AppTlv::FileResume(x) => AppTlvV::FileResume(x@),
            AppTlv::FileMetadata(x) => AppTlvV::FileMetadata(x@),
            AppTlv::FileContent(x) => AppTlvV::FileContent(x@),
            AppTlv::ApplicationError(x) => AppTlvV::ApplicationError(x@),
            AppTlv::FileListRequest(x) => AppTlvV::FileListRequest(x@),
            AppTlv::FileListResponse(x) => AppTlvV::FileListResponse(x@),
        }
    }
}

pub open spec fn wf_app_tlv(t: AppTlvV) -> bool {
    match t {
        AppTlvV::FileRequest(x) => wf_file_request(x),
        AppTlvV::FileResume(x) => wf_file_resume(x),
        AppTlvV::FileMetadata(x) => wf_file_metadata(x),
        AppTlvV::FileContent(x) => wf_file_content(x),
        AppTlvV::ApplicationError(x) => wf_application_error(x),
        AppTlvV::FileListRequest(x) => wf_file_list_request(x),
        AppTlvV::FileListResponse(x) => wf_file_list_response(x),
    }
}

pub open spec fn enc_app_tlv(t: AppTlvV) -> Seq<u8> {
    match t {
        AppTlvV::FileRequest(x) => enc_file_request(x),
        AppTlvV::FileResume(x) => enc_file_resume(x),
        AppTlvV::FileMetadata(x) => enc_file_metadata(x),
        AppTlvV::FileContent(x) => enc_file_content(x),
        AppTlvV::ApplicationError(x) => enc_application_error(x),
        AppTlvV::FileListRequest(x) => enc_file_list_request(x),
        AppTlvV::FileListResponse(x) => enc_file_list_response(x),
    }
}

/// Dispatches on the type byte; an unknown code is a parse error.
pub open spec fn dec_app_tlv(s: Seq<u8>, i: int) -> Option<(AppTlvV, int)> {
    match dec_u8(s, i) {
        Some((c, _)) => if c == APP_TLV_FILE_REQUEST {
            match dec_file_request(s, i) {
                Some((x, j)) => Some((AppTlvV::FileRequest(x), j)),
                None => None,
            }
        } else if c == APP_TLV_FILE_RESUME {
            match dec_file_resume(s, i) {
                Some((x, j)) => Some((AppTlvV::FileResume(x), j)),
                None => None,
            }
        } else if c == APP_TLV_FILE_METADATA {
            match dec_file_metadata(s, i) {
                Some((x, j)) => Some((AppTlvV::FileMetadata(x), j)),
                None => None,
            }
        } else if c == APP_TLV_FILE_CONTENT {
            match dec_file_content(s, i) {
                Some((x, j)) => Some((AppTlvV::FileContent(x), j)),
                None => None,
            }
        } else if c == APP_TLV_APPLICATION_ERROR {
            match dec_application_error(s, i) {
                Some((x, j)) => Some((AppTlvV::ApplicationError(x), j)),
                None => None,
            }
        } else if c == APP_TLV_FILE_LIST_REQUEST {
            match dec_file_list_request(s, i) {
                Some((x, j)) => Some((AppTlvV::FileListRequest(x), j)),
                None => None,
            }
        } else if c == APP_TLV_FILE_LIST_RESPONSE {
            match dec_file_list_response(s, i) {
                Some((x, j)) => Some((AppTlvV::FileListResponse(x), j)),
                None => None,
            }
        } else {
            None
        },
        None => None,
    }
}

impl AppTlv {
    pub fn write(&self, out: &mut Vec<u8>)
        requires
            wf_app_tlv(self@),
        ensures
            final(out)@ == old(out)@ + enc_app_tlv(self@),
    {
        match self {
            AppTlv::FileRequest(x) => x.write(out),
            AppTlv::FileResume(x) => x.write(out),
            AppTlv::FileMetadata(x) => x.write(out),
            AppTlv::FileContent(x) => x.write(out),
            AppTlv::ApplicationError(x) => x.write(out),
            AppTlv::FileListRequest(x) => x.write(out),
            AppTlv::FileListResponse(x) => x.write(out),
        }
    }

    pub fn read(r: &mut Reader) -> (res: Result<AppTlv, ReadError>)
        ensures
            final(r).data@ == old(r).data@,
            old(r).pos <= final(r).pos <= final(r).data@.len() || final(r).pos == old(r).pos,
            match dec_app_tlv(old(r).data@, old(r).pos as int) {
                Some((v, j)) => res matches Ok(t) && t@ == v && final(r).pos == j,
                None => res is Err,
            },
    {
        let code = match r.peek_u8() {
            Ok(v) => v,
            Err(e) => {
                return Err(e);
            },
        };
        if code == APP_TLV_FILE_REQUEST {
            match FileRequest::read(r) {
                Ok(x) => Ok(AppTlv::FileRequest(x)),
                Err(e) => Err(e),
            }
        } else if code == APP_TLV_FILE_RESUME {
            match FileResume::read(r) {
                Ok(x) => Ok(AppTlv::FileResume(x)),
                Err(e) => Err(e),
            }
        } else if code == APP_TLV_FILE_METADATA {
            match FileMetadata::read(r) {
                Ok(x) => Ok(AppTlv::FileMetadata(x)),
                Err(e) => Err(e),
            }
        } else if code == APP_TLV_FILE_CONTENT {
            match FileContent::read(r) {
                Ok(x) => Ok(AppTlv::FileContent(x)),
                Err(e) => Err(e),
            }
        } else if code == APP_TLV_APPLICATION_ERROR {
            match ApplicationError::read(r) {
                Ok(x) => Ok(AppTlv::ApplicationError(x)),
                Err(e) => Err(e),
            }
        } else if code == APP_TLV_FILE_LIST_REQUEST {
            match FileListRequest::read(r) {
                Ok(x) => Ok(AppTlv::FileListRequest(x)),
                Err(e) => Err(e),
            }
        } else if code == APP_TLV_FILE_LIST_RESPONSE {
            match FileListResponse::read(r) {
                Ok(x) => Ok(AppTlv::FileListResponse(x)),
                Err(e) => Err(e),
            }
        } else {
            Err(ReadError::of_kind(ReadErrorKind::UnknownAppTlvType, "unknown application message type code"))
        }
    }
}

pub proof fn lemma_dec_enc_app_tlv(s: Seq<u8>, i: int, t: AppTlvV)
    requires
        0 <= i,
        wf_app_tlv(t),
        i + enc_app_tlv(t).len() <= s.len(),
        s.subrange(i, i + enc_app_tlv(t).len()) == enc_app_tlv(t),
    ensures
        dec_app_tlv(s, i) == Some((t, i + enc_app_tlv(t).len())),
{
    let e = enc_app_tlv(t);
    assert(s.subrange(i, i + e.len())[0] == s[i]);
    match t {
        AppTlvV::FileRequest(x) => {
            assert(e[0] == APP_TLV_FILE_REQUEST);
            lemma_dec_enc_file_request(s, i, x);
        },
        AppTlvV::FileResume(x) => {
            assert(e[0] == APP_TLV_FILE_RESUME);
            lemma_dec_enc_file_resume(s, i, x);
        },
        AppTlvV::FileMetadata(x) => {
            assert(e[0] == APP_TLV_FILE_METADATA);
            lemma_dec_enc_file_metadata(s, i, x);
        },
        AppTlvV::FileContent(x) => {
            assert(e[0] == APP_TLV_FILE_CONTENT);
            lemma_dec_enc_file_content(s, i, x);
        },
        AppTlvV::ApplicationError(x) => {
            assert(e[0] == APP_TLV_APPLICATION_ERROR);
            lemma_dec_enc_application_error(s, i, x);
        },
        AppTlvV::FileListRequest(x) => {
            assert(e[0] == APP_TLV_FILE_LIST_REQUEST);
            lemma_dec_enc_file_list_request(s, i, x);
        },
        AppTlvV::FileListResponse(x) => {
            assert(e[0] == APP_TLV_FILE_LIST_RESPONSE);
            lemma_dec_enc_file_list_response(s, i, x);
        },
    }
}

/// For any well-formed application TLV, parsing its serialized bytes gives
/// the value back.
pub proof fn lemma_parse_serialize_app_tlv(t: AppTlvV)
    requires
        wf_app_tlv(t),
    ensures
        dec_app_tlv(enc_app_tlv(t), 0) == Some((t, enc_app_tlv(t).len() as int)),
{
    let s = enc_app_tlv(t);
    assert(s.subrange(0, s.len() as int) =~= s);
    lemma_dec_enc_app_tlv(s, 0, t);
}

/// Outcome of parsing one application TLV.
pub enum AppTlvParseResult {
    Good(AppTlv),
    Bad(ReadError),
}

/// Parses the next application TLV out of a chunk payload.
pub fn parse(r: &mut Reader) -> (res: AppTlvParseResult)
    ensures
        final(r).data@ == old(r).data@,
        old(r).pos <= final(r).pos <= final(r).data@.len() || final(r).pos == old(r).pos,
        match dec_app_tlv(old(r).data@, old(r).pos as int) {
            Some((v, j)) => res matches AppTlvParseResult::Good(t) && t@ == v && final(r).pos == j,
            None => res is Bad,
        },
{
    match AppTlv::read(r) {
        Ok(t) => AppTlvParseResult::Good(t),
        Err(e) => AppTlvParseResult::Bad(e),
    }
}

} // verus!
