use vstd::prelude::*;
use crate::bytes::{
    enc_u8, enc_u16, enc_u32, enc_u64, enc_uleb, enc_sleb, dec_u8, dec_u16, dec_u32, dec_u32_val,
    dec_u64, dec_uleb64, lemma_dec_enc_u32,
    dec_sleb64, dec_bytes, lemma_concat_parts, lemma_dec_enc_u8, lemma_dec_enc_u16,
    lemma_dec_enc_u64, lemma_dec_enc_uleb64, lemma_dec_enc_sleb64, write_u8, write_u16, write_u32,
    write_u64, write_uleb, write_sleb, Reader,
};
use crate::common::{ReadError, ReadErrorKind};
use crate::wire::{
    enc_tlv, enc_list, dec_list, enc_pair, dec_pair, lemma_dec_tlv_header, lemma_enc_list_push,
    lemma_dec_enc_list, lemma_dec_enc_pair, lemma_uleb_len_u64, lemma_sleb_len_i64, write_tlv,
    write_pair, read_pair,
};

verus! {

// ---------------------------------------------------------------------------
// Basic protocol types

pub type Version = u8;

pub type SessionId = u64;

pub type ObjectId = u64;

/// Signed because the object header travels as chunk -1.
pub type ChunkId = i64;

pub type ObjectType = u8;

pub type ObjectFieldType = u8;

pub const TLV_HOST_INFORMATION: u8 = 0x50;

pub const TLV_OBJECT_HEADER: u8 = 0x51;

pub const TLV_OBJECT_CHUNK: u8 = 0x52;

pub const TLV_OBJECT_SKIP: u8 = 0x53;

pub const TLV_OBJECT_ACK: u8 = 0x30;

pub const TLV_ERROR_MESSAGE: u8 = 0x31;

pub const TLV_OBJECT_ACK_REQUEST: u8 = 0x32;

/// The TLV header: type byte plus announced body length, shared by every
/// transport record.
pub open spec fn dec_tlv_at(s: Seq<u8>, i: int, code: u8) -> Option<(u16, int)> {
    match dec_u8(s, i) {
        Some((c, i1)) => if c == code {
            dec_u16(s, i1)
        } else {
            None
        },
        None => None,
    }
}

// ---------------------------------------------------------------------------
// HostInformation enums

#[derive(Clone, Copy, Debug, PartialEq, Eq, Structural)]
pub enum AckFreq {
    Standard,
    Min,
    Max,
}

pub open spec fn ack_freq_code(a: AckFreq) -> u8 {
    match a {
        AckFreq::Standard => 0x0,
        AckFreq::Min => 0x10,
        AckFreq::Max => 0x11,
    }
}

/// An unknown code falls back to the default frequency.
pub open spec fn ack_freq_from(c: u8) -> AckFreq {
    if c == 0x10 {
        AckFreq::Min
    } else if c == 0x11 {
        AckFreq::Max
    } else {
        AckFreq::Standard
    }
}

#[derive(Clone, Copy, Debug, PartialEq, Eq, Structural)]
pub enum HostOs {
    Linux,
    Windows,
    MacOs,
    FreeBsd,
    Android,
    Ios,
}

pub open spec fn host_os_code(o: HostOs) -> u8 {
    match o {
        HostOs::Linux => 1,
        HostOs::Windows => 2,
        HostOs::MacOs => 3,
        HostOs::FreeBsd => 4,
        HostOs::Android => 5,
        HostOs::Ios => 6,
    }
}

/// An unknown code falls back to Linux.
pub open spec fn host_os_from(c: u8) -> HostOs {
    if c == 2 {
        HostOs::Windows
    } else if c == 3 {
        HostOs::MacOs
    } else if c == 4 {
        HostOs::FreeBsd
    } else if c == 5 {
        HostOs::Android
    } else if c == 6 {
        HostOs::Ios
    } else {
        HostOs::Linux
    }
}

#[derive(Clone, Copy, Debug, PartialEq, Eq, Structural)]
pub enum ApplicationId {
    Soft,
}

pub open spec fn application_id_code(a: ApplicationId) -> u8 {
    match a {
        ApplicationId::Soft => 1,
    }
}

/// An unknown application id is a parse error.
pub open spec fn application_id_from(c: u8) -> Option<ApplicationId> {
    if c == 1 {
        Some(ApplicationId::Soft)
    } else {
        None
    }
}

// ---------------------------------------------------------------------------
// HostInformation

#[derive(Clone, Copy, Debug, PartialEq, Eq, Structural)]
pub struct HostInformation {
    pub rcv_window_size: u64,
    pub out_of_order_limit: u8,
    pub ack_freq: AckFreq,
    pub os: HostOs,
    pub app: ApplicationId,
    pub app_ver: Version,
}

impl Default for HostInformation {
    fn default() -> (r: Self)
        ensures
            r == (HostInformation {
                rcv_window_size: 0,
                out_of_order_limit: 0,
                ack_freq: AckFreq::Standard,
                os: HostOs::Linux,
                app: ApplicationId::Soft,
                app_ver: 0,
            }),
    {
        HostInformation {
            rcv_window_size: 0,
            out_of_order_limit: 0,
            ack_freq: AckFreq::Standard,
            os: HostOs::Linux,
            app: ApplicationId::Soft,
            app_ver: 0,
        }
    }
}

pub open spec fn enc_host_information_body(h: HostInformation) -> Seq<u8> {
    enc_uleb(h.rcv_window_size as nat) + enc_u8(h.out_of_order_limit) + enc_u8(
        ack_freq_code(h.ack_freq),
    ) + enc_u8(host_os_code(h.os)) + enc_u8(application_id_code(h.app)) + enc_u8(h.app_ver)
}

pub open spec fn enc_host_information(h: HostInformation) -> Seq<u8> {
    enc_tlv(TLV_HOST_INFORMATION, enc_host_information_body(h))
}

pub open spec fn dec_host_information(s: Seq<u8>, i: int) -> Option<(HostInformation, int)> {
    match dec_tlv_at(s, i, TLV_HOST_INFORMATION) {
        Some((blen, i2)) => match dec_uleb64(s, i2) {
            Some((win, i3)) => match dec_u8(s, i3) {
                Some((ool, i4)) => match dec_u8(s, i4) {
                    Some((ac, i5)) => match dec_u8(s, i5) {
                        Some((osc, i6)) => match dec_u8(s, i6) {
                            Some((apc, i7)) => match application_id_from(apc) {
                                Some(app) => match dec_u8(s, i7) {
                                    Some((ver, i8)) => if i8 - i2 == blen {
                                        Some(
                                            (
                                                HostInformation {
                                                    rcv_window_size: win,
                                                    out_of_order_limit: ool,
                                                    ack_freq: ack_freq_from(ac),
                                                    os: host_os_from(osc),
                                                    app: app,
                                                    app_ver: ver,
                                                },
                                                i8,
                                            ),
                                        )
                                    } else {
                                        None
                                    },
                                    None => None,
                                },
                                None => None,
                            },
                            None => None,
                        },
                        None => None,
                    },
                    None => None,
                },
                None => None,
            },
            None => None,
        },
        None => None,
    }
}

impl HostInformation {
    pub fn write(&self, out: &mut Vec<u8>)
        ensures
            final(out)@ == old(out)@ + enc_host_information(*self),
    {
        let mut body: Vec<u8> = Vec::new();
        write_uleb(&mut body, self.rcv_window_size);
        write_u8(&mut body, self.out_of_order_limit);
        let ac: u8 = match self.ack_freq {
            AckFreq::Standard => 0x0,
            AckFreq::Min => 0x10,
            AckFreq::Max => 0x11,
        };
        write_u8(&mut body, ac);
        let osc: u8 = match self.os {
            HostOs::Linux => 1,
            HostOs::Windows => 2,
            HostOs::MacOs => 3,
            HostOs::FreeBsd => 4,
            HostOs::Android => 5,
            HostOs::Ios => 6,
        };
        write_u8(&mut body, osc);
        let apc: u8 = match self.app {
            ApplicationId::Soft => 1,
        };
        write_u8(&mut body, apc);
        write_u8(&mut body, self.app_ver);
        proof {
            lemma_uleb_len_u64(self.rcv_window_size);
            assert(body@ =~= enc_host_information_body(*self));
        }
        write_tlv(out, TLV_HOST_INFORMATION, &body);
    }

    pub fn read(r: &mut Reader) -> (res: Result<HostInformation, ReadError>)
        ensures
            final(r).data@ == old(r).data@,
    old(r).pos <= final(r).pos <= final(r).data@.len() || final(r).pos == old(r).pos,
            match dec_host_information(old(r).data@, old(r).pos as int) {
                Some((v, j)) => res matches Ok(h) && h == v && final(r).pos == j,
                None => res is Err,
            },
    {
        let code = match r.read_u8() {
            Ok(v) => v,
            Err(e) => {
                return Err(e);
            },
        };
        if code != TLV_HOST_INFORMATION {
            return Err(ReadError::of_kind(ReadErrorKind::UnknownTlvType, "unexpected type byte"));
        }
        let blen = match r.read_u16() {
            Ok(v) => v,
            Err(e) => {
                return Err(e);
            },
        };
        let body_start = r.position();
        let win = match r.read_uleb() {
            Ok(v) => v,
            Err(e) => {
                return Err(e);
            },
        };
        let ool = match r.read_u8() {
            Ok(v) => v,
            Err(e) => {
                return Err(e);
            },
        };
        let ac = match r.read_u8() {
            Ok(v) => v,
            Err(e) => {
                return Err(e);
            },
        };
        let osc = match r.read_u8() {
            Ok(v) => v,
            Err(e) => {
                return Err(e);
            },
        };
        let apc = match r.read_u8() {
            Ok(v) => v,
            Err(e) => {
                return Err(e);
            },
        };
        if apc != 1 {
            return Err(ReadError::of_kind(ReadErrorKind::UnknownApplication, "unknown application"));
        }
        let ver = match r.read_u8() {
            Ok(v) => v,
            Err(e) => {
                return Err(e);
            },
        };
        let body_end = r.position();
        if body_end - body_start != blen as usize {
            return Err(ReadError::of_kind(ReadErrorKind::LengthMismatch, "length mismatch"));
        }
        Ok(
            HostInformation {
                rcv_window_size: win,
                out_of_order_limit: ool,
                ack_freq: if ac == 0x10 {
                    AckFreq::Min
                } else if ac == 0x11 {
                    AckFreq::Max
                } else {
                    AckFreq::Standard
                },
                os: if osc == 2 {
                    HostOs::Windows
                } else if osc == 3 {
                    HostOs::MacOs
                } else if osc == 4 {
                    HostOs::FreeBsd
                } else if osc == 5 {
                    HostOs::Android
                } else if osc == 6 {
                    HostOs::Ios
                } else {
                    HostOs::Linux
                },
                app: ApplicationId::Soft,
                app_ver: ver,
            },
        )
    }
}

pub proof fn lemma_dec_enc_host_information(s: Seq<u8>, i: int, h: HostInformation)
    requires
        0 <= i,
        i + enc_host_information(h).len() <= s.len(),
        s.subrange(i, i + enc_host_information(h).len()) == enc_host_information(h),
    ensures
        dec_host_information(s, i) == Some((h, i + enc_host_information(h).len())),
{
    let body = enc_host_information_body(h);
    lemma_uleb_len_u64(h.rcv_window_size);
    lemma_dec_tlv_header(s, i, TLV_HOST_INFORMATION, body);
    let i2 = i + 3;
    let p1 = enc_uleb(h.rcv_window_size as nat);
    let p2 = enc_u8(h.out_of_order_limit);
    let p3 = enc_u8(ack_freq_code(h.ack_freq));
    let p4 = enc_u8(host_os_code(h.os));
    let p5 = enc_u8(application_id_code(h.app));
    let p6 = enc_u8(h.app_ver);
    lemma_concat_parts(s, i2, p1 + p2 + p3 + p4 + p5, p6);
    lemma_concat_parts(s, i2, p1 + p2 + p3 + p4, p5);
    lemma_concat_parts(s, i2, p1 + p2 + p3, p4);
    lemma_concat_parts(s, i2, p1 + p2, p3);
    lemma_concat_parts(s, i2, p1, p2);
    lemma_dec_enc_uleb64(s, i2, h.rcv_window_size);
    let i3 = i2 + p1.len();
    lemma_dec_enc_u8(s, i3, h.out_of_order_limit);
    lemma_dec_enc_u8(s, i3 + 1, ack_freq_code(h.ack_freq));
    lemma_dec_enc_u8(s, i3 + 2, host_os_code(h.os));
    lemma_dec_enc_u8(s, i3 + 3, application_id_code(h.app));
    lemma_dec_enc_u8(s, i3 + 4, h.app_ver);
}

// ---------------------------------------------------------------------------
// ObjectFieldDescription

#[derive(Clone, Copy, Debug, PartialEq, Eq, Structural)]
pub struct ObjectFieldDescription {
    pub field_type: ObjectFieldType,
    /// Length of the field in chunks.
    pub length: ChunkId,
}

pub open spec fn wf_field_description(fd: ObjectFieldDescription) -> bool {
    fd.length >= 0
}

pub open spec fn enc_field_description(fd: ObjectFieldDescription) -> Seq<u8> {
    enc_u8(fd.field_type) + enc_uleb(fd.length as nat)
}

pub open spec fn dec_field_description(s: Seq<u8>, i: int) -> Option<(
    ObjectFieldDescription,
    int,
)> {
    match dec_u8(s, i) {
        Some((ft, j)) => match dec_uleb64(s, j) {
            Some((n, k)) => if n <= i64::MAX as u64 {
                Some((ObjectFieldDescription { field_type: ft, length: n as i64 }, k))
            } else {
                None
            },
            None => None,
        },
        None => None,
    }
}

/// The element decoder for field description runs.
pub open spec fn field_description_dec() -> spec_fn(Seq<u8>, int) -> Option<(
    ObjectFieldDescription,
    int,
)> {
    |s: Seq<u8>, i: int| dec_field_description(s, i)
}

/// The element encoder for field description runs.
pub open spec fn field_description_enc() -> spec_fn(ObjectFieldDescription) -> Seq<u8> {
    |fd: ObjectFieldDescription| enc_field_description(fd)
}

pub proof fn lemma_dec_enc_field_description(s: Seq<u8>, i: int, fd: ObjectFieldDescription)
    requires
        0 <= i,
        wf_field_description(fd),
        i + enc_field_description(fd).len() <= s.len(),
        s.subrange(i, i + enc_field_description(fd).len()) == enc_field_description(fd),
    ensures
        dec_field_description(s, i) == Some((fd, i + enc_field_description(fd).len())),
{
    lemma_concat_parts(s, i, enc_u8(fd.field_type), enc_uleb(fd.length as nat));
    lemma_dec_enc_u8(s, i, fd.field_type);
    lemma_dec_enc_uleb64(s, i + 1, fd.length as u64);
}

impl ObjectFieldDescription {
    pub fn write(&self, out: &mut Vec<u8>)
        requires
            wf_field_description(*self),
        ensures
            final(out)@ == old(out)@ + enc_field_description(*self),
    {
        write_u8(out, self.field_type);
        write_uleb(out, self.length as u64);
        assert(out@ =~= old(out)@ + enc_field_description(*self));
    }

    pub fn read(r: &mut Reader) -> (res: Result<ObjectFieldDescription, ReadError>)
        ensures
            final(r).data@ == old(r).data@,
    old(r).pos <= final(r).pos <= final(r).data@.len() || final(r).pos == old(r).pos,
            match dec_field_description(old(r).data@, old(r).pos as int) {
                Some((v, j)) => res matches Ok(fd) && fd == v && final(r).pos == j,
                None => res is Err,
            },
    {
        let ft = match r.read_u8() {
            Ok(v) => v,
            Err(e) => {
                return Err(e);
            },
        };
        let n = match r.read_uleb() {
            Ok(v) => v,
            Err(e) => {
                return Err(e);
            },
        };
        if n > i64::MAX as u64 {
            return Err(ReadError::of_kind(ReadErrorKind::Overflow, "field length out of range"));
        }
        Ok(ObjectFieldDescription { field_type: ft, length: n as i64 })
    }
}

/// Reads `count` consecutive field descriptions.
fn read_field_descriptions(r: &mut Reader, count: u8) -> (res: Result<
    Vec<ObjectFieldDescription>,
    ReadError,
>)
    ensures
        final(r).data@ == old(r).data@,
        old(r).pos <= final(r).pos <= final(r).data@.len() || final(r).pos == old(r).pos,
        match dec_list(old(r).data@, old(r).pos as int, count as nat, field_description_dec()) {
            Some((v, j)) => res matches Ok(items) && items@ == v && final(r).pos == j,
            None => res is Err,
        },
{
    let ghost s = r.data@;
    let ghost pos0 = r.pos as int;
    let ghost g = field_description_dec();
    let mut items: Vec<ObjectFieldDescription> = Vec::new();
    let mut k: u8 = 0;
    proof {
        if let Some((rest, e)) = dec_list(s, pos0, count as nat, g) {
            assert(Seq::<ObjectFieldDescription>::empty() + rest =~= rest);
        }
    }
    while k < count
        invariant
            k <= count,
            r.data@ == s,
            s == old(r).data@,
            pos0 == old(r).pos as int,
            g == field_description_dec(),
            pos0 <= r.pos as int <= s.len() || r.pos as int == pos0,
            dec_list(s, pos0, count as nat, g) == (match dec_list(
                s,
                r.pos as int,
                (count - k) as nat,
                g,
            ) {
                Some((rest, e)) => Some((items@ + rest, e)),
                None => None::<(Seq<ObjectFieldDescription>, int)>,
            }),
        decreases count - k,
    {
        let ghost pos_here = r.pos as int;
        let ghost n_left = (count - k) as nat;
        let fd = match ObjectFieldDescription::read(r) {
            Ok(v) => v,
            Err(e) => {
                proof {
                    assert(g(s, pos_here) == dec_field_description(s, pos_here));
                    assert(dec_field_description(s, pos_here) is None);
                    assert(dec_list(s, pos_here, n_left, g) is None);
                }
                return Err(e);
            },
        };
        let ghost old_items = items@;
        items.push(fd);
        proof {
            assert(g(s, pos_here) == dec_field_description(s, pos_here));
            assert(g(s, pos_here) == Some((fd, r.pos as int)));
            assert(items@ == old_items.push(fd));
            match dec_list(s, r.pos as int, (n_left - 1) as nat, g) {
                Some((rest, e)) => {
                    assert(dec_list(s, pos_here, n_left, g) == Some((seq![fd] + rest, e)));
                    assert(old_items + (seq![fd] + rest) =~= items@ + rest);
                },
                None => {
                    assert(dec_list(s, pos_here, n_left, g) is None);
                },
            }
        }
        k = k + 1;
    }
    proof {
        assert(dec_list(s, r.pos as int, 0, g) == Some(
            (Seq::<ObjectFieldDescription>::empty(), r.pos as int),
        ));
        assert(items@ + Seq::<ObjectFieldDescription>::empty() =~= items@);
    }
    Ok(items)
}

// ---------------------------------------------------------------------------
// ObjectHeader

#[derive(Debug)]
pub struct ObjectHeader {
    pub object_id: ObjectId,
    /// Total number of chunks over all fields; LEB128 on the wire.
    pub num_chunks: ChunkId,
    /// Whether the sender requests acknowledgment.
    pub ack_req: bool,
    pub object_type: ObjectType,
    pub fields: Vec<ObjectFieldDescription>,
}

/// Ghost image of an `ObjectHeader`.
pub struct ObjectHeaderV {
    pub object_id: ObjectId,
    pub num_chunks: ChunkId,
    pub ack_req: bool,
    pub object_type: ObjectType,
    pub fields: Seq<ObjectFieldDescription>,
}

impl View for ObjectHeader {
    type V = ObjectHeaderV;

    open spec fn view(&self) -> ObjectHeaderV {
        ObjectHeaderV {
            object_id: self.object_id,
            num_chunks: self.num_chunks,
            ack_req: self.ack_req,
            object_type: self.object_type,
            fields: self.fields@,
        }
    }
}

pub open spec fn wf_object_header(h: ObjectHeaderV) -> bool {
    &&& h.num_chunks >= 0
    &&& h.fields.len() <= 255
    &&& forall|k: int| 0 <= k < h.fields.len() ==> wf_field_description(#[trigger] h.fields[k])
}

pub open spec fn enc_object_header_body(h: ObjectHeaderV) -> Seq<u8> {
    enc_u64(h.object_id) + enc_uleb(h.num_chunks as nat) + enc_u8(
        if h.ack_req {
            0x80
        } else {
            0
        },
    ) + enc_u8(h.object_type) + enc_u8(h.fields.len() as u8) + enc_list(
        h.fields,
        field_description_enc(),
    )
}

pub open spec fn enc_object_header(h: ObjectHeaderV) -> Seq<u8> {
    enc_tlv(TLV_OBJECT_HEADER, enc_object_header_body(h))
}

pub open spec fn dec_object_header(s: Seq<u8>, i: int) -> Option<(ObjectHeaderV, int)> {
    match dec_tlv_at(s, i, TLV_OBJECT_HEADER) {
        Some((blen, i2)) => match dec_u64(s, i2) {
            Some((oid, i3)) => match dec_uleb64(s, i3) {
                Some((nc, i4)) => if nc <= i64::MAX as u64 {
                    match dec_u8(s, i4) {
                        Some((ab, i5)) => match dec_u8(s, i5) {
                            Some((ot, i6)) => match dec_u8(s, i6) {
                                Some((nf, i7)) => match dec_list(
                                    s,
                                    i7,
                                    nf as nat,
                                    field_description_dec(),
                                ) {
                                    Some((fields, i8)) => if i8 - i2 == blen {
                                        Some(
                                            (
                                                ObjectHeaderV {
                                                    object_id: oid,
                                                    num_chunks: nc as i64,
                                                    ack_req: ab == 0x80,
                                                    object_type: ot,
                                                    fields: fields,
                                                },
                                                i8,
                                            ),
                                        )
                                    } else {
                                        None
                                    },
                                    None => None,
                                },
                                None => None,
                            },
                            None => None,
                        },
                        None => None,
                    }
                } else {
                    None
                },
                None => None,
            },
            None => None,
        },
        None => None,
    }
}

impl ObjectHeader {
    pub fn write(&self, out: &mut Vec<u8>)
        requires
            wf_object_header(self@),
        ensures
            final(out)@ == old(out)@ + enc_object_header(self@),
    {
        let mut body: Vec<u8> = Vec::new();
        write_u64(&mut body, self.object_id);
        write_uleb(&mut body, self.num_chunks as u64);
        write_u8(
            &mut body,
            if self.ack_req {
                0x80
            } else {
                0
            },
        );
        write_u8(&mut body, self.object_type);
        write_u8(&mut body, self.fields.len() as u8);
        let ghost prefix = body@;
        let mut k: usize = 0;
        while k < self.fields.len()
            invariant
                k <= self.fields@.len(),
                forall|j: int|
                    0 <= j < self.fields@.len() ==> wf_field_description(#[trigger] self.fields@[j]),
                body@ == prefix + enc_list(self.fields@.subrange(0, k as int), field_description_enc()),
            decreases self.fields@.len() - k,
        {
            self.fields[k].write(&mut body);
            proof {
                lemma_enc_list_push(
                    self.fields@.subrange(0, k as int),
                    self.fields@[k as int],
                    field_description_enc(),
                );
                assert(self.fields@.subrange(0, k as int).push(self.fields@[k as int])
                    =~= self.fields@.subrange(0, k as int + 1));
                assert(body@ =~= prefix + enc_list(
                    self.fields@.subrange(0, k as int + 1),
                    field_description_enc(),
                ));
            }
            k = k + 1;
        }
        proof {
            assert(self.fields@.subrange(0, self.fields@.len() as int) =~= self.fields@);
            lemma_uleb_len_u64(self.num_chunks as u64);
            lemma_field_list_len_bound(self.fields@);
            assert(body@ =~= enc_object_header_body(self@));
        }
        write_tlv(out, TLV_OBJECT_HEADER, &body);
    }

    pub fn read(r: &mut Reader) -> (res: Result<ObjectHeader, ReadError>)
        ensures
            final(r).data@ == old(r).data@,
    old(r).pos <= final(r).pos <= final(r).data@.len() || final(r).pos == old(r).pos,
            match dec_object_header(old(r).data@, old(r).pos as int) {
                Some((v, j)) => res matches Ok(h) && h@ == v && final(r).pos == j,
                None => res is Err,
            },
    {
        let code = match r.read_u8() {
            Ok(v) => v,
            Err(e) => {
                return Err(e);
            },
        };
        if code != TLV_OBJECT_HEADER {
            return Err(ReadError::of_kind(ReadErrorKind::UnknownTlvType, "unexpected type byte"));
        }
        let blen = match r.read_u16() {
            Ok(v) => v,
            Err(e) => {
                return Err(e);
            },
        };
        let body_start = r.position();
        let oid = match r.read_u64() {
            Ok(v) => v,
            Err(e) => {
                return Err(e);
            },
        };
        let nc = match r.read_uleb() {
            Ok(v) => v,
            Err(e) => {
                return Err(e);
            },
        };
        if nc > i64::MAX as u64 {
            return Err(ReadError::of_kind(ReadErrorKind::Overflow, "chunk count out of range"));
        }
        let ab = match r.read_u8() {
            Ok(v) => v,
            Err(e) => {
                return Err(e);
            },
        };
        let ot = match r.read_u8() {
            Ok(v) => v,
            Err(e) => {
                return Err(e);
            },
        };
        let nf = match r.read_u8() {
            Ok(v) => v,
            Err(e) => {
                return Err(e);
            },
        };
        let fields = match read_field_descriptions(r, nf) {
            Ok(v) => v,
            Err(e) => {
                return Err(e);
            },
        };
        let body_end = r.position();
        if body_end - body_start != blen as usize {
            return Err(ReadError::of_kind(ReadErrorKind::LengthMismatch, "length mismatch"));
        }
        Ok(
            ObjectHeader {
                object_id: oid,
                num_chunks: nc as i64,
                ack_req: ab == 0x80,
                object_type: ot,
                fields,
            },
        )
    }
}

/// A run of at most 255 field descriptions is far below the 64 KiB body
/// limit.
pub proof fn lemma_field_list_len_bound(fields: Seq<ObjectFieldDescription>)
    requires
        forall|k: int| 0 <= k < fields.len() ==> wf_field_description(#[trigger] fields[k]),
    ensures
        enc_list(fields, field_description_enc()).len() <= fields.len() * 11,
    decreases fields.len(),
{
    if fields.len() > 0 {
        assert forall|k: int| 0 <= k < fields.skip(1).len() implies wf_field_description(
            #[trigger] fields.skip(1)[k],
        ) by {
            assert(fields.skip(1)[k] == fields[k + 1]);
        }
        lemma_field_list_len_bound(fields.skip(1));
        lemma_uleb_len_u64(fields[0].length as u64);
        assert(enc_field_description(fields[0]).len() <= 11);
    }
}

pub proof fn lemma_dec_enc_object_header(s: Seq<u8>, i: int, h: ObjectHeaderV)
    requires
        0 <= i,
        wf_object_header(h),
        i + enc_object_header(h).len() <= s.len(),
        s.subrange(i, i + enc_object_header(h).len()) == enc_object_header(h),
    ensures
        dec_object_header(s, i) == Some((h, i + enc_object_header(h).len())),
{
    let body = enc_object_header_body(h);
    lemma_uleb_len_u64(h.num_chunks as u64);
    lemma_field_list_len_bound(h.fields);
    lemma_dec_tlv_header(s, i, TLV_OBJECT_HEADER, body);
    let i2 = i + 3;
    let p1 = enc_u64(h.object_id);
    let p2 = enc_uleb(h.num_chunks as nat);
    let p3 = enc_u8(
        if h.ack_req {
            0x80
        } else {
            0
        },
    );
    let p4 = enc_u8(h.object_type);
    let p5 = enc_u8(h.fields.len() as u8);
    let p6 = enc_list(h.fields, field_description_enc());
    lemma_concat_parts(s, i2, p1 + p2 + p3 + p4 + p5, p6);
    lemma_concat_parts(s, i2, p1 + p2 + p3 + p4, p5);
    lemma_concat_parts(s, i2, p1 + p2 + p3, p4);
    lemma_concat_parts(s, i2, p1 + p2, p3);
    lemma_concat_parts(s, i2, p1, p2);
    lemma_dec_enc_u64(s, i2, h.object_id);
    let i3 = i2 + 8;
    lemma_dec_enc_uleb64(s, i3, h.num_chunks as u64);
    let i4 = i3 + p2.len();
    lemma_dec_enc_u8(
        s,
        i4,
        if h.ack_req {
            0x80
        } else {
            0
        },
    );
    lemma_dec_enc_u8(s, i4 + 1, h.object_type);
    lemma_dec_enc_u8(s, i4 + 2, h.fields.len() as u8);
    let i7 = i4 + 3;
    assert forall|v: ObjectFieldDescription, j: int|
        #![trigger field_description_dec()(s, j), field_description_enc()(v)]
        wf_field_description(v) && 0 <= j && j + field_description_enc()(v).len() <= s.len()
            && s.subrange(j, j + field_description_enc()(v).len() as int)
            == field_description_enc()(v) implies field_description_dec()(s, j) == Some(
        (v, j + field_description_enc()(v).len() as int),
    ) by {
        lemma_dec_enc_field_description(s, j, v);
    }
    lemma_dec_enc_list(
        s,
        i7,
        h.fields,
        field_description_enc(),
        field_description_dec(),
        |fd: ObjectFieldDescription| wf_field_description(fd),
    );
    assert(h.ack_req ==> (0x80u8 == 0x80));
    assert(!h.ack_req ==> (0u8 != 0x80));
}

// ---------------------------------------------------------------------------
// ObjectSkip

#[derive(Clone, Copy, Debug, PartialEq, Eq, Structural)]
pub struct ObjectSkip {
    pub object_id: ObjectId,
    /// The chunk at which the sender should resume.
    pub skip_to: ChunkId,
}

pub open spec fn enc_object_skip_body(v: ObjectSkip) -> Seq<u8> {
    enc_u64(v.object_id) + enc_sleb(v.skip_to as int)
}

pub open spec fn enc_object_skip(v: ObjectSkip) -> Seq<u8> {
    enc_tlv(TLV_OBJECT_SKIP, enc_object_skip_body(v))
}

pub open spec fn dec_object_skip(s: Seq<u8>, i: int) -> Option<(ObjectSkip, int)> {
    match dec_tlv_at(s, i, TLV_OBJECT_SKIP) {
        Some((blen, i2)) => match dec_u64(s, i2) {
            Some((oid, i3)) => match dec_sleb64(s, i3) {
                Some((cid, i4)) => if i4 - i2 == blen {
                    Some((ObjectSkip { object_id: oid, skip_to: cid }, i4))
                } else {
                    None
                },
                None => None,
            },
            None => None,
        },
        None => None,
    }
}

impl ObjectSkip {
    pub fn write(&self, out: &mut Vec<u8>)
        ensures
            final(out)@ == old(out)@ + enc_object_skip(*self),
    {
        let mut body: Vec<u8> = Vec::new();
        write_u64(&mut body, self.object_id);
        write_sleb(&mut body, self.skip_to);
        proof {
            lemma_sleb_len_i64(self.skip_to);
            assert(body@ =~= enc_object_skip_body(*self));
        }
        write_tlv(out, TLV_OBJECT_SKIP, &body);
    }

    pub fn read(r: &mut Reader) -> (res: Result<ObjectSkip, ReadError>)
        ensures
            final(r).data@ == old(r).data@,
    old(r).pos <= final(r).pos <= final(r).data@.len() || final(r).pos == old(r).pos,
            match dec_object_skip(old(r).data@, old(r).pos as int) {
                Some((v, j)) => res matches Ok(x) && x == v && final(r).pos == j,
                None => res is Err,
            },
    {
        let code = match r.read_u8() {
            Ok(v) => v,
            Err(e) => {
                return Err(e);
            },
        };
        if code != TLV_OBJECT_SKIP {
            return Err(ReadError::of_kind(ReadErrorKind::UnknownTlvType, "unexpected type byte"));
        }
        let blen = match r.read_u16() {
            Ok(v) => v,
            Err(e) => {
                return Err(e);
            },
        };
        let body_start = r.position();
        let oid = match r.read_u64() {
            Ok(v) => v,
            Err(e) => {
                return Err(e);
            },
        };
        let cid = match r.read_sleb() {
            Ok(v) => v,
            Err(e) => {
                return Err(e);
            },
        };
        let body_end = r.position();
        if body_end - body_start != blen as usize {
            return Err(ReadError::of_kind(ReadErrorKind::LengthMismatch, "length mismatch"));
        }
        Ok(ObjectSkip { object_id: oid, skip_to: cid })
    }
}

pub proof fn lemma_dec_enc_object_skip(s: Seq<u8>, i: int, v: ObjectSkip)
    requires
        0 <= i,
        i + enc_object_skip(v).len() <= s.len(),
        s.subrange(i, i + enc_object_skip(v).len()) == enc_object_skip(v),
    ensures
        dec_object_skip(s, i) == Some((v, i + enc_object_skip(v).len())),
{
    let body = enc_object_skip_body(v);
    lemma_sleb_len_i64(v.skip_to);
    lemma_dec_tlv_header(s, i, TLV_OBJECT_SKIP, body);
    let i2 = i + 3;
    lemma_concat_parts(s, i2, enc_u64(v.object_id), enc_sleb(v.skip_to as int));
    lemma_dec_enc_u64(s, i2, v.object_id);
    lemma_dec_enc_sleb64(s, i2 + 8, v.skip_to);
}

// ---------------------------------------------------------------------------
// ObjectChunk

/// The packed 16-bit chunk word: `more_chunks`, `ack_required`, three
/// reserved bits, and the payload size plus one in the low 11 bits.
pub open spec fn chunk_flags(more: bool, ack: bool, data_len: nat) -> u16 {
    (if more {
        0x8000u16
    } else {
        0u16
    }) | (if ack {
        0x4000u16
    } else {
        0u16
    }) | ((data_len + 1) as u16)
}

pub proof fn lemma_chunk_flags(more: bool, ack: bool, data_len: nat)
    requires
        data_len <= 2046,
    ensures
        (chunk_flags(more, ack, data_len) & 0x8000u16 != 0) == more,
        (chunk_flags(more, ack, data_len) & 0x4000u16 != 0) == ack,
        chunk_flags(more, ack, data_len) & 0x7FFu16 == (data_len + 1) as u16,
{
    let m: u16 = if more {
        0x8000
    } else {
        0
    };
    let a: u16 = if ack {
        0x4000
    } else {
        0
    };
    let sz: u16 = (data_len + 1) as u16;
    assert((m == 0x8000 || m == 0) && (a == 0x4000 || a == 0) && 1 <= sz <= 0x7ff ==> (((m | a
        | sz) & 0x8000u16 != 0) == (m == 0x8000) && ((m | a | sz) & 0x4000u16 != 0) == (a == 0x4000)
        && (m | a | sz) & 0x7FFu16 == sz)) by (bit_vector);
}

#[derive(Debug)]
pub struct ObjectChunk {
    pub object_id: ObjectId,
    /// Signed LEB128 on the wire; -1 denotes the object header.
    pub chunk_id: ChunkId,
    pub more_chunks: bool,
    pub ack_required: bool,
    pub num_enclosed_msgs: u8,
    pub data: Vec<u8>,
}

/// Ghost image of an `ObjectChunk`.
pub struct ObjectChunkV {
    pub object_id: ObjectId,
    pub chunk_id: ChunkId,
    pub more_chunks: bool,
    pub ack_required: bool,
    pub num_enclosed_msgs: u8,
    pub data: Seq<u8>,
}

impl View for ObjectChunk {
    type V = ObjectChunkV;

    open spec fn view(&self) -> ObjectChunkV {
        ObjectChunkV {
            object_id: self.object_id,
            chunk_id: self.chunk_id,
            more_chunks: self.more_chunks,
            ack_required: self.ack_required,
            num_enclosed_msgs: self.num_enclosed_msgs,
            data: self.data@,
        }
    }
}

/// The 11-bit size-plus-one field caps a chunk payload at 2046 bytes.
pub open spec fn wf_object_chunk(c: ObjectChunkV) -> bool {
    c.data.len() <= 2046
}

pub open spec fn enc_object_chunk_body(c: ObjectChunkV) -> Seq<u8> {
    enc_u64(c.object_id) + enc_sleb(c.chunk_id as int) + enc_u16(
        chunk_flags(c.more_chunks, c.ack_required, c.data.len()),
    ) + enc_u8(c.num_enclosed_msgs) + c.data
}

pub open spec fn enc_object_chunk(c: ObjectChunkV) -> Seq<u8> {
    enc_tlv(TLV_OBJECT_CHUNK, enc_object_chunk_body(c))
}

pub open spec fn dec_object_chunk(s: Seq<u8>, i: int) -> Option<(ObjectChunkV, int)> {
    match dec_tlv_at(s, i, TLV_OBJECT_CHUNK) {
        Some((blen, i2)) => match dec_u64(s, i2) {
            Some((oid, i3)) => match dec_sleb64(s, i3) {
                Some((cid, i4)) => match dec_u16(s, i4) {
                    Some((w, i5)) => match dec_u8(s, i5) {
                        Some((nm, i6)) => if w & 0x7FFu16 >= 1 {
                            match dec_bytes(s, i6, (w & 0x7FFu16) - 1) {
                                Some((data, i7)) => if i7 - i2 == blen {
                                    Some(
                                        (
                                            ObjectChunkV {
                                                object_id: oid,
                                                chunk_id: cid,
                                                more_chunks: w & 0x8000u16 != 0,
                                                ack_required: w & 0x4000u16 != 0,
                                                num_enclosed_msgs: nm,
                                                data: data,
                                            },
                                            i7,
                                        ),
                                    )
                                } else {
                                    None
                                },
                                None => None,
                            }
                        } else {
                            None
                        },
                        None => None,
                    },
                    None => None,
                },
                None => None,
            },
            None => None,
        },
        None => None,
    }
}

impl ObjectChunk {
    pub fn write(&self, out: &mut Vec<u8>)
        requires
            wf_object_chunk(self@),
        ensures
            final(out)@ == old(out)@ + enc_object_chunk(self@),
    {
        let mut body: Vec<u8> = Vec::new();
        write_u64(&mut body, self.object_id);
        write_sleb(&mut body, self.chunk_id);
        let w: u16 = (if self.more_chunks {
            0x8000u16
        } else {
            0u16
        }) | (if self.ack_required {
            0x4000u16
        } else {
            0u16
        }) | ((self.data.len() + 1) as u16);
        write_u16(&mut body, w);
        write_u8(&mut body, self.num_enclosed_msgs);
        let mut k: usize = 0;
        let ghost mid = body@;
        while k < self.data.len()
            invariant
                k <= self.data@.len(),
                body@ == mid + self.data@.subrange(0, k as int),
            decreases self.data@.len() - k,
        {
            body.push(self.data[k]);
            assert(body@ =~= mid + self.data@.subrange(0, k as int + 1));
            k = k + 1;
        }
        proof {
            assert(self.data@.subrange(0, self.data@.len() as int) =~= self.data@);
            lemma_sleb_len_i64(self.chunk_id);
            assert(body@ =~= enc_object_chunk_body(self@));
        }
        write_tlv(out, TLV_OBJECT_CHUNK, &body);
    }

    pub fn read(r: &mut Reader) -> (res: Result<ObjectChunk, ReadError>)
        ensures
            final(r).data@ == old(r).data@,
            old(r).pos <= final(r).pos <= final(r).data@.len() || final(r).pos == old(r).pos,
            match dec_object_chunk(old(r).data@, old(r).pos as int) {
                Some((v, j)) => res matches Ok(c) && c@ == v && final(r).pos == j,
                None => res is Err,
            },
    {
        let code = match r.read_u8() {
            Ok(v) => v,
            Err(e) => {
                return Err(e);
            },
        };
        if code != TLV_OBJECT_CHUNK {
            return Err(ReadError::of_kind(ReadErrorKind::UnknownTlvType, "unexpected type byte"));
        }
        let blen = match r.read_u16() {
            Ok(v) => v,
            Err(e) => {
                return Err(e);
            },
        };
        let body_start = r.position();
        let oid = match r.read_u64() {
            Ok(v) => v,
            Err(e) => {
                return Err(e);
            },
        };
        let cid = match r.read_sleb() {
            Ok(v) => v,
            Err(e) => {
                return Err(e);
            },
        };
        let w = match r.read_u16() {
            Ok(v) => v,
            Err(e) => {
                return Err(e);
            },
        };
        let nm = match r.read_u8() {
            Ok(v) => v,
            Err(e) => {
                return Err(e);
            },
        };
        let size = w & 0x7FFu16;
        if size < 1 {
            return Err(ReadError::of_kind(ReadErrorKind::LengthMismatch, "empty chunk size field"));
        }
        let data = match r.read_bytes((size - 1) as usize) {
            Ok(v) => v,
            Err(e) => {
                return Err(e);
            },
        };
        let body_end = r.position();
        if body_end - body_start != blen as usize {
            return Err(ReadError::of_kind(ReadErrorKind::LengthMismatch, "length mismatch"));
        }
        Ok(
            ObjectChunk {
                object_id: oid,
                chunk_id: cid,
                more_chunks: w & 0x8000u16 != 0,
                ack_required: w & 0x4000u16 != 0,
                num_enclosed_msgs: nm,
                data,
            },
        )
    }
}

pub proof fn lemma_dec_enc_object_chunk(s: Seq<u8>, i: int, c: ObjectChunkV)
    requires
        0 <= i,
        wf_object_chunk(c),
        i + enc_object_chunk(c).len() <= s.len(),
        s.subrange(i, i + enc_object_chunk(c).len()) == enc_object_chunk(c),
    ensures
        dec_object_chunk(s, i) == Some((c, i + enc_object_chunk(c).len())),
{
    let body = enc_object_chunk_body(c);
    lemma_sleb_len_i64(c.chunk_id);
    lemma_dec_tlv_header(s, i, TLV_OBJECT_CHUNK, body);
    let i2 = i + 3;
    let w = chunk_flags(c.more_chunks, c.ack_required, c.data.len());
    let p1 = enc_u64(c.object_id);
    let p2 = enc_sleb(c.chunk_id as int);
    let p3 = enc_u16(w);
    let p4 = enc_u8(c.num_enclosed_msgs);
    let p5 = c.data;
    lemma_concat_parts(s, i2, p1 + p2 + p3 + p4, p5);
    lemma_concat_parts(s, i2, p1 + p2 + p3, p4);
    lemma_concat_parts(s, i2, p1 + p2, p3);
    lemma_concat_parts(s, i2, p1, p2);
    lemma_dec_enc_u64(s, i2, c.object_id);
    let i3 = i2 + 8;
    lemma_dec_enc_sleb64(s, i3, c.chunk_id);
    let i4 = i3 + p2.len();
    lemma_dec_enc_u16(s, i4, w);
    lemma_dec_enc_u8(s, i4 + 2, c.num_enclosed_msgs);
    lemma_chunk_flags(c.more_chunks, c.ack_required, c.data.len());
    assert(s.subrange(i4 + 3, i4 + 3 + c.data.len()) == c.data);
}

// ---------------------------------------------------------------------------
// Pair runs shared by the acknowledgment records

/// The element encoder for (object id, chunk id) runs.
pub open spec fn pair_enc() -> spec_fn((u64, i64)) -> Seq<u8> {
    |p: (u64, i64)| enc_pair(p)
}

/// The element decoder for (object id, chunk id) runs.
pub open spec fn pair_dec() -> spec_fn(Seq<u8>, int) -> Option<((u64, i64), int)> {
    |s: Seq<u8>, i: int| dec_pair(s, i)
}

/// Reads `count` consecutive (object id, chunk id) pairs.
pub(crate) fn read_pairs(r: &mut Reader, count: u8) -> (res: Result<Vec<(u64, i64)>, ReadError>)
    ensures
        final(r).data@ == old(r).data@,
        old(r).pos <= final(r).pos <= final(r).data@.len() || final(r).pos == old(r).pos,
        match dec_list(old(r).data@, old(r).pos as int, count as nat, pair_dec()) {
            Some((v, j)) => res matches Ok(items) && items@ == v && final(r).pos == j,
            None => res is Err,
        },
{
    let ghost s = r.data@;
    let ghost pos0 = r.pos as int;
    let ghost g = pair_dec();
    let mut items: Vec<(u64, i64)> = Vec::new();
    let mut k: u8 = 0;
    proof {
        if let Some((rest, e)) = dec_list(s, pos0, count as nat, g) {
            assert(Seq::<(u64, i64)>::empty() + rest =~= rest);
        }
    }
    while k < count
        invariant
            k <= count,
            r.data@ == s,
            s == old(r).data@,
            pos0 == old(r).pos as int,
            g == pair_dec(),
            pos0 <= r.pos as int <= s.len() || r.pos as int == pos0,
            dec_list(s, pos0, count as nat, g) == (match dec_list(
                s,
                r.pos as int,
                (count - k) as nat,
                g,
            ) {
                Some((rest, e)) => Some((items@ + rest, e)),
                None => None::<(Seq<(u64, i64)>, int)>,
            }),
        decreases count - k,
    {
        let ghost pos_here = r.pos as int;
        let ghost n_left = (count - k) as nat;
        let p = match read_pair(r) {
            Ok(v) => v,
            Err(e) => {
                proof {
                    assert(g(s, pos_here) == dec_pair(s, pos_here));
                    assert(dec_list(s, pos_here, n_left, g) is None);
                }
                return Err(e);
            },
        };
        let ghost old_items = items@;
        items.push(p);
        proof {
            assert(g(s, pos_here) == dec_pair(s, pos_here));
            assert(g(s, pos_here) == Some((p, r.pos as int)));
            assert(items@ == old_items.push(p));
            match dec_list(s, r.pos as int, (n_left - 1) as nat, g) {
                Some((rest, e)) => {
                    assert(dec_list(s, pos_here, n_left, g) == Some((seq![p] + rest, e)));
                    assert(old_items + (seq![p] + rest) =~= items@ + rest);
                },
                None => {
                    assert(dec_list(s, pos_here, n_left, g) is None);
                },
            }
        }
        k = k + 1;
    }
    proof {
        assert(dec_list(s, r.pos as int, 0, g) == Some((Seq::<(u64, i64)>::empty(), r.pos as int)));
        assert(items@ + Seq::<(u64, i64)>::empty() =~= items@);
    }
    Ok(items)
}

/// Instantiates the generic run round trip for pair runs.
pub proof fn lemma_dec_enc_pairs(s: Seq<u8>, i: int, items: Seq<(u64, i64)>)
    requires
        0 <= i,
        i + enc_list(items, pair_enc()).len() <= s.len(),
        s.subrange(i, i + enc_list(items, pair_enc()).len()) == enc_list(items, pair_enc()),
    ensures
        dec_list(s, i, items.len() as nat, pair_dec()) == Some(
            (items, i + enc_list(items, pair_enc()).len()),
        ),
{
    assert forall|v: (u64, i64), j: int|
        #![trigger pair_dec()(s, j), pair_enc()(v)]
        0 <= j && j + pair_enc()(v).len() <= s.len() && s.subrange(
            j,
            j + pair_enc()(v).len() as int,
        ) == pair_enc()(v) implies pair_dec()(s, j) == Some(
        (v, j + pair_enc()(v).len() as int),
    ) by {
        lemma_dec_enc_pair(s, j, v);
    }
    lemma_dec_enc_list(s, i, items, pair_enc(), pair_dec(), |v: (u64, i64)| true);
}

/// Every pair encodes to at most 18 bytes.
pub proof fn lemma_pair_list_len_bound(items: Seq<(u64, i64)>)
    ensures
        enc_list(items, pair_enc()).len() <= items.len() * 18,
{
    assert forall|k: int| 0 <= k < items.len() implies (#[trigger] pair_enc()(
        items[k],
    )).len() <= 18 by {
        lemma_sleb_len_i64(items[k].1);
    }
    crate::wire::lemma_enc_list_len_bound(items, pair_enc(), 18);
}

// ---------------------------------------------------------------------------
// ObjectAck

#[derive(Debug)]
pub struct ObjectAck {
    pub acknowledged_object_chunks: Vec<(u64, i64)>,
}

/// Ghost image of an `ObjectAck`.
pub struct ObjectAckV {
    pub acknowledged_object_chunks: Seq<(u64, i64)>,
}

impl View for ObjectAck {
    type V = ObjectAckV;

    open spec fn view(&self) -> ObjectAckV {
        ObjectAckV { acknowledged_object_chunks: self.acknowledged_object_chunks@ }
    }
}

pub open spec fn wf_object_ack(v: ObjectAckV) -> bool {
    v.acknowledged_object_chunks.len() <= 255
}

pub open spec fn enc_object_ack_body(v: ObjectAckV) -> Seq<u8> {
    enc_u8(v.acknowledged_object_chunks.len() as u8) + enc_list(
        v.acknowledged_object_chunks,
        pair_enc(),
    )
}

pub open spec fn enc_object_ack(v: ObjectAckV) -> Seq<u8> {
    enc_tlv(TLV_OBJECT_ACK, enc_object_ack_body(v))
}

pub open spec fn dec_object_ack(s: Seq<u8>, i: int) -> Option<(ObjectAckV, int)> {
    match dec_tlv_at(s, i, TLV_OBJECT_ACK) {
        Some((blen, i2)) => match dec_u8(s, i2) {
            Some((n, i3)) => match dec_list(s, i3, n as nat, pair_dec()) {
                Some((items, i4)) => if i4 - i2 == blen {
                    Some((ObjectAckV { acknowledged_object_chunks: items }, i4))
                } else {
                    None
                },
                None => None,
            },
            None => None,
        },
        None => None,
    }
}

impl ObjectAck {
    pub fn write(&self, out: &mut Vec<u8>)
        requires
            wf_object_ack(self@),
        ensures
            final(out)@ == old(out)@ + enc_object_ack(self@),
    {
        let mut body: Vec<u8> = Vec::new();
        write_u8(&mut body, self.acknowledged_object_chunks.len() as u8);
        let ghost prefix = body@;
        let mut k: usize = 0;
        while k < self.acknowledged_object_chunks.len()
            invariant
                k <= self.acknowledged_object_chunks@.len(),
                body@ == prefix + enc_list(
                    self.acknowledged_object_chunks@.subrange(0, k as int),
                    pair_enc(),
                ),
            decreases self.acknowledged_object_chunks@.len() - k,
        {
            let p = self.acknowledged_object_chunks[k];
            write_pair(&mut body, p.0, p.1);
            proof {
                lemma_enc_list_push(
                    self.acknowledged_object_chunks@.subrange(0, k as int),
                    self.acknowledged_object_chunks@[k as int],
                    pair_enc(),
                );
                assert(self.acknowledged_object_chunks@.subrange(0, k as int).push(
                    self.acknowledged_object_chunks@[k as int],
                ) =~= self.acknowledged_object_chunks@.subrange(0, k as int + 1));
                assert(body@ =~= prefix + enc_list(
                    self.acknowledged_object_chunks@.subrange(0, k as int + 1),
                    pair_enc(),
                ));
            }
            k = k + 1;
        }
        proof {
            assert(self.acknowledged_object_chunks@.subrange(
                0,
                self.acknowledged_object_chunks@.len() as int,
            ) =~= self.acknowledged_object_chunks@);
            lemma_pair_list_len_bound(self.acknowledged_object_chunks@);
            assert(body@ =~= enc_object_ack_body(self@));
        }
        write_tlv(out, TLV_OBJECT_ACK, &body);
    }

    pub fn read(r: &mut Reader) -> (res: Result<ObjectAck, ReadError>)
        ensures
            final(r).data@ == old(r).data@,
            old(r).pos <= final(r).pos <= final(r).data@.len() || final(r).pos == old(r).pos,
            match dec_object_ack(old(r).data@, old(r).pos as int) {
                Some((v, j)) => res matches Ok(x) && x@ == v && final(r).pos == j,
                None => res is Err,
            },
    {
        let code = match r.read_u8() {
            Ok(v) => v,
            Err(e) => {
                return Err(e);
            },
        };
        if code != TLV_OBJECT_ACK {
            return Err(ReadError::of_kind(ReadErrorKind::UnknownTlvType, "unexpected type byte"));
        }
        let blen = match r.read_u16() {
            Ok(v) => v,
            Err(e) => {
                return Err(e);
            },
        };
        let body_start = r.position();
        let n = match r.read_u8() {
            Ok(v) => v,
            Err(e) => {
                return Err(e);
            },
        };
        let items = match read_pairs(r, n) {
            Ok(v) => v,
            Err(e) => {
                return Err(e);
            },
        };
        let body_end = r.position();
        if body_end - body_start != blen as usize {
            return Err(ReadError::of_kind(ReadErrorKind::LengthMismatch, "length mismatch"));
        }
        Ok(ObjectAck { acknowledged_object_chunks: items })
    }
}

pub proof fn lemma_dec_enc_object_ack(s: Seq<u8>, i: int, v: ObjectAckV)
    requires
        0 <= i,
        wf_object_ack(v),
        i + enc_object_ack(v).len() <= s.len(),
        s.subrange(i, i + enc_object_ack(v).len()) == enc_object_ack(v),
    ensures
        dec_object_ack(s, i) == Some((v, i + enc_object_ack(v).len())),
{
    let body = enc_object_ack_body(v);
    lemma_pair_list_len_bound(v.acknowledged_object_chunks);
    lemma_dec_tlv_header(s, i, TLV_OBJECT_ACK, body);
    let i2 = i + 3;
    let p1 = enc_u8(v.acknowledged_object_chunks.len() as u8);
    let p2 = enc_list(v.acknowledged_object_chunks, pair_enc());
    lemma_concat_parts(s, i2, p1, p2);
    lemma_dec_enc_u8(s, i2, v.acknowledged_object_chunks.len() as u8);
    lemma_dec_enc_pairs(s, i2 + 1, v.acknowledged_object_chunks);
}

// ---------------------------------------------------------------------------
// ObjectAckRequest

#[derive(Debug)]
pub struct ObjectAckRequest {
    pub req_ack_object_chunks: Vec<(u64, i64)>,
}

/// Ghost image of an `ObjectAckRequest`.
pub struct ObjectAckRequestV {
    pub req_ack_object_chunks: Seq<(u64, i64)>,
}

impl View for ObjectAckRequest {
    type V = ObjectAckRequestV;

    open spec fn view(&self) -> ObjectAckRequestV {
        ObjectAckRequestV { req_ack_object_chunks: self.req_ack_object_chunks@ }
    }
}

pub open spec fn wf_object_ack_request(v: ObjectAckRequestV) -> bool {
    v.req_ack_object_chunks.len() <= 255
}

pub open spec fn enc_object_ack_request_body(v: ObjectAckRequestV) -> Seq<u8> {
    enc_u8(v.req_ack_object_chunks.len() as u8) + enc_list(v.req_ack_object_chunks, pair_enc())
}

pub open spec fn enc_object_ack_request(v: ObjectAckRequestV) -> Seq<u8> {
    enc_tlv(TLV_OBJECT_ACK_REQUEST, enc_object_ack_request_body(v))
}

pub open spec fn dec_object_ack_request(s: Seq<u8>, i: int) -> Option<(ObjectAckRequestV, int)> {
    match dec_tlv_at(s, i, TLV_OBJECT_ACK_REQUEST) {
        Some((blen, i2)) => match dec_u8(s, i2) {
            Some((n, i3)) => match dec_list(s, i3, n as nat, pair_dec()) {
                Some((items, i4)) => if i4 - i2 == blen {
                    Some((ObjectAckRequestV { req_ack_object_chunks: items }, i4))
                } else {
                    None
                },
                None => None,
            },
            None => None,
        },
        None => None,
    }
}

impl ObjectAckRequest {
    pub fn write(&self, out: &mut Vec<u8>)
        requires
            wf_object_ack_request(self@),
        ensures
            final(out)@ == old(out)@ + enc_object_ack_request(self@),
    {
        let mut body: Vec<u8> = Vec::new();
        write_u8(&mut body, self.req_ack_object_chunks.len() as u8);
        let ghost prefix = body@;
        let mut k: usize = 0;
        while k < self.req_ack_object_chunks.len()
            invariant
                k <= self.req_ack_object_chunks@.len(),
                body@ == prefix + enc_list(
                    self.req_ack_object_chunks@.subrange(0, k as int),
                    pair_enc(),
                ),
            decreases self.req_ack_object_chunks@.len() - k,
        {
            let p = self.req_ack_object_chunks[k];
            write_pair(&mut body, p.0, p.1);
            proof {
                lemma_enc_list_push(
                    self.req_ack_object_chunks@.subrange(0, k as int),
                    self.req_ack_object_chunks@[k as int],
                    pair_enc(),
                );
                assert(self.req_ack_object_chunks@.subrange(0, k as int).push(
                    self.req_ack_object_chunks@[k as int],
                ) =~= self.req_ack_object_chunks@.subrange(0, k as int + 1));
                assert(body@ =~= prefix + enc_list(
                    self.req_ack_object_chunks@.subrange(0, k as int + 1),
                    pair_enc(),
                ));
            }
            k = k + 1;
        }
        proof {
            assert(self.req_ack_object_chunks@.subrange(
                0,
                self.req_ack_object_chunks@.len() as int,
            ) =~= self.req_ack_object_chunks@);
            lemma_pair_list_len_bound(self.req_ack_object_chunks@);
            assert(body@ =~= enc_object_ack_request_body(self@));
        }
        write_tlv(out, TLV_OBJECT_ACK_REQUEST, &body);
    }

    pub fn read(r: &mut Reader) -> (res: Result<ObjectAckRequest, ReadError>)
        ensures
            final(r).data@ == old(r).data@,
            old(r).pos <= final(r).pos <= final(r).data@.len() || final(r).pos == old(r).pos,
            match dec_object_ack_request(old(r).data@, old(r).pos as int) {
                Some((v, j)) => res matches Ok(x) && x@ == v && final(r).pos == j,
                None => res is Err,
            },
    {
        let code = match r.read_u8() {
            Ok(v) => v,
            Err(e) => {
                return Err(e);
            },
        };
        if code != TLV_OBJECT_ACK_REQUEST {
            return Err(ReadError::of_kind(ReadErrorKind::UnknownTlvType, "unexpected type byte"));
        }
        let blen = match r.read_u16() {
            Ok(v) => v,
            Err(e) => {
                return Err(e);
            },
        };
        let body_start = r.position();
        let n = match r.read_u8() {
            Ok(v) => v,
            Err(e) => {
                return Err(e);
            },
        };
        let items = match read_pairs(r, n) {
            Ok(v) => v,
            Err(e) => {
                return Err(e);
            },
        };
        let body_end = r.position();
        if body_end - body_start != blen as usize {
            return Err(ReadError::of_kind(ReadErrorKind::LengthMismatch, "length mismatch"));
        }
        Ok(ObjectAckRequest { req_ack_object_chunks: items })
    }
}

pub proof fn lemma_dec_enc_object_ack_request(s: Seq<u8>, i: int, v: ObjectAckRequestV)
    requires
        0 <= i,
        wf_object_ack_request(v),
        i + enc_object_ack_request(v).len() <= s.len(),
        s.subrange(i, i + enc_object_ack_request(v).len()) == enc_object_ack_request(v),
    ensures
        dec_object_ack_request(s, i) == Some((v, i + enc_object_ack_request(v).len())),
{
    let body = enc_object_ack_request_body(v);
    lemma_pair_list_len_bound(v.req_ack_object_chunks);
    lemma_dec_tlv_header(s, i, TLV_OBJECT_ACK_REQUEST, body);
    let i2 = i + 3;
    let p1 = enc_u8(v.req_ack_object_chunks.len() as u8);
    let p2 = enc_list(v.req_ack_object_chunks, pair_enc());
    lemma_concat_parts(s, i2, p1, p2);
    lemma_dec_enc_u8(s, i2, v.req_ack_object_chunks.len() as u8);
    lemma_dec_enc_pairs(s, i2 + 1, v.req_ack_object_chunks);
}

// ---------------------------------------------------------------------------
// ErrorMessage

#[derive(Clone, Copy, Debug, PartialEq, Eq, Structural)]
pub enum ErrorCode {
    NoError,
    ChecksumError,
    UnsupportedVersion,
    SessionUnknown,
    ObjectAbort,
}

pub open spec fn error_code_byte(c: ErrorCode) -> u8 {
    match c {
        ErrorCode::NoError => 0,
        ErrorCode::ChecksumError => 4,
        ErrorCode::UnsupportedVersion => 5,
        ErrorCode::SessionUnknown => 6,
        ErrorCode::ObjectAbort => 8,
    }
}

/// An unknown error code is a parse error.
pub open spec fn error_code_from(b: u8) -> Option<ErrorCode> {
    if b == 0 {
        Some(ErrorCode::NoError)
    } else if b == 4 {
        Some(ErrorCode::ChecksumError)
    } else if b == 5 {
        Some(ErrorCode::UnsupportedVersion)
    } else if b == 6 {
        Some(ErrorCode::SessionUnknown)
    } else if b == 8 {
        Some(ErrorCode::ObjectAbort)
    } else {
        None
    }
}

#[derive(Clone, Copy, Debug, PartialEq, Eq, Structural)]
pub struct MaxMinSupportedVersion {
    pub max_ver: Version,
    pub min_ver: Version,
}

#[derive(Debug)]
pub enum ErrorData {
    UnsupportedVersion(MaxMinSupportedVersion),
    ObjectAbort(Vec<ObjectId>),
    NoDetail,
}

/// Ghost image of an `ErrorData`.
pub enum ErrorDataV {
    UnsupportedVersion(MaxMinSupportedVersion),
    ObjectAbort(Seq<ObjectId>),
    NoDetail,
}

impl View for ErrorData {
    type V = ErrorDataV;

    open spec fn view(&self) -> ErrorDataV {
        match self {
            ErrorData::UnsupportedVersion(x) => ErrorDataV::UnsupportedVersion(*x),
            ErrorData::ObjectAbort(ids) => ErrorDataV::ObjectAbort(ids@),
            ErrorData::NoDetail => ErrorDataV::NoDetail,
        }
    }
}

#[derive(Debug)]
pub struct ErrorMessage {
    pub code: ErrorCode,
    pub detail: ErrorData,
}

/// Ghost image of an `ErrorMessage`.
pub struct ErrorMessageV {
    pub code: ErrorCode,
    pub detail: ErrorDataV,
}

impl View for ErrorMessage {
    type V = ErrorMessageV;

    open spec fn view(&self) -> ErrorMessageV {
        ErrorMessageV { code: self.code, detail: self.detail@ }
    }
}

/// The element encoder for aborted-object-id runs.
pub open spec fn u64_enc() -> spec_fn(u64) -> Seq<u8> {
    |x: u64| enc_u64(x)
}

/// The element decoder for aborted-object-id runs.
pub open spec fn u64_dec() -> spec_fn(Seq<u8>, int) -> Option<(u64, int)> {
    |s: Seq<u8>, i: int| dec_u64(s, i)
}

/// The detail of an error message must match its code.
pub open spec fn wf_error_message(v: ErrorMessageV) -> bool {
    match v.detail {
        ErrorDataV::UnsupportedVersion(x) => v.code == ErrorCode::UnsupportedVersion,
        ErrorDataV::ObjectAbort(ids) => v.code == ErrorCode::ObjectAbort && ids.len() <= 255,
        ErrorDataV::NoDetail => v.code != ErrorCode::UnsupportedVersion && v.code
            != ErrorCode::ObjectAbort,
    }
}

pub open spec fn enc_error_message_body(v: ErrorMessageV) -> Seq<u8> {
    enc_u8(error_code_byte(v.code)) + (match v.detail {
        ErrorDataV::UnsupportedVersion(x) => enc_u8(x.max_ver) + enc_u8(x.min_ver),
        ErrorDataV::ObjectAbort(ids) => enc_u8(ids.len() as u8) + enc_list(ids, u64_enc()),
        ErrorDataV::NoDetail => Seq::<u8>::empty(),
    })
}

pub open spec fn enc_error_message(v: ErrorMessageV) -> Seq<u8> {
    enc_tlv(TLV_ERROR_MESSAGE, enc_error_message_body(v))
}

pub open spec fn dec_error_message(s: Seq<u8>, i: int) -> Option<(ErrorMessageV, int)> {
    match dec_tlv_at(s, i, TLV_ERROR_MESSAGE) {
        Some((blen, i2)) => match dec_u8(s, i2) {
            Some((cb, i3)) => match error_code_from(cb) {
                Some(code) => if code == ErrorCode::UnsupportedVersion {
                    match dec_u8(s, i3) {
                        Some((mx, i4)) => match dec_u8(s, i4) {
                            Some((mn, i5)) => if i5 - i2 == blen {
                                Some(
                                    (
                                        ErrorMessageV {
                                            code,
                                            detail: ErrorDataV::UnsupportedVersion(
                                                MaxMinSupportedVersion { max_ver: mx, min_ver: mn },
                                            ),
                                        },
                                        i5,
                                    ),
                                )
                            } else {
                                None
                            },
                            None => None,
                        },
                        None => None,
                    }
                } else if code == ErrorCode::ObjectAbort {
                    match dec_u8(s, i3) {
                        Some((n, i4)) => match dec_list(s, i4, n as nat, u64_dec()) {
                            Some((ids, i5)) => if i5 - i2 == blen {
                                Some(
                                    (ErrorMessageV { code, detail: ErrorDataV::ObjectAbort(ids) }, i5),
                                )
                            } else {
                                None
                            },
                            None => None,
                        },
                        None => None,
                    }
                } else {
                    if i3 - i2 == blen {
                        Some((ErrorMessageV { code, detail: ErrorDataV::NoDetail }, i3))
                    } else {
                        None
                    }
                },
                None => None,
            },
            None => None,
        },
        None => None,
    }
}

/// Reads `count` consecutive object ids.
fn read_object_ids(r: &mut Reader, count: u8) -> (res: Result<Vec<u64>, ReadError>)
    ensures
        final(r).data@ == old(r).data@,
        old(r).pos <= final(r).pos <= final(r).data@.len() || final(r).pos == old(r).pos,
        match dec_list(old(r).data@, old(r).pos as int, count as nat, u64_dec()) {
            Some((v, j)) => res matches Ok(items) && items@ == v && final(r).pos == j,
            None => res is Err,
        },
{
    let ghost s = r.data@;
    let ghost pos0 = r.pos as int;
    let ghost g = u64_dec();
    let mut items: Vec<u64> = Vec::new();
    let mut k: u8 = 0;
    proof {
        if let Some((rest, e)) = dec_list(s, pos0, count as nat, g) {
            assert(Seq::<u64>::empty() + rest =~= rest);
        }
    }
    while k < count
        invariant
            k <= count,
            r.data@ == s,
            s == old(r).data@,
            pos0 == old(r).pos as int,
            g == u64_dec(),
            pos0 <= r.pos as int <= s.len() || r.pos as int == pos0,
            dec_list(s, pos0, count as nat, g) == (match dec_list(
                s,
                r.pos as int,
                (count - k) as nat,
                g,
            ) {
                Some((rest, e)) => Some((items@ + rest, e)),
                None => None::<(Seq<u64>, int)>,
            }),
        decreases count - k,
    {
        let ghost pos_here = r.pos as int;
        let ghost n_left = (count - k) as nat;
        let x = match r.read_u64() {
            Ok(v) => v,
            Err(e) => {
                proof {
                    assert(g(s, pos_here) == dec_u64(s, pos_here));
                    assert(dec_list(s, pos_here, n_left, g) is None);
                }
                return Err(e);
            },
        };
        let ghost old_items = items@;
        items.push(x);
        proof {
            assert(g(s, pos_here) == dec_u64(s, pos_here));
            assert(g(s, pos_here) == Some((x, r.pos as int)));
            assert(items@ == old_items.push(x));
            match dec_list(s, r.pos as int, (n_left - 1) as nat, g) {
                Some((rest, e)) => {
                    assert(dec_list(s, pos_here, n_left, g) == Some((seq![x] + rest, e)));
                    assert(old_items + (seq![x] + rest) =~= items@ + rest);
                },
                None => {
                    assert(dec_list(s, pos_here, n_left, g) is None);
                },
            }
        }
        k = k + 1;
    }
    proof {
        assert(dec_list(s, r.pos as int, 0, g) == Some((Seq::<u64>::empty(), r.pos as int)));
        assert(items@ + Seq::<u64>::empty() =~= items@);
    }
    Ok(items)
}

impl ErrorMessage {
    pub fn write(&self, out: &mut Vec<u8>)
        requires
            wf_error_message(self@),
        ensures
            final(out)@ == old(out)@ + enc_error_message(self@),
    {
        let mut body: Vec<u8> = Vec::new();
        let cb: u8 = match self.code {
            ErrorCode::NoError => 0,
            ErrorCode::ChecksumError => 4,
            ErrorCode::UnsupportedVersion => 5,
            ErrorCode::SessionUnknown => 6,
            ErrorCode::ObjectAbort => 8,
        };
        write_u8(&mut body, cb);
        match &self.detail {
            ErrorData::UnsupportedVersion(x) => {
                write_u8(&mut body, x.max_ver);
                write_u8(&mut body, x.min_ver);
            },
            ErrorData::ObjectAbort(ids) => {
                write_u8(&mut body, ids.len() as u8);
                let ghost prefix = body@;
                let mut k: usize = 0;
                while k < ids.len()
                    invariant
                        k <= ids@.len(),
                        body@ == prefix + enc_list(ids@.subrange(0, k as int), u64_enc()),
                    decreases ids@.len() - k,
                {
                    write_u64(&mut body, ids[k]);
                    proof {
                        lemma_enc_list_push(ids@.subrange(0, k as int), ids@[k as int], u64_enc());
                        assert(ids@.subrange(0, k as int).push(ids@[k as int]) =~= ids@.subrange(
                            0,
                            k as int + 1,
                        ));
                        assert(body@ =~= prefix + enc_list(
                            ids@.subrange(0, k as int + 1),
                            u64_enc(),
                        ));
                    }
                    k = k + 1;
                }
                proof {
                    assert(ids@.subrange(0, ids@.len() as int) =~= ids@);
                    crate::wire::lemma_enc_list_len_bound(ids@, u64_enc(), 8);
                }
            },
            ErrorData::NoDetail => {},
        }
        proof {
            assert(body@ =~= enc_error_message_body(self@));
        }
        write_tlv(out, TLV_ERROR_MESSAGE, &body);
    }

    pub fn read(r: &mut Reader) -> (res: Result<ErrorMessage, ReadError>)
        ensures
            final(r).data@ == old(r).data@,
            old(r).pos <= final(r).pos <= final(r).data@.len() || final(r).pos == old(r).pos,
            match dec_error_message(old(r).data@, old(r).pos as int) {
                Some((v, j)) => res matches Ok(x) && x@ == v && final(r).pos == j,
                None => res is Err,
            },
    {
        let code = match r.read_u8() {
            Ok(v) => v,
            Err(e) => {
                return Err(e);
            },
        };
        if code != TLV_ERROR_MESSAGE {
            return Err(ReadError::of_kind(ReadErrorKind::UnknownTlvType, "unexpected type byte"));
        }
        let blen = match r.read_u16() {
            Ok(v) => v,
            Err(e) => {
                return Err(e);
            },
        };
        let body_start = r.position();
        let cb = match r.read_u8() {
            Ok(v) => v,
            Err(e) => {
                return Err(e);
            },
        };
        let ecode: ErrorCode = if cb == 0 {
            ErrorCode::NoError
        } else if cb == 4 {
            ErrorCode::ChecksumError
        } else if cb == 5 {
            ErrorCode::UnsupportedVersion
        } else if cb == 6 {
            ErrorCode::SessionUnknown
        } else if cb == 8 {
            ErrorCode::ObjectAbort
        } else {
            return Err(ReadError::of_kind(ReadErrorKind::UnknownErrorCode, "unknown error code"));
        };
        let detail: ErrorData;
        if cb == 5 {
            let mx = match r.read_u8() {
                Ok(v) => v,
                Err(e) => {
                    return Err(e);
                },
            };
            let mn = match r.read_u8() {
                Ok(v) => v,
                Err(e) => {
                    return Err(e);
                },
            };
            detail = ErrorData::UnsupportedVersion(
                MaxMinSupportedVersion { max_ver: mx, min_ver: mn },
            );
        } else if cb == 8 {
            let n = match r.read_u8() {
                Ok(v) => v,
                Err(e) => {
                    return Err(e);
                },
            };
            let ids = match read_object_ids(r, n) {
                Ok(v) => v,
                Err(e) => {
                    return Err(e);
                },
            };
            detail = ErrorData::ObjectAbort(ids);
        } else {
            detail = ErrorData::NoDetail;
        }
        let body_end = r.position();
        if body_end - body_start != blen as usize {
            return Err(ReadError::of_kind(ReadErrorKind::LengthMismatch, "length mismatch"));
        }
        Ok(ErrorMessage { code: ecode, detail })
    }
}

/// Instantiates the generic run round trip for object-id runs.
pub proof fn lemma_dec_enc_object_ids(s: Seq<u8>, i: int, items: Seq<u64>)
    requires
        0 <= i,
        i + enc_list(items, u64_enc()).len() <= s.len(),
        s.subrange(i, i + enc_list(items, u64_enc()).len()) == enc_list(items, u64_enc()),
    ensures
        dec_list(s, i, items.len() as nat, u64_dec()) == Some(
            (items, i + enc_list(items, u64_enc()).len()),
        ),
{
    assert forall|v: u64, j: int|
        #![trigger u64_dec()(s, j), u64_enc()(v)]
        0 <= j && j + u64_enc()(v).len() <= s.len() && s.subrange(j, j + u64_enc()(v).len() as int)
            == u64_enc()(v) implies u64_dec()(s, j) == Some((v, j + u64_enc()(v).len() as int)) by {
        lemma_dec_enc_u64(s, j, v);
    }
    lemma_dec_enc_list(s, i, items, u64_enc(), u64_dec(), |v: u64| true);
}

pub proof fn lemma_dec_enc_error_message(s: Seq<u8>, i: int, v: ErrorMessageV)
    requires
        0 <= i,
        wf_error_message(v),
        i + enc_error_message(v).len() <= s.len(),
        s.subrange(i, i + enc_error_message(v).len()) == enc_error_message(v),
    ensures
        dec_error_message(s, i) == Some((v, i + enc_error_message(v).len())),
{
    let body = enc_error_message_body(v);
    match v.detail {
        ErrorDataV::ObjectAbort(ids) => {
            crate::wire::lemma_enc_list_len_bound(ids, u64_enc(), 8);
        },
        _ => {},
    }
    lemma_dec_tlv_header(s, i, TLV_ERROR_MESSAGE, body);
    let i2 = i + 3;
    let p1 = enc_u8(error_code_byte(v.code));
    match v.detail {
        ErrorDataV::UnsupportedVersion(x) => {
            let p2 = enc_u8(x.max_ver);
            let p3 = enc_u8(x.min_ver);
            assert(body =~= (p1 + p2) + p3);
            lemma_concat_parts(s, i2, p1 + p2, p3);
            lemma_concat_parts(s, i2, p1, p2);
            lemma_dec_enc_u8(s, i2, error_code_byte(v.code));
            lemma_dec_enc_u8(s, i2 + 1, x.max_ver);
            lemma_dec_enc_u8(s, i2 + 2, x.min_ver);
        },
        ErrorDataV::ObjectAbort(ids) => {
            let p2 = enc_u8(ids.len() as u8);
            let p3 = enc_list(ids, u64_enc());
            assert(body =~= (p1 + p2) + p3);
            lemma_concat_parts(s, i2, p1 + p2, p3);
            lemma_concat_parts(s, i2, p1, p2);
            lemma_dec_enc_u8(s, i2, error_code_byte(v.code));
            lemma_dec_enc_u8(s, i2 + 1, ids.len() as u8);
            lemma_dec_enc_object_ids(s, i2 + 2, ids);
        },
        ErrorDataV::NoDetail => {
            assert(body =~= p1 + Seq::<u8>::empty());
            lemma_concat_parts(s, i2, p1, Seq::<u8>::empty());
            lemma_dec_enc_u8(s, i2, error_code_byte(v.code));
        },
    }
}


// ---------------------------------------------------------------------------
// Tlv: the tagged union of every transport record.

#[derive(Debug)]
pub enum Tlv {
    HostInformation(HostInformation),
    ObjectHeader(ObjectHeader),
    ObjectChunk(ObjectChunk),
    ObjectSkip(ObjectSkip),
    ObjectAck(ObjectAck),
    ErrorMessage(ErrorMessage),
    ObjectAckRequest(ObjectAckRequest),
}

/// Ghost image of a `Tlv`.
pub enum TlvV {
    HostInformation(HostInformation),
    ObjectHeader(ObjectHeaderV),
    ObjectChunk(ObjectChunkV),
    ObjectSkip(ObjectSkip),
    ObjectAck(ObjectAckV),
    ErrorMessage(ErrorMessageV),
    ObjectAckRequest(ObjectAckRequestV),
}

impl View for Tlv {
    type V = TlvV;

    open spec fn view(&self) -> TlvV {
        match self {
            Tlv::HostInformation(x) => TlvV::HostInformation(*x),
            Tlv::ObjectHeader(x) => TlvV::ObjectHeader(x@),
            Tlv::ObjectChunk(x) => TlvV::ObjectChunk(x@),
            Tlv::ObjectSkip(x) => TlvV::ObjectSkip(*x),
            Tlv::ObjectAck(x) => TlvV::ObjectAck(x@),
            Tlv::ErrorMessage(x) => TlvV::ErrorMessage(x@),
            Tlv::ObjectAckRequest(x) => TlvV::ObjectAckRequest(x@),
        }
    }
}

pub open spec fn wf_tlv(t: TlvV) -> bool {
    match t {
        TlvV::HostInformation(x) => true,
        TlvV::ObjectHeader(x) => wf_object_header(x),
        TlvV::ObjectChunk(x) => wf_object_chunk(x),
        TlvV::ObjectSkip(x) => true,
        TlvV::ObjectAck(x) => wf_object_ack(x),
        TlvV::ErrorMessage(x) => wf_error_message(x),
        TlvV::ObjectAckRequest(x) => wf_object_ack_request(x),
    }
}

pub open spec fn enc_transport_tlv(t: TlvV) -> Seq<u8> {
    match t {
        TlvV::HostInformation(x) => enc_host_information(x),
        TlvV::ObjectHeader(x) => enc_object_header(x),
        TlvV::ObjectChunk(x) => enc_object_chunk(x),
        TlvV::ObjectSkip(x) => enc_object_skip(x),
        TlvV::ObjectAck(x) => enc_object_ack(x),
        TlvV::ErrorMessage(x) => enc_error_message(x),
        TlvV::ObjectAckRequest(x) => enc_object_ack_request(x),
    }
}

/// Dispatches on the type byte; an unknown code is a parse error and
/// poisons the whole frame.
pub open spec fn dec_transport_tlv(s: Seq<u8>, i: int) -> Option<(TlvV, int)> {
    match dec_u8(s, i) {
        Some((c, _)) => if c == TLV_HOST_INFORMATION {
            match dec_host_information(s, i) {
                Some((x, j)) => Some((TlvV::HostInformation(x), j)),
                None => None,
            }
        } else if c == TLV_OBJECT_HEADER {
            match dec_object_header(s, i) {
                Some((x, j)) => Some((TlvV::ObjectHeader(x), j)),
                None => None,
            }
        } else if c == TLV_OBJECT_CHUNK {
            match dec_object_chunk(s, i) {
                Some((x, j)) => Some((TlvV::ObjectChunk(x), j)),
                None => None,
            }
        } else if c == TLV_OBJECT_SKIP {
            match dec_object_skip(s, i) {
                Some((x, j)) => Some((TlvV::ObjectSkip(x), j)),
                None => None,
            }
        } else if c == TLV_OBJECT_ACK {
            match dec_object_ack(s, i) {
                Some((x, j)) => Some((TlvV::ObjectAck(x), j)),
                None => None,
            }
        } else if c == TLV_ERROR_MESSAGE {
            match dec_error_message(s, i) {
                Some((x, j)) => Some((TlvV::ErrorMessage(x), j)),
                None => None,
            }
        } else if c == TLV_OBJECT_ACK_REQUEST {
            match dec_object_ack_request(s, i) {
                Some((x, j)) => Some((TlvV::ObjectAckRequest(x), j)),
                None => None,
            }
        } else {
            None
        },
        None => None,
    }
}

/// The element encoder for the TLV run of a frame.
pub open spec fn tlv_enc() -> spec_fn(TlvV) -> Seq<u8> {
    |t: TlvV| enc_transport_tlv(t)
}

/// The element decoder for the TLV run of a frame.
pub open spec fn tlv_dec() -> spec_fn(Seq<u8>, int) -> Option<(TlvV, int)> {
    |s: Seq<u8>, i: int| dec_transport_tlv(s, i)
}

impl Tlv {
    pub fn write(&self, out: &mut Vec<u8>)
        requires
            wf_tlv(self@),
        ensures
            final(out)@ == old(out)@ + enc_transport_tlv(self@),
    {
        match self {
            Tlv::HostInformation(x) => x.write(out),
            Tlv::ObjectHeader(x) => x.write(out),
            Tlv::ObjectChunk(x) => x.write(out),
            Tlv::ObjectSkip(x) => x.write(out),
            Tlv::ObjectAck(x) => x.write(out),
            Tlv::ErrorMessage(x) => x.write(out),
            Tlv::ObjectAckRequest(x) => x.write(out),
        }
    }

    pub fn read(r: &mut Reader) -> (res: Result<Tlv, ReadError>)
        ensures
            final(r).data@ == old(r).data@,
            old(r).pos <= final(r).pos <= final(r).data@.len() || final(r).pos == old(r).pos,
            match dec_transport_tlv(old(r).data@, old(r).pos as int) {
                Some((v, j)) => res matches Ok(t) && t@ == v && final(r).pos == j,
                None => res is Err,
            },
    {
        let code = match r.peek_u8() {
            Ok(v) => v,
            Err(e) => {
                return Err(e);
            },
        };
        if code == TLV_HOST_INFORMATION {
            match HostInformation::read(r) {
                Ok(x) => Ok(Tlv::HostInformation(x)),
                Err(e) => Err(e),
            }
        } else if code == TLV_OBJECT_HEADER {
            match ObjectHeader::read(r) {
                Ok(x) => Ok(Tlv::ObjectHeader(x)),
                Err(e) => Err(e),
            }
        } else if code == TLV_OBJECT_CHUNK {
            match ObjectChunk::read(r) {
                Ok(x) => Ok(Tlv::ObjectChunk(x)),
                Err(e) => Err(e),
            }
        } else if code == TLV_OBJECT_SKIP {
            match ObjectSkip::read(r) {
                Ok(x) => Ok(Tlv::ObjectSkip(x)),
                Err(e) => Err(e),
            }
        } else if code == TLV_OBJECT_ACK {
            match ObjectAck::read(r) {
                Ok(x) => Ok(Tlv::ObjectAck(x)),
                Err(e) => Err(e),
            }
        } else if code == TLV_ERROR_MESSAGE {
            match ErrorMessage::read(r) {
                Ok(x) => Ok(Tlv::ErrorMessage(x)),
                Err(e) => Err(e),
            }
        } else if code == TLV_OBJECT_ACK_REQUEST {
            match ObjectAckRequest::read(r) {
                Ok(x) => Ok(Tlv::ObjectAckRequest(x)),
                Err(e) => Err(e),
            }
        } else {
            Err(ReadError::of_kind(ReadErrorKind::UnknownTlvType, "unknown transport message type code"))
        }
    }
}

pub proof fn lemma_dec_enc_transport_tlv(s: Seq<u8>, i: int, t: TlvV)
    requires
        0 <= i,
        wf_tlv(t),
        i + enc_transport_tlv(t).len() <= s.len(),
        s.subrange(i, i + enc_transport_tlv(t).len()) == enc_transport_tlv(t),
    ensures
        dec_transport_tlv(s, i) == Some((t, i + enc_transport_tlv(t).len())),
{
    let e = enc_transport_tlv(t);
    assert(s.subrange(i, i + e.len())[0] == s[i]);
    match t {
        TlvV::HostInformation(x) => {
            assert(e[0] == TLV_HOST_INFORMATION);
            lemma_dec_enc_host_information(s, i, x);
        },
        TlvV::ObjectHeader(x) => {
            assert(e[0] == TLV_OBJECT_HEADER);
            lemma_dec_enc_object_header(s, i, x);
        },
        TlvV::ObjectChunk(x) => {
            assert(e[0] == TLV_OBJECT_CHUNK);
            lemma_dec_enc_object_chunk(s, i, x);
        },
        TlvV::ObjectSkip(x) => {
            assert(e[0] == TLV_OBJECT_SKIP);
            lemma_dec_enc_object_skip(s, i, x);
        },
        TlvV::ObjectAck(x) => {
            assert(e[0] == TLV_OBJECT_ACK);
            lemma_dec_enc_object_ack(s, i, x);
        },
        TlvV::ErrorMessage(x) => {
            assert(e[0] == TLV_ERROR_MESSAGE);
            lemma_dec_enc_error_message(s, i, x);
        },
        TlvV::ObjectAckRequest(x) => {
            assert(e[0] == TLV_OBJECT_ACK_REQUEST);
            lemma_dec_enc_object_ack_request(s, i, x);
        },
    }
}

/// Reads `count` consecutive transport TLVs.
fn read_tlvs(r: &mut Reader, count: u8) -> (res: Result<Vec<Tlv>, ReadError>)
    ensures
        final(r).data@ == old(r).data@,
        old(r).pos <= final(r).pos <= final(r).data@.len() || final(r).pos == old(r).pos,
        match dec_list(old(r).data@, old(r).pos as int, count as nat, tlv_dec()) {
            Some((v, j)) => res matches Ok(items) && items@.map_values(|t: Tlv| t@) == v
                && final(r).pos == j,
            None => res is Err,
        },
{
    let ghost s = r.data@;
    let ghost pos0 = r.pos as int;
    let ghost g = tlv_dec();
    let mut items: Vec<Tlv> = Vec::new();
    let mut k: u8 = 0;
    proof {
        if let Some((rest, e)) = dec_list(s, pos0, count as nat, g) {
            assert(Seq::<TlvV>::empty() + rest =~= rest);
        }
        assert(items@.map_values(|t: Tlv| t@) =~= Seq::<TlvV>::empty());
    }
    while k < count
        invariant
            k <= count,
            r.data@ == s,
            s == old(r).data@,
            pos0 == old(r).pos as int,
            g == tlv_dec(),
            pos0 <= r.pos as int <= s.len() || r.pos as int == pos0,
            dec_list(s, pos0, count as nat, g) == (match dec_list(
                s,
                r.pos as int,
                (count - k) as nat,
                g,
            ) {
                Some((rest, e)) => Some((items@.map_values(|t: Tlv| t@) + rest, e)),
                None => None::<(Seq<TlvV>, int)>,
            }),
        decreases count - k,
    {
        let ghost pos_here = r.pos as int;
        let ghost n_left = (count - k) as nat;
        let t = match Tlv::read(r) {
            Ok(v) => v,
            Err(e) => {
                proof {
                    assert(g(s, pos_here) == dec_transport_tlv(s, pos_here));
                    assert(dec_list(s, pos_here, n_left, g) is None);
                }
                return Err(e);
            },
        };
        let ghost old_items = items@.map_values(|t2: Tlv| t2@);
        items.push(t);
        proof {
            assert(g(s, pos_here) == dec_transport_tlv(s, pos_here));
            assert(g(s, pos_here) == Some((t@, r.pos as int)));
            assert(items@.map_values(|t2: Tlv| t2@) =~= old_items.push(t@));
            match dec_list(s, r.pos as int, (n_left - 1) as nat, g) {
                Some((rest, e)) => {
                    assert(dec_list(s, pos_here, n_left, g) == Some((seq![t@] + rest, e)));
                    assert(old_items + (seq![t@] + rest) =~= old_items.push(t@) + rest);
                },
                None => {
                    assert(dec_list(s, pos_here, n_left, g) is None);
                },
            }
        }
        k = k + 1;
    }
    proof {
        assert(dec_list(s, r.pos as int, 0, g) == Some((Seq::<TlvV>::empty(), r.pos as int)));
        assert(items@.map_values(|t: Tlv| t@) + Seq::<TlvV>::empty() =~= items@.map_values(
            |t: Tlv| t@,
        ));
    }
    Ok(items)
}

// ---------------------------------------------------------------------------
// MessageFrame: the outermost unit of every datagram.

#[derive(Debug)]
pub struct MessageFrame {
    pub version: Version,
    pub sid: SessionId,
    pub tlvs: Vec<Tlv>,
}

/// Ghost image of a `MessageFrame`.
pub struct MessageFrameV {
    pub version: Version,
    pub sid: SessionId,
    pub tlvs: Seq<TlvV>,
}

impl View for MessageFrame {
    type V = MessageFrameV;

    open spec fn view(&self) -> MessageFrameV {
        MessageFrameV {
            version: self.version,
            sid: self.sid,
            tlvs: self.tlvs@.map_values(|t: Tlv| t@),
        }
    }
}

pub open spec fn wf_frame(f: MessageFrameV) -> bool {
    &&& f.tlvs.len() <= 255
    &&& forall|k: int| 0 <= k < f.tlvs.len() ==> wf_tlv(#[trigger] f.tlvs[k])
}

/// Everything before the trailing checksum.
pub open spec fn enc_frame_body(f: MessageFrameV) -> Seq<u8> {
    enc_u8(f.version) + enc_u64(f.sid) + enc_u8(f.tlvs.len() as u8) + enc_list(f.tlvs, tlv_enc())
}

/// A whole frame: body plus the FNV-1a32 of the body.
pub open spec fn enc_frame(f: MessageFrameV) -> Seq<u8> {
    enc_frame_body(f) + enc_u32(crate::fnv1a32::fnv1a32(enc_frame_body(f)))
}

pub open spec fn dec_frame_body(s: Seq<u8>, i: int) -> Option<((u8, u64, Seq<TlvV>), int)> {
    match dec_u8(s, i) {
        Some((ver, i1)) => match dec_u64(s, i1) {
            Some((sid, i2)) => match dec_u8(s, i2) {
                Some((n, i3)) => match dec_list(s, i3, n as nat, tlv_dec()) {
                    Some((tlvs, i4)) => Some(((ver, sid, tlvs), i4)),
                    None => None,
                },
                None => None,
            },
            None => None,
        },
        None => None,
    }
}

/// A frame parses when its body parses and the transmitted checksum equals
/// the FNV-1a32 of the body bytes as they appear on the wire.
pub open spec fn dec_frame(s: Seq<u8>, i: int) -> Option<(MessageFrameV, int)> {
    match dec_frame_body(s, i) {
        Some(((ver, sid, tlvs), j)) => match dec_u32(s, j) {
            Some((adv, j2)) => if adv == crate::fnv1a32::fnv1a32(s.subrange(i, j)) {
                Some((MessageFrameV { version: ver, sid: sid, tlvs: tlvs }, j2))
            } else {
                None
            },
            None => None,
        },
        None => None,
    }
}

/// The body parses but the transmitted checksum disagrees with the
/// recomputed one.
pub open spec fn frame_checksum_error(s: Seq<u8>, i: int) -> bool {
    match dec_frame_body(s, i) {
        Some((parts, j)) => match dec_u32(s, j) {
            Some((adv, _)) => adv != crate::fnv1a32::fnv1a32(s.subrange(i, j)),
            None => false,
        },
        None => false,
    }
}

impl MessageFrame {
    pub fn write(&self, out: &mut Vec<u8>)
        requires
            wf_frame(self@),
        ensures
            final(out)@ == old(out)@ + enc_frame(self@),
    {
        let start = out.len();
        write_u8(out, self.version);
        write_u64(out, self.sid);
        write_u8(out, self.tlvs.len() as u8);
        let ghost prefix = out@;
        let mut k: usize = 0;
        while k < self.tlvs.len()
            invariant
                k <= self.tlvs@.len(),
                forall|j: int| 0 <= j < self@.tlvs.len() ==> wf_tlv(#[trigger] self@.tlvs[j]),
                self@.tlvs.len() == self.tlvs@.len(),
                forall|j: int| 0 <= j < self.tlvs@.len() ==> self@.tlvs[j] == self.tlvs@[j]@,
                out@ == prefix + enc_list(self@.tlvs.subrange(0, k as int), tlv_enc()),
            decreases self.tlvs@.len() - k,
        {
            self.tlvs[k].write(out);
            proof {
                lemma_enc_list_push(
                    self@.tlvs.subrange(0, k as int),
                    self@.tlvs[k as int],
                    tlv_enc(),
                );
                assert(self@.tlvs.subrange(0, k as int).push(self@.tlvs[k as int])
                    =~= self@.tlvs.subrange(0, k as int + 1));
                assert(out@ =~= prefix + enc_list(self@.tlvs.subrange(0, k as int + 1), tlv_enc()));
            }
            k = k + 1;
        }
        let end = out.len();
        proof {
            assert(self@.tlvs.subrange(0, self@.tlvs.len() as int) =~= self@.tlvs);
            assert(out@ =~= old(out)@ + enc_frame_body(self@));
            assert(out@.subrange(start as int, end as int) =~= enc_frame_body(self@));
        }
        let checksum = crate::fnv1a32::Fnv32a::hash(out, start, end);
        write_u32(out, checksum);
        assert(out@ =~= old(out)@ + enc_frame(self@));
    }

    pub fn read(r: &mut Reader) -> (res: Result<MessageFrame, ReadError>)
        ensures
            final(r).data@ == old(r).data@,
            old(r).pos <= final(r).pos <= final(r).data@.len() || final(r).pos == old(r).pos,
            match dec_frame(old(r).data@, old(r).pos as int) {
                Some((v, j)) => res matches Ok(f) && f@ == v && final(r).pos == j,
                None => res is Err,
            },
            frame_checksum_error(old(r).data@, old(r).pos as int) ==> (res matches Err(e)
                && e.kind == ReadErrorKind::Checksum),
    {
        let start = r.position();
        let ver = match r.read_u8() {
            Ok(v) => v,
            Err(e) => {
                return Err(e);
            },
        };
        let sid = match r.read_u64() {
            Ok(v) => v,
            Err(e) => {
                return Err(e);
            },
        };
        let n = match r.read_u8() {
            Ok(v) => v,
            Err(e) => {
                return Err(e);
            },
        };
        let tlvs = match read_tlvs(r, n) {
            Ok(v) => v,
            Err(e) => {
                return Err(e);
            },
        };
        let end = r.position();
        let computed = crate::fnv1a32::Fnv32a::hash(&r.data, start, end);
        let adv = match r.read_u32() {
            Ok(v) => v,
            Err(e) => {
                return Err(e);
            },
        };
        if adv != computed {
            return Err(ReadError::of_kind(ReadErrorKind::Checksum, "checksum error"));
        }
        Ok(MessageFrame { version: ver, sid, tlvs })
    }
}

/// Helper: the body of a well-formed frame decodes back to its parts.
proof fn lemma_dec_enc_frame_body(s: Seq<u8>, i: int, f: MessageFrameV)
    requires
        0 <= i,
        wf_frame(f),
        i + enc_frame_body(f).len() <= s.len(),
        s.subrange(i, i + enc_frame_body(f).len()) == enc_frame_body(f),
    ensures
        dec_frame_body(s, i) == Some(((f.version, f.sid, f.tlvs), i + enc_frame_body(f).len())),
{
    let p1 = enc_u8(f.version);
    let p2 = enc_u64(f.sid);
    let p3 = enc_u8(f.tlvs.len() as u8);
    let p4 = enc_list(f.tlvs, tlv_enc());
    lemma_concat_parts(s, i, p1 + p2 + p3, p4);
    lemma_concat_parts(s, i, p1 + p2, p3);
    lemma_concat_parts(s, i, p1, p2);
    lemma_dec_enc_u8(s, i, f.version);
    lemma_dec_enc_u64(s, i + 1, f.sid);
    lemma_dec_enc_u8(s, i + 9, f.tlvs.len() as u8);
    assert forall|v: TlvV, j: int|
        #![trigger tlv_dec()(s, j), tlv_enc()(v)]
        wf_tlv(v) && 0 <= j && j + tlv_enc()(v).len() <= s.len() && s.subrange(
            j,
            j + tlv_enc()(v).len() as int,
        ) == tlv_enc()(v) implies tlv_dec()(s, j) == Some((v, j + tlv_enc()(v).len() as int)) by {
        lemma_dec_enc_transport_tlv(s, j, v);
    }
    lemma_dec_enc_list(s, i + 10, f.tlvs, tlv_enc(), tlv_dec(), |v: TlvV| wf_tlv(v));
}

/// Parsing inverts serialization wherever a well-formed frame's encoding is
/// embedded in a byte sequence.
pub proof fn lemma_dec_enc_frame(s: Seq<u8>, i: int, f: MessageFrameV)
    requires
        0 <= i,
        wf_frame(f),
        i + enc_frame(f).len() <= s.len(),
        s.subrange(i, i + enc_frame(f).len()) == enc_frame(f),
    ensures
        dec_frame(s, i) == Some((f, i + enc_frame(f).len())),
{
    let body = enc_frame_body(f);
    let csum = crate::fnv1a32::fnv1a32(body);
    lemma_concat_parts(s, i, body, enc_u32(csum));
    lemma_dec_enc_frame_body(s, i, f);
    let j = i + body.len();
    lemma_dec_enc_u32(s, j, csum);
    assert(s.subrange(i, j) == body);
}

/// For any valid in-memory frame, parsing its serialized bytes gives the
/// frame back, checksum included.
pub proof fn lemma_parse_serialize_frame(f: MessageFrameV)
    requires
        wf_frame(f),
    ensures
        dec_frame(enc_frame(f), 0) == Some((f, enc_frame(f).len() as int)),
{
    let s = enc_frame(f);
    assert(s.subrange(0, s.len() as int) =~= s);
    lemma_dec_enc_frame(s, 0, f);
}

/// A frame whose trailing four checksum bytes are replaced by anything
/// other than the true checksum no longer parses, and it fails precisely
/// as a checksum mismatch.
pub proof fn lemma_checksum_mutation(f: MessageFrameV, d: Seq<u8>)
    requires
        wf_frame(f),
        d.len() == 4,
        d != enc_u32(crate::fnv1a32::fnv1a32(enc_frame_body(f))),
    ensures
        dec_frame(enc_frame_body(f) + d, 0) is None,
        frame_checksum_error(enc_frame_body(f) + d, 0),
{
    let body = enc_frame_body(f);
    let m = body + d;
    assert(m.subrange(0, body.len() as int) =~= body);
    lemma_dec_enc_frame_body(m, 0, f);
    let j = body.len() as int;
    let adv = dec_u32_val(m, j);
    crate::bytes::lemma_enc_dec_u32(m, j);
    assert(m.subrange(j, j + 4) =~= d);
    assert(enc_u32(adv) == d);
    assert(m.subrange(0, j) =~= body);
    if adv == crate::fnv1a32::fnv1a32(body) {
        assert(d == enc_u32(crate::fnv1a32::fnv1a32(enc_frame_body(f))));
        assert(false);
    }
}


} // verus!
