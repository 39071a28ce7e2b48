use vstd::prelude::*;
use crate::bytes::{
    enc_u8, enc_u16, enc_u64, enc_uleb, enc_sleb, dec_u8, dec_u16, dec_u64, dec_uleb64, dec_sleb64,
    dec_bytes, lemma_concat_parts, lemma_dec_enc_u8, lemma_dec_enc_u16, lemma_dec_enc_u64,
    lemma_dec_enc_uleb64, lemma_dec_enc_sleb64, lemma_enc_uleb_len, write_u8, write_u16, write_u64,
    write_uleb, write_sleb, Reader,
};
use crate::common::{ReadError, ReadErrorKind};
use crate::utf8::is_utf8;

verus! {

// ---------------------------------------------------------------------------
// TLV framing: type byte, two-byte length in network order, body.

pub open spec fn enc_tlv(code: u8, body: Seq<u8>) -> Seq<u8> {
    enc_u8(code) + enc_u16(body.len() as u16) + body
}

/// Peels the three header bytes of a TLV whose encoding sits at `i`.
pub proof fn lemma_dec_tlv_header(s: Seq<u8>, i: int, code: u8, body: Seq<u8>)
    requires
        0 <= i,
        body.len() <= 0xFFFF,
        i + 3 + body.len() <= s.len(),
        s.subrange(i, i + 3 + body.len()) == enc_tlv(code, body),
    ensures
        dec_u8(s, i) == Some((code, i + 1)),
        dec_u16(s, i + 1) == Some((body.len() as u16, i + 3)),
        s.subrange(i + 3, i + 3 + body.len()) == body,
{
    let head = enc_u8(code) + enc_u16(body.len() as u16);
    assert(s.subrange(i, i + 3 + body.len()) =~= s.subrange(i, i + head.len() + body.len()));
    lemma_concat_parts(s, i, head, body);
    lemma_concat_parts(s, i, enc_u8(code), enc_u16(body.len() as u16));
    lemma_dec_enc_u8(s, i, code);
    lemma_dec_enc_u16(s, i + 1, body.len() as u16);
}

/// Appends `code`, the body length, and the body bytes.
pub fn write_tlv(out: &mut Vec<u8>, code: u8, body: &Vec<u8>)
    requires
        body@.len() <= 0xFFFF,
    ensures
        final(out)@ == old(out)@ + enc_tlv(code, body@),
{
    write_u8(out, code);
    write_u16(out, body.len() as u16);
    let mut k: usize = 0;
    let ghost mid = out@;
    while k < body.len()
        invariant
            k <= body@.len(),
            out@ == mid + body@.subrange(0, k as int),
        decreases body@.len() - k,
    {
        out.push(body[k]);
        assert(out@ =~= mid + body@.subrange(0, k as int + 1));
        k = k + 1;
    }
    assert(out@ =~= old(out)@ + enc_tlv(code, body@));
}

// ---------------------------------------------------------------------------
// Length-prefixed element runs shared by several record bodies.

/// Concatenation of the encodings of `items`, in order.
pub open spec fn enc_list<T>(items: Seq<T>, f: spec_fn(T) -> Seq<u8>) -> Seq<u8>
    decreases items.len(),
{
    if items.len() == 0 {
        Seq::empty()
    } else {
        f(items[0]) + enc_list(items.skip(1), f)
    }
}

pub proof fn lemma_enc_list_push<T>(items: Seq<T>, x: T, f: spec_fn(T) -> Seq<u8>)
    ensures
        enc_list(items.push(x), f) == enc_list(items, f) + f(x),
    decreases items.len(),
{
    let p = items.push(x);
    assert(p.len() == items.len() + 1);
    assert(enc_list(p, f) == f(p[0]) + enc_list(p.skip(1), f));
    if items.len() == 0 {
        assert(p[0] == x);
        assert(p.skip(1) =~= Seq::<T>::empty());
        assert(enc_list(p.skip(1), f) == Seq::<u8>::empty());
        assert(f(x) + Seq::<u8>::empty() =~= Seq::<u8>::empty() + f(x));
    } else {
        assert(p[0] == items[0]);
        assert(p.skip(1) =~= items.skip(1).push(x));
        lemma_enc_list_push(items.skip(1), x, f);
        assert(enc_list(p, f) == f(items[0]) + (enc_list(items.skip(1), f) + f(x)));
        assert(f(items[0]) + (enc_list(items.skip(1), f) + f(x)) =~= (f(items[0]) + enc_list(
            items.skip(1),
            f,
        )) + f(x));
    }
}

/// Decoding of exactly `n` consecutive elements with the element decoder
/// `g`, starting at `i`.
pub open spec fn dec_list<T>(
    s: Seq<u8>,
    i: int,
    n: nat,
    g: spec_fn(Seq<u8>, int) -> Option<(T, int)>,
) -> Option<(Seq<T>, int)>
    decreases n,
{
    if n == 0 {
        Some((Seq::empty(), i))
    } else {
        match g(s, i) {
            Some((v, j)) => match dec_list(s, j, (n - 1) as nat, g) {
                Some((rest, k)) => Some((seq![v] + rest, k)),
                None => None,
            },
            None => None,
        }
    }
}

/// The generic round trip for element runs: if every element of `items`
/// satisfies `w`, and `g` correctly decodes any `w`-element encoding
/// embedded in `s`, then the run decodes to `items`.
pub proof fn lemma_dec_enc_list<T>(
    s: Seq<u8>,
    i: int,
    items: Seq<T>,
    f: spec_fn(T) -> Seq<u8>,
    g: spec_fn(Seq<u8>, int) -> Option<(T, int)>,
    w: spec_fn(T) -> bool,
)
    requires
        0 <= i,
        i + enc_list(items, f).len() <= s.len(),
        s.subrange(i, i + enc_list(items, f).len()) == enc_list(items, f),
        forall|k: int| 0 <= k < items.len() ==> w(#[trigger] items[k]),
        forall|v: T, j: int|
            #![trigger g(s, j), f(v)]
            w(v) && 0 <= j && j + f(v).len() <= s.len() && s.subrange(j, j + f(v).len() as int) == f(
                v,
            ) ==> g(s, j) == Some((v, j + f(v).len() as int)),
    ensures
        dec_list(s, i, items.len() as nat, g) == Some((items, i + enc_list(items, f).len())),
    decreases items.len(),
{
    if items.len() == 0 {
        assert(dec_list(s, i, 0, g) == Some((Seq::<T>::empty(), i)));
        assert(items =~= Seq::<T>::empty());
    } else {
        let head = f(items[0]);
        let tail = enc_list(items.skip(1), f);
        assert(enc_list(items, f) == head + tail);
        lemma_concat_parts(s, i, head, tail);
        assert(g(s, i) == Some((items[0], i + head.len() as int)));
        assert forall|k: int| 0 <= k < items.skip(1).len() implies w(#[trigger] items.skip(1)[k]) by {
            assert(items.skip(1)[k] == items[k + 1]);
        }
        lemma_dec_enc_list(s, i + head.len(), items.skip(1), f, g, w);
        assert(seq![items[0]] + items.skip(1) =~= items);
    }
}

/// A run of elements whose encodings are each at most `bound` bytes is at
/// most `len * bound` bytes.
pub proof fn lemma_enc_list_len_bound<T>(items: Seq<T>, f: spec_fn(T) -> Seq<u8>, bound: nat)
    requires
        forall|k: int| 0 <= k < items.len() ==> (#[trigger] f(items[k])).len() <= bound,
    ensures
        enc_list(items, f).len() <= items.len() * bound,
    decreases items.len(),
{
    if items.len() > 0 {
        assert forall|k: int| 0 <= k < items.skip(1).len() implies (#[trigger] f(
            items.skip(1)[k],
        )).len() <= bound by {
            assert(items.skip(1)[k] == items[k + 1]);
        }
        lemma_enc_list_len_bound(items.skip(1), f, bound);
        assert(f(items[0]).len() <= bound);
        assert((items.len() - 1) * bound + bound == items.len() * bound) by (nonlinear_arith);
    }
}

// ---------------------------------------------------------------------------
// (object id, chunk id) pairs, as carried by acknowledgment records.

pub open spec fn enc_pair(p: (u64, i64)) -> Seq<u8> {
    enc_u64(p.0) + enc_sleb(p.1 as int)
}

pub open spec fn dec_pair(s: Seq<u8>, i: int) -> Option<((u64, i64), int)> {
    match dec_u64(s, i) {
        Some((oid, j)) => match dec_sleb64(s, j) {
            Some((cid, k)) => Some(((oid, cid), k)),
            None => None,
        },
        None => None,
    }
}

pub proof fn lemma_dec_enc_pair(s: Seq<u8>, i: int, p: (u64, i64))
    requires
        0 <= i,
        i + enc_pair(p).len() <= s.len(),
        s.subrange(i, i + enc_pair(p).len()) == enc_pair(p),
    ensures
        dec_pair(s, i) == Some((p, i + enc_pair(p).len())),
{
    lemma_concat_parts(s, i, enc_u64(p.0), enc_sleb(p.1 as int));
    lemma_dec_enc_u64(s, i, p.0);
    lemma_dec_enc_sleb64(s, i + 8, p.1);
}

pub fn write_pair(out: &mut Vec<u8>, oid: u64, cid: i64)
    ensures
        final(out)@ == old(out)@ + enc_pair((oid, cid)),
{
    write_u64(out, oid);
    write_sleb(out, cid);
    assert(out@ =~= old(out)@ + enc_pair((oid, cid)));
}

pub fn read_pair(r: &mut Reader) -> (res: Result<(u64, i64), ReadError>)
    ensures
        final(r).data@ == old(r).data@,
        old(r).pos <= final(r).pos <= final(r).data@.len() || final(r).pos == old(r).pos,
        match dec_pair(old(r).data@, old(r).pos as int) {
            Some((p, j)) => res matches Ok(q) && q == p && final(r).pos == j,
            None => res is Err,
        },
{
    let oid = match r.read_u64() {
        Ok(v) => v,
        Err(e) => {
            return Err(e);
        },
    };
    let cid = match r.read_sleb() {
        Ok(v) => v,
        Err(e) => {
            return Err(e);
        },
    };
    Ok((oid, cid))
}

// ---------------------------------------------------------------------------
// Wire strings: an unsigned LEB128 byte count followed by UTF-8 bytes.
// The library holds string payloads as their raw bytes; the decoder
// rejects runs that are not well-formed UTF-8.

pub open spec fn enc_str(b: Seq<u8>) -> Seq<u8> {
    enc_uleb(b.len() as nat) + b
}

pub open spec fn dec_str(s: Seq<u8>, i: int) -> Option<(Seq<u8>, int)> {
    match dec_uleb64(s, i) {
        Some((n, j)) => match dec_bytes(s, j, n as int) {
            Some((b, k)) => if is_utf8(b) {
                Some((b, k))
            } else {
                None
            },
            None => None,
        },
        None => None,
    }
}

/// A string payload the codec can carry: its length is encodable and its
/// bytes are well-formed UTF-8.
pub open spec fn wf_str(b: Seq<u8>) -> bool {
    b.len() <= 0xFFFF && is_utf8(b)
}

pub proof fn lemma_dec_enc_str(s: Seq<u8>, i: int, b: Seq<u8>)
    requires
        0 <= i,
        wf_str(b),
        i + enc_str(b).len() <= s.len(),
        s.subrange(i, i + enc_str(b).len()) == enc_str(b),
    ensures
        dec_str(s, i) == Some((b, i + enc_str(b).len())),
{
    let lenc = enc_uleb(b.len() as nat);
    lemma_concat_parts(s, i, lenc, b);
    lemma_dec_enc_uleb64(s, i, b.len() as u64);
}

pub fn write_str(out: &mut Vec<u8>, b: &Vec<u8>)
    ensures
        final(out)@ == old(out)@ + enc_str(b@),
{
    write_uleb(out, b.len() as u64);
    let mut k: usize = 0;
    let ghost mid = out@;
    while k < b.len()
        invariant
            k <= b@.len(),
            out@ == mid + b@.subrange(0, k as int),
        decreases b@.len() - k,
    {
        out.push(b[k]);
        assert(out@ =~= mid + b@.subrange(0, k as int + 1));
        k = k + 1;
    }
    assert(out@ =~= old(out)@ + enc_str(b@));
}

pub fn read_str(r: &mut Reader) -> (res: Result<Vec<u8>, ReadError>)
    ensures
        final(r).data@ == old(r).data@,
        old(r).pos <= final(r).pos <= final(r).data@.len() || final(r).pos == old(r).pos,
        match dec_str(old(r).data@, old(r).pos as int) {
            Some((b, j)) => res matches Ok(v) && v@ == b && final(r).pos == j,
            None => res is Err,
        },
{
    let n = match r.read_uleb() {
        Ok(v) => v,
        Err(e) => {
            return Err(e);
        },
    };
    if n > usize::MAX as u64 {
        let dlen = r.data.len();
        assert(old(r).data@.len() == dlen);
        return Err(ReadError::of_kind(ReadErrorKind::UnexpectedEnd, "string length out of range"));
    }
    let b = match r.read_bytes(n as usize) {
        Ok(v) => v,
        Err(e) => {
            return Err(e);
        },
    };
    if crate::utf8::is_valid_utf8(&b) {
        Ok(b)
    } else {
        Err(ReadError::of_kind(ReadErrorKind::InvalidUtf8, "string is not valid UTF-8"))
    }
}

/// Byte lengths of the primitive encodings, for body-size bounds.
pub proof fn lemma_uleb_len_u64(v: u64)
    ensures
        1 <= enc_uleb(v as nat).len() <= 10,
{
    lemma_enc_uleb_len(v as nat);
}

pub proof fn lemma_sleb_len_i64(v: i64)
    ensures
        1 <= enc_sleb(v as int).len() <= 10,
{
    crate::bytes::lemma_enc_sleb_len(v as int);
}

} // verus!
