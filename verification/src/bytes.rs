use vstd::prelude::*;
use crate::common::{ReadError, ReadErrorKind};

verus! {

// ---------------------------------------------------------------------------
// Encoding specifications: fixed-width integers in network byte order,
// LEB128 variable-width integers, and raw byte runs.
//
// Every decoder `dec_x(s, i)` reads at position `i` of `s` and yields the
// value together with the position just past it, or `None` when the bytes
// at `i` do not form an `x`.

pub open spec fn enc_u8(x: u8) -> Seq<u8> {
    seq![x]
}

pub open spec fn dec_u8(s: Seq<u8>, i: int) -> Option<(u8, int)> {
    if 0 <= i && i + 1 <= s.len() {
        Some((s[i], i + 1))
    } else {
        None
    }
}

pub open spec fn enc_u16(x: u16) -> Seq<u8> {
    seq![((x >> 8) & 0xff) as u8, (x & 0xff) as u8]
}

pub open spec fn dec_u16_val(s: Seq<u8>, i: int) -> u16 {
    ((s[i] as u16) << 8) | (s[i + 1] as u16)
}

pub open spec fn dec_u16(s: Seq<u8>, i: int) -> Option<(u16, int)> {
    if 0 <= i && i + 2 <= s.len() {
        Some((dec_u16_val(s, i), i + 2))
    } else {
        None
    }
}

pub open spec fn enc_u32(x: u32) -> Seq<u8> {
    seq![
        ((x >> 24) & 0xff) as u8,
        ((x >> 16) & 0xff) as u8,
        ((x >> 8) & 0xff) as u8,
        (x & 0xff) as u8,
    ]
}

pub open spec fn dec_u32_val(s: Seq<u8>, i: int) -> u32 {
    ((s[i] as u32) << 24) | ((s[i + 1] as u32) << 16) | ((s[i + 2] as u32) << 8) | (s[i
        + 3] as u32)
}

pub open spec fn dec_u32(s: Seq<u8>, i: int) -> Option<(u32, int)> {
    if 0 <= i && i + 4 <= s.len() {
        Some((dec_u32_val(s, i), i + 4))
    } else {
        None
    }
}

pub open spec fn enc_u64(x: u64) -> Seq<u8> {
    seq![
        ((x >> 56) & 0xff) as u8,
        ((x >> 48) & 0xff) as u8,
        ((x >> 40) & 0xff) as u8,
        ((x >> 32) & 0xff) as u8,
        ((x >> 24) & 0xff) as u8,
        ((x >> 16) & 0xff) as u8,
        ((x >> 8) & 0xff) as u8,
        (x & 0xff) as u8,
    ]
}

pub open spec fn dec_u64_val(s: Seq<u8>, i: int) -> u64 {
    ((s[i] as u64) << 56) | ((s[i + 1] as u64) << 48) | ((s[i + 2] as u64) << 40) | ((s[i
        + 3] as u64) << 32) | ((s[i + 4] as u64) << 24) | ((s[i + 5] as u64) << 16) | ((s[i
        + 6] as u64) << 8) | (s[i + 7] as u64)
}

pub open spec fn dec_u64(s: Seq<u8>, i: int) -> Option<(u64, int)> {
    if 0 <= i && i + 8 <= s.len() {
        Some((dec_u64_val(s, i), i + 8))
    } else {
        None
    }
}

/// A run of `n` raw bytes.
pub open spec fn dec_bytes(s: Seq<u8>, i: int, n: int) -> Option<(Seq<u8>, int)> {
    if 0 <= i && 0 <= n && i + n <= s.len() {
        Some((s.subrange(i, i + n), i + n))
    } else {
        None
    }
}

/// Unsigned LEB128: seven value bits per byte, least significant group
/// first, high bit set on every byte but the last.
pub open spec fn enc_uleb(v: nat) -> Seq<u8>
    decreases v,
{
    if v < 128 {
        seq![v as u8]
    } else {
        seq![((v % 128) + 128) as u8] + enc_uleb(v / 128)
    }
}

pub open spec fn dec_uleb(s: Seq<u8>, i: int) -> Option<(nat, int)>
    decreases s.len() - i,
{
    if i < 0 || i >= s.len() {
        None
    } else if s[i] < 128 {
        Some((s[i] as nat, i + 1))
    } else {
        match dec_uleb(s, i + 1) {
            Some((rest, j)) => Some((((s[i] - 128) + 128 * rest) as nat, j)),
            None => None,
        }
    }
}

/// Unsigned LEB128 restricted to values that fit a `u64`; larger encodings
/// are a decode error.
pub open spec fn dec_uleb64(s: Seq<u8>, i: int) -> Option<(u64, int)> {
    match dec_uleb(s, i) {
        Some((v, j)) => if v <= u64::MAX {
            Some((v as u64, j))
        } else {
            None
        },
        None => None,
    }
}

/// Signed LEB128: seven bits per byte as in the unsigned form, with the
/// final group carrying the sign in its top value bit.
pub open spec fn enc_sleb(v: int) -> Seq<u8>
    decreases (if v >= 0 { v } else { -v }),
{
    if -64 <= v && v < 64 {
        seq![(v % 128) as u8]
    } else {
        let low = v % 128;
        seq![(low + 128) as u8] + enc_sleb((v - low) / 128)
    }
}

pub open spec fn dec_sleb(s: Seq<u8>, i: int) -> Option<(int, int)>
    decreases s.len() - i,
{
    if i < 0 || i >= s.len() {
        None
    } else if s[i] < 128 {
        let b = s[i];
        if b >= 64 {
            Some((b - 128, i + 1))
        } else {
            Some((b as int, i + 1))
        }
    } else {
        match dec_sleb(s, i + 1) {
            Some((rest, j)) => Some((128 * rest + (s[i] - 128), j)),
            None => None,
        }
    }
}

/// Signed LEB128 restricted to values that fit an `i64`.
pub open spec fn dec_sleb64(s: Seq<u8>, i: int) -> Option<(i64, int)> {
    match dec_sleb(s, i) {
        Some((v, j)) => if i64::MIN <= v <= i64::MAX {
            Some((v as i64, j))
        } else {
            None
        },
        None => None,
    }
}

// ---------------------------------------------------------------------------
// Sequence glue

/// Splitting a subrange equality `s[i..i+|a|+|b|] == a + b` into its parts.
pub proof fn lemma_concat_parts(s: Seq<u8>, i: int, a: Seq<u8>, b: Seq<u8>)
    requires
        0 <= i,
        i + a.len() + b.len() <= s.len(),
        s.subrange(i, i + a.len() + b.len()) == a + b,
    ensures
        s.subrange(i, i + a.len() as int) == a,
        s.subrange(i + a.len() as int, i + a.len() + b.len()) == b,
{
    let whole = s.subrange(i, i + a.len() + b.len());
    assert forall|k: int| 0 <= k < a.len() implies s.subrange(i, i + a.len() as int)[k] == a[k] by {
        assert(whole[k] == (a + b)[k]);
    }
    assert(s.subrange(i, i + a.len() as int) =~= a);
    assert forall|k: int| 0 <= k < b.len() implies s.subrange(
        i + a.len() as int,
        i + a.len() + b.len(),
    )[k] == b[k] by {
        assert(whole[a.len() + k] == (a + b)[a.len() + k]);
    }
    assert(s.subrange(i + a.len() as int, i + a.len() + b.len()) =~= b);
}

// ---------------------------------------------------------------------------
// Round-trip lemmas for the primitives

pub proof fn lemma_dec_enc_u8(s: Seq<u8>, i: int, x: u8)
    requires
        0 <= i,
        i + 1 <= s.len(),
        s.subrange(i, i + 1) == enc_u8(x),
    ensures
        dec_u8(s, i) == Some((x, i + 1)),
{
    assert(s.subrange(i, i + 1)[0] == s[i]);
}

pub proof fn lemma_dec_enc_u16(s: Seq<u8>, i: int, x: u16)
    requires
        0 <= i,
        i + 2 <= s.len(),
        s.subrange(i, i + 2) == enc_u16(x),
    ensures
        dec_u16(s, i) == Some((x, i + 2)),
{
    let e = enc_u16(x);
    assert forall|k: int| 0 <= k < 2 implies s[i + k] == e[k] by {
        assert(s.subrange(i, i + 2)[k] == s[i + k]);
    }
    assert(((((x >> 8) & 0xff) as u8 as u16) << 8) | ((x & 0xff) as u8 as u16) == x)
        by (bit_vector);
}

pub proof fn lemma_dec_enc_u32(s: Seq<u8>, i: int, x: u32)
    requires
        0 <= i,
        i + 4 <= s.len(),
        s.subrange(i, i + 4) == enc_u32(x),
    ensures
        dec_u32(s, i) == Some((x, i + 4)),
{
    let e = enc_u32(x);
    assert forall|k: int| 0 <= k < 4 implies s[i + k] == e[k] by {
        assert(s.subrange(i, i + 4)[k] == s[i + k]);
    }
    assert(((((x >> 24) & 0xff) as u8 as u32) << 24) | ((((x >> 16) & 0xff) as u8 as u32) << 16) | (
    (((x >> 8) & 0xff) as u8 as u32) << 8) | ((x & 0xff) as u8 as u32) == x) by (bit_vector);
}

/// Any four bytes are the encoding of the value they decode to: the
/// big-endian map between `u32` values and four-byte runs is a bijection.
pub proof fn lemma_enc_dec_u32(s: Seq<u8>, i: int)
    requires
        0 <= i,
        i + 4 <= s.len(),
    ensures
        enc_u32(dec_u32_val(s, i)) == s.subrange(i, i + 4),
{
    let b0 = s[i];
    let b1 = s[i + 1];
    let b2 = s[i + 2];
    let b3 = s[i + 3];
    let x = dec_u32_val(s, i);
    assert((((b0 as u32) << 24 | (b1 as u32) << 16 | (b2 as u32) << 8 | (b3 as u32)) >> 24) & 0xff
        == b0) by (bit_vector);
    assert((((b0 as u32) << 24 | (b1 as u32) << 16 | (b2 as u32) << 8 | (b3 as u32)) >> 16) & 0xff
        == b1) by (bit_vector);
    assert((((b0 as u32) << 24 | (b1 as u32) << 16 | (b2 as u32) << 8 | (b3 as u32)) >> 8) & 0xff
        == b2) by (bit_vector);
    assert(((b0 as u32) << 24 | (b1 as u32) << 16 | (b2 as u32) << 8 | (b3 as u32)) & 0xff == b3)
        by (bit_vector);
    assert(enc_u32(x) =~= s.subrange(i, i + 4));
}

pub proof fn lemma_dec_enc_u64(s: Seq<u8>, i: int, x: u64)
    requires
        0 <= i,
        i + 8 <= s.len(),
        s.subrange(i, i + 8) == enc_u64(x),
    ensures
        dec_u64(s, i) == Some((x, i + 8)),
{
    let e = enc_u64(x);
    assert forall|k: int| 0 <= k < 8 implies s[i + k] == e[k] by {
        assert(s.subrange(i, i + 8)[k] == s[i + k]);
    }
    assert(((((x >> 56) & 0xff) as u8 as u64) << 56) | ((((x >> 48) & 0xff) as u8 as u64) << 48) | (
    (((x >> 40) & 0xff) as u8 as u64) << 40) | ((((x >> 32) & 0xff) as u8 as u64) << 32) | ((((x
        >> 24) & 0xff) as u8 as u64) << 24) | ((((x >> 16) & 0xff) as u8 as u64) << 16) | ((((x
        >> 8) & 0xff) as u8 as u64) << 8) | ((x & 0xff) as u8 as u64) == x) by (bit_vector);
}

proof fn lemma_enc_uleb_len_k(v: nat, k: nat)
    requires
        1 <= k,
        v < vstd::arithmetic::power::pow(128, k),
    ensures
        enc_uleb(v).len() <= k,
    decreases k,
{
    reveal(vstd::arithmetic::power::pow);
    if v >= 128 {
        let p = vstd::arithmetic::power::pow(128, (k - 1) as nat);
        assert(vstd::arithmetic::power::pow(128, k) == 128 * p);
        vstd::arithmetic::div_mod::lemma_fundamental_div_mod(v as int, 128);
        assert(128 * (v as int / 128) <= v as int);
        assert(v as int / 128 < p);
        lemma_enc_uleb_len_k(v / 128, (k - 1) as nat);
    }
}

pub proof fn lemma_enc_uleb_len(v: nat)
    requires
        v < 0x1_0000_0000_0000_0000,
    ensures
        1 <= enc_uleb(v).len() <= 10,
{
    reveal_with_fuel(vstd::arithmetic::power::pow, 11);
    assert(vstd::arithmetic::power::pow(128, 10) == 0x40_0000_0000_0000_0000);
    lemma_enc_uleb_len_k(v, 10);
}

pub proof fn lemma_dec_enc_uleb(s: Seq<u8>, i: int, v: nat)
    requires
        0 <= i,
        i + enc_uleb(v).len() <= s.len(),
        s.subrange(i, i + enc_uleb(v).len()) == enc_uleb(v),
    ensures
        dec_uleb(s, i) == Some((v, i + enc_uleb(v).len())),
    decreases v,
{
    let e = enc_uleb(v);
    if v < 128 {
        assert(s.subrange(i, i + 1)[0] == s[i]);
    } else {
        let head = seq![((v % 128) + 128) as u8];
        let tail = enc_uleb(v / 128);
        lemma_concat_parts(s, i, head, tail);
        assert(s.subrange(i, i + 1)[0] == s[i]);
        assert(s[i] == ((v % 128) + 128) as u8);
        lemma_dec_enc_uleb(s, i + 1, v / 128);
        vstd::arithmetic::div_mod::lemma_fundamental_div_mod(v as int, 128);
    }
}

pub proof fn lemma_dec_enc_uleb64(s: Seq<u8>, i: int, v: u64)
    requires
        0 <= i,
        i + enc_uleb(v as nat).len() <= s.len(),
        s.subrange(i, i + enc_uleb(v as nat).len()) == enc_uleb(v as nat),
    ensures
        dec_uleb64(s, i) == Some((v, i + enc_uleb(v as nat).len())),
{
    lemma_dec_enc_uleb(s, i, v as nat);
}

proof fn lemma_enc_sleb_len_k(v: int, k: nat)
    requires
        1 <= k,
        -vstd::arithmetic::power::pow(128, k) <= 2 * v < vstd::arithmetic::power::pow(128, k),
    ensures
        enc_sleb(v).len() <= k,
    decreases k,
{
    reveal(vstd::arithmetic::power::pow);
    if !(-64 <= v && v < 64) {
        let p = vstd::arithmetic::power::pow(128, (k - 1) as nat);
        assert(vstd::arithmetic::power::pow(128, k) == 128 * p);
        let low = v % 128;
        let rest = (v - low) / 128;
        vstd::arithmetic::div_mod::lemma_fundamental_div_mod(v, 128);
        assert(v == 128 * (v / 128) + v % 128);
        assert(rest == v / 128);
        assert(2 * v == 256 * rest + 2 * low);
        assert(-p <= 2 * rest < p);
        lemma_enc_sleb_len_k(rest, (k - 1) as nat);
    }
}

pub proof fn lemma_enc_sleb_len(v: int)
    requires
        -0x8000_0000_0000_0000 <= v < 0x8000_0000_0000_0000,
    ensures
        1 <= enc_sleb(v).len() <= 10,
{
    reveal_with_fuel(vstd::arithmetic::power::pow, 11);
    assert(vstd::arithmetic::power::pow(128, 10) == 0x40_0000_0000_0000_0000);
    lemma_enc_sleb_len_k(v, 10);
}

pub proof fn lemma_dec_enc_sleb(s: Seq<u8>, i: int, v: int)
    requires
        0 <= i,
        i + enc_sleb(v).len() <= s.len(),
        s.subrange(i, i + enc_sleb(v).len()) == enc_sleb(v),
    ensures
        dec_sleb(s, i) == Some((v, i + enc_sleb(v).len())),
    decreases (if v >= 0 { v } else { -v }),
{
    if -64 <= v && v < 64 {
        assert(s.subrange(i, i + 1)[0] == s[i]);
        if v >= 0 {
            assert(s[i] == (v % 128) as u8);
            assert(v % 128 == v);
        } else {
            assert(s[i] == (v % 128) as u8);
            assert(v % 128 == v + 128);
        }
    } else {
        let low = v % 128;
        let rest = (v - low) / 128;
        let head = seq![(low + 128) as u8];
        let tail = enc_sleb(rest);
        lemma_concat_parts(s, i, head, tail);
        assert(s.subrange(i, i + 1)[0] == s[i]);
        assert(s[i] == (low + 128) as u8);
        lemma_dec_enc_sleb(s, i + 1, rest);
        vstd::arithmetic::div_mod::lemma_fundamental_div_mod(v - low, 128);
        assert(128 * rest + low == v);
    }
}

pub proof fn lemma_dec_enc_sleb64(s: Seq<u8>, i: int, v: i64)
    requires
        0 <= i,
        i + enc_sleb(v as int).len() <= s.len(),
        s.subrange(i, i + enc_sleb(v as int).len()) == enc_sleb(v as int),
    ensures
        dec_sleb64(s, i) == Some((v, i + enc_sleb(v as int).len())),
{
    lemma_dec_enc_sleb(s, i, v as int);
}

// ---------------------------------------------------------------------------
// Writers: each appends the encoding of its value to `out`.

pub fn write_u8(out: &mut Vec<u8>, x: u8)
    ensures
        final(out)@ == old(out)@ + enc_u8(x),
{
    out.push(x);
    assert(out@ =~= old(out)@ + enc_u8(x));
}

pub fn write_u16(out: &mut Vec<u8>, x: u16)
    ensures
        final(out)@ == old(out)@ + enc_u16(x),
{
    out.push(((x >> 8) & 0xff) as u8);
    out.push((x & 0xff) as u8);
    assert(out@ =~= old(out)@ + enc_u16(x));
}

pub fn write_u32(out: &mut Vec<u8>, x: u32)
    ensures
        final(out)@ == old(out)@ + enc_u32(x),
{
    out.push(((x >> 24) & 0xff) as u8);
    out.push(((x >> 16) & 0xff) as u8);
    out.push(((x >> 8) & 0xff) as u8);
    out.push((x & 0xff) as u8);
    assert(out@ =~= old(out)@ + enc_u32(x));
}

pub fn write_u64(out: &mut Vec<u8>, x: u64)
    ensures
        final(out)@ == old(out)@ + enc_u64(x),
{
    out.push(((x >> 56) & 0xff) as u8);
    out.push(((x >> 48) & 0xff) as u8);
    out.push(((x >> 40) & 0xff) as u8);
    out.push(((x >> 32) & 0xff) as u8);
    out.push(((x >> 24) & 0xff) as u8);
    out.push(((x >> 16) & 0xff) as u8);
    out.push(((x >> 8) & 0xff) as u8);
    out.push((x & 0xff) as u8);
    assert(out@ =~= old(out)@ + enc_u64(x));
}

pub fn write_uleb(out: &mut Vec<u8>, v: u64)
    ensures
        final(out)@ == old(out)@ + enc_uleb(v as nat),
    decreases v,
{
    if v < 128 {
        out.push(v as u8);
        assert(out@ =~= old(out)@ + enc_uleb(v as nat));
    } else {
        out.push((v % 128 + 128) as u8);
        write_uleb(out, v / 128);
        assert(v as nat % 128 == (v % 128) as nat);
        assert(v as nat / 128 == (v / 128) as nat);
        assert(out@ =~= old(out)@ + enc_uleb(v as nat));
    }
}

pub fn write_sleb(out: &mut Vec<u8>, v: i64)
    ensures
        final(out)@ == old(out)@ + enc_sleb(v as int),
    decreases (if v >= 0 { v as int } else { -(v as int) }),
{
    if -64 <= v && v < 64 {
        let b: u8 = if v >= 0 {
            v as u8
        } else {
            (v + 128) as u8
        };
        assert(b == (v as int % 128) as u8);
        out.push(b);
        assert(out@ =~= old(out)@ + enc_sleb(v as int));
    } else {
        let m: i64 = v % 128;
        let low: i64 = if m < 0 {
            m + 128
        } else {
            m
        };
        assert(low == v as int % 128);
        let rest: i64 = (v - low) / 128;
        assert(rest == (v as int - v as int % 128) / 128);
        out.push((low + 128) as u8);
        write_sleb(out, rest);
        assert(out@ =~= old(out)@ + enc_sleb(v as int));
    }
}

// ---------------------------------------------------------------------------
// Reader: a byte buffer with a cursor, consumed from the front.

pub struct Reader {
    pub data: Vec<u8>,
    pub pos: usize,
}

impl Reader {
    pub fn new(data: Vec<u8>) -> (r: Reader)
        ensures
            r.data@ == data@,
            r.pos == 0,
    {
        Reader { data, pos: 0 }
    }

    fn fail<T>(&self) -> (res: Result<T, ReadError>)
        ensures
            res is Err,
            res matches Err(e) && e.kind == ReadErrorKind::UnexpectedEnd,
    {
        Err(ReadError::of_kind(ReadErrorKind::UnexpectedEnd, "unexpected end of input"))
    }

    /// The next byte, without consuming it.
    pub fn peek_u8(&self) -> (res: Result<u8, ReadError>)
        ensures
            match dec_u8(self.data@, self.pos as int) {
                Some((v, j)) => res matches Ok(b) && b == v,
                None => res is Err,
            },
    {
        if self.pos < self.data.len() {
            Ok(self.data[self.pos])
        } else {
            self.fail()
        }
    }

    pub fn read_u8(&mut self) -> (res: Result<u8, ReadError>)
        ensures
            final(self).data@ == old(self).data@,
            match dec_u8(old(self).data@, old(self).pos as int) {
                Some((v, j)) => res matches Ok(b) && b == v && final(self).pos == j,
                None => res is Err && final(self).pos == old(self).pos,
            },
    {
        if self.pos < self.data.len() {
            let b = self.data[self.pos];
            self.pos = self.pos + 1;
            Ok(b)
        } else {
            self.fail()
        }
    }

    pub fn read_u16(&mut self) -> (res: Result<u16, ReadError>)
        ensures
            final(self).data@ == old(self).data@,
            match dec_u16(old(self).data@, old(self).pos as int) {
                Some((v, j)) => res matches Ok(b) && b == v && final(self).pos == j,
                None => res is Err && final(self).pos == old(self).pos,
            },
    {
        if self.data.len() >= 2 && self.pos <= self.data.len() - 2 {
            let b0 = self.data[self.pos];
            let b1 = self.data[self.pos + 1];
            self.pos = self.pos + 2;
            Ok(((b0 as u16) << 8) | (b1 as u16))
        } else {
            self.fail()
        }
    }

    pub fn read_u32(&mut self) -> (res: Result<u32, ReadError>)
        ensures
            final(self).data@ == old(self).data@,
            match dec_u32(old(self).data@, old(self).pos as int) {
                Some((v, j)) => res matches Ok(b) && b == v && final(self).pos == j,
                None => res is Err && final(self).pos == old(self).pos,
            },
    {
        if self.data.len() >= 4 && self.pos <= self.data.len() - 4 {
            let b0 = self.data[self.pos];
            let b1 = self.data[self.pos + 1];
            let b2 = self.data[self.pos + 2];
            let b3 = self.data[self.pos + 3];
            self.pos = self.pos + 4;
            Ok(((b0 as u32) << 24) | ((b1 as u32) << 16) | ((b2 as u32) << 8) | (b3 as u32))
        } else {
            self.fail()
        }
    }

    pub fn read_u64(&mut self) -> (res: Result<u64, ReadError>)
        ensures
            final(self).data@ == old(self).data@,
            match dec_u64(old(self).data@, old(self).pos as int) {
                Some((v, j)) => res matches Ok(b) && b == v && final(self).pos == j,
                None => res is Err && final(self).pos == old(self).pos,
            },
    {
        if self.data.len() >= 8 && self.pos <= self.data.len() - 8 {
            let b0 = self.data[self.pos];
            let b1 = self.data[self.pos + 1];
            let b2 = self.data[self.pos + 2];
            let b3 = self.data[self.pos + 3];
            let b4 = self.data[self.pos + 4];
            let b5 = self.data[self.pos + 5];
            let b6 = self.data[self.pos + 6];
            let b7 = self.data[self.pos + 7];
            self.pos = self.pos + 8;
            Ok(
                ((b0 as u64) << 56) | ((b1 as u64) << 48) | ((b2 as u64) << 40) | ((b3 as u64)
                    << 32) | ((b4 as u64) << 24) | ((b5 as u64) << 16) | ((b6 as u64) << 8) | (
                b7 as u64),
            )
        } else {
            self.fail()
        }
    }

    pub fn read_uleb(&mut self) -> (res: Result<u64, ReadError>)
        ensures
            final(self).data@ == old(self).data@,
            old(self).pos <= final(self).pos <= final(self).data@.len() || final(self).pos == old(
                self,
            ).pos,
            match dec_uleb64(old(self).data@, old(self).pos as int) {
                Some((v, j)) => res matches Ok(b) && b == v && final(self).pos == j,
                None => res is Err,
            },
        decreases old(self).data@.len() - old(self).pos,
    {
        let b = match self.read_u8() {
            Ok(b) => b,
            Err(e) => {
                return Err(e);
            },
        };
        if b < 128 {
            Ok(b as u64)
        } else {
            let rest = match self.read_uleb() {
                Ok(r) => r,
                Err(e) => {
                    return Err(e);
                },
            };
            if rest > (u64::MAX - 127) / 128 {
                Err(ReadError::of_kind(ReadErrorKind::Overflow, "LEB128 value too large"))
            } else {
                Ok(rest * 128 + (b - 128) as u64)
            }
        }
    }

    pub fn read_sleb(&mut self) -> (res: Result<i64, ReadError>)
        ensures
            final(self).data@ == old(self).data@,
            old(self).pos <= final(self).pos <= final(self).data@.len() || final(self).pos == old(
                self,
            ).pos,
            match dec_sleb64(old(self).data@, old(self).pos as int) {
                Some((v, j)) => res matches Ok(b) && b == v && final(self).pos == j,
                None => res is Err,
            },
        decreases old(self).data@.len() - old(self).pos,
    {
        let b = match self.read_u8() {
            Ok(b) => b,
            Err(e) => {
                return Err(e);
            },
        };
        if b < 128 {
            if b >= 64 {
                Ok((b as i64) - 128)
            } else {
                Ok(b as i64)
            }
        } else {
            let rest = match self.read_sleb() {
                Ok(r) => r,
                Err(e) => {
                    return Err(e);
                },
            };
            if rest > (i64::MAX - 127) / 128 || rest < i64::MIN / 128 {
                Err(ReadError::of_kind(ReadErrorKind::Overflow, "LEB128 value too large"))
            } else {
                Ok(rest * 128 + (b - 128) as i64)
            }
        }
    }

    pub fn read_bytes(&mut self, n: usize) -> (res: Result<Vec<u8>, ReadError>)
        ensures
            final(self).data@ == old(self).data@,
            match dec_bytes(old(self).data@, old(self).pos as int, n as int) {
                Some((v, j)) => res matches Ok(b) && b@ == v && final(self).pos == j,
                None => res is Err && final(self).pos == old(self).pos,
            },
    {
        if n <= self.data.len() && self.pos <= self.data.len() - n {
            let mut out: Vec<u8> = Vec::new();
            let start = self.pos;
            let mut k: usize = 0;
            while k < n
                invariant
                    start + n <= self.data.len(),
                    k <= n,
                    self.pos == start + k,
                    self.data@ == old(self).data@,
                    out@ == self.data@.subrange(start as int, start as int + k as int),
                decreases n - k,
            {
                let b = self.data[self.pos];
                self.pos = self.pos + 1;
                out.push(b);
                assert(out@ =~= self.data@.subrange(start as int, start as int + k as int + 1));
                k = k + 1;
            }
            Ok(out)
        } else {
            self.fail()
        }
    }

    /// The cursor, as the number of bytes consumed so far.
    pub fn position(&self) -> (r: usize)
        ensures
            r == self.pos,
    {
        self.pos
    }
}

/// Copies a byte vector.
pub fn copy_bytes(v: &Vec<u8>) -> (r: Vec<u8>)
    ensures
        r@ == v@,
{
    let mut out: Vec<u8> = Vec::new();
    let mut k: usize = 0;
    while k < v.len()
        invariant
            k <= v@.len(),
            out@ == v@.subrange(0, k as int),
        decreases v@.len() - k,
    {
        out.push(v[k]);
        assert(out@ =~= v@.subrange(0, k as int + 1));
        k = k + 1;
    }
    assert(out@ =~= v@);
    out
}


} // verus!
