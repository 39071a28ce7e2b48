use vstd::prelude::*;

verus! {

pub const FNV_OFFSET: u32 = 0x811C9DC5;

pub const FNV_PRIME: u32 = 0x01000193;

/// One step of FNV-1a: fold a byte into the running state.
pub open spec fn fnv_update(state: u32, byte: u8) -> u32 {
    (((state ^ (byte as u32)) * FNV_PRIME) % 0x1_0000_0000) as u32
}

/// Folding a byte sequence into a running state, left to right.
pub open spec fn fnv_fold(state: u32, s: Seq<u8>) -> u32
    decreases s.len(),
{
    if s.len() == 0 {
        state
    } else {
        fnv_update(fnv_fold(state, s.drop_last()), s.last())
    }
}

/// FNV-1a32 of a byte sequence, processed left to right from the offset
/// basis.
pub open spec fn fnv1a32(s: Seq<u8>) -> u32 {
    fnv_fold(FNV_OFFSET, s)
}

/// The FNV-1a32 hasher: the frame checksum of this protocol.
#[derive(Clone, Copy, Debug)]
pub struct Fnv32a {
    pub state: u32,
}

impl Default for Fnv32a {
    /// A hasher primed with the FNV offset basis, i.e. the hash of the
    /// empty sequence.
    fn default() -> (r: Self)
        ensures
            r.state == FNV_OFFSET,
    {
        Fnv32a { state: FNV_OFFSET }
    }
}

impl Fnv32a {
    /// Fold one byte into the state.
    pub fn write_u8(&mut self, byte: u8)
        ensures
            final(self).state == fnv_update(old(self).state, byte),
    {
        self.state = (self.state ^ (byte as u32)).wrapping_mul(FNV_PRIME);
    }

    /// Fold a run of bytes into the state, left to right.
    pub fn write(&mut self, input: &Vec<u8>)
        ensures
            final(self).state == fnv_fold(old(self).state, input@),
    {
        let mut k: usize = 0;
        let ghost start = self.state;
        while k < input.len()
            invariant
                k <= input.len(),
                self.state == fnv_fold(start, input@.subrange(0, k as int)),
            decreases input.len() - k,
        {
            let b = input[k];
            self.write_u8(b);
            proof {
                let pre = input@.subrange(0, k as int);
                let post = input@.subrange(0, k as int + 1);
                assert(post.drop_last() =~= pre);
                assert(post.last() == input@[k as int]);
            }
            k = k + 1;
        }
        assert(input@.subrange(0, input@.len() as int) =~= input@);
    }

    /// The accumulated hash, widened as the standard hasher interface does.
    pub fn finish(&self) -> (r: u64)
        ensures
            r == self.state as u64,
    {
        self.state as u64
    }

    /// The FNV-1a32 hash of `data[from..to]`.
    pub fn hash(data: &Vec<u8>, from: usize, to: usize) -> (r: u32)
        requires
            from <= to <= data@.len(),
        ensures
            r == fnv1a32(data@.subrange(from as int, to as int)),
    {
        let mut state: u32 = FNV_OFFSET;
        let mut k: usize = from;
        while k < to
            invariant
                from <= k <= to <= data@.len(),
                state == fnv1a32(data@.subrange(from as int, k as int)),
            decreases to - k,
        {
            state = (state ^ (data[k] as u32)).wrapping_mul(FNV_PRIME);
            proof {
                let pre = data@.subrange(from as int, k as int);
                let post = data@.subrange(from as int, k as int + 1);
                assert(post.drop_last() =~= pre);
                assert(post.last() == data@[k as int]);
            }
            k = k + 1;
        }
        state
    }
}

} // verus!
