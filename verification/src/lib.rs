pub mod bytes;
pub mod fnv1a32;
pub mod utf8;
pub mod wire;
pub mod frame;
pub mod app_frame;
pub mod common;
pub mod connection;
pub mod jobs;
pub mod state;
pub mod options;
pub mod mtu;

use vstd::prelude::*;

verus! {

/// Number of content chunks needed for a payload of `size` bytes when each
/// chunk carries at most 512 bytes.
pub open spec fn spec_num_chunks(size: u64) -> int {
    (size + 511) / 512
}

/// Arithmetic facts about the chunk count: it covers the whole payload and
/// wastes less than one chunk.
pub proof fn lemma_spec_num_chunks(size: u64)
    ensures
        512 * spec_num_chunks(size) <= size + 511,
        size <= 512 * spec_num_chunks(size),
        size > 0 ==> 512 * (spec_num_chunks(size) - 1) < size,
        size == 0 ==> spec_num_chunks(size) == 0,
        spec_num_chunks(size) >= 0,
{
    vstd::arithmetic::div_mod::lemma_fundamental_div_mod(size + 511, 512);
}

/// Ceiling division of a file size by the 512-byte chunk size.
pub fn num_chunks_for_size(size: u64) -> (r: u64)
    ensures
        r == spec_num_chunks(size),
{
    if size == 0 {
        0
    } else {
        (size - 1) / 512 + 1
    }
}

} // verus!
