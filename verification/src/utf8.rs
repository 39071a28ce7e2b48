use vstd::prelude::*;

verus! {

/// A UTF-8 continuation byte: `10xxxxxx`.
pub open spec fn is_cont(b: u8) -> bool {
    0x80 <= b <= 0xBF
}

/// Whether a byte sequence is well-formed UTF-8, by the shortest-form
/// rules of the encoding (overlong forms and surrogate code points are
/// rejected).
pub open spec fn is_utf8(s: Seq<u8>) -> bool
    decreases s.len(),
{
    if s.len() == 0 {
        true
    } else {
        let b0 = s[0];
        if b0 < 0x80 {
            is_utf8(s.skip(1))
        } else if 0xC2 <= b0 && b0 <= 0xDF {
            s.len() >= 2 && is_cont(s[1]) && is_utf8(s.skip(2))
        } else if b0 == 0xE0 {
            s.len() >= 3 && 0xA0 <= s[1] && s[1] <= 0xBF && is_cont(s[2]) && is_utf8(s.skip(3))
        } else if (0xE1 <= b0 && b0 <= 0xEC) || b0 == 0xEE || b0 == 0xEF {
            s.len() >= 3 && is_cont(s[1]) && is_cont(s[2]) && is_utf8(s.skip(3))
        } else if b0 == 0xED {
            s.len() >= 3 && 0x80 <= s[1] && s[1] <= 0x9F && is_cont(s[2]) && is_utf8(s.skip(3))
        } else if b0 == 0xF0 {
            s.len() >= 4 && 0x90 <= s[1] && s[1] <= 0xBF && is_cont(s[2]) && is_cont(s[3])
                && is_utf8(s.skip(4))
        } else if 0xF1 <= b0 && b0 <= 0xF3 {
            s.len() >= 4 && is_cont(s[1]) && is_cont(s[2]) && is_cont(s[3]) && is_utf8(s.skip(4))
        } else if b0 == 0xF4 {
            s.len() >= 4 && 0x80 <= s[1] && s[1] <= 0x8F && is_cont(s[2]) && is_cont(s[3])
                && is_utf8(s.skip(4))
        } else {
            false
        }
    }
}

/// Checks whether `data` is well-formed UTF-8.
pub fn is_valid_utf8(data: &Vec<u8>) -> (r: bool)
    ensures
        r == is_utf8(data@),
{
    let n = data.len();
    let mut i: usize = 0;
    assert(data@.skip(0) =~= data@);
    while i < n
        invariant
            i <= n,
            n == data@.len(),
            is_utf8(data@) <==> is_utf8(data@.skip(i as int)),
        decreases n - i,
    {
        let ghost s = data@.skip(i as int);
        proof {
            assert forall|k: int| 0 <= k < s.len() implies s[k] == data@[i + k] by {}
        }
        let b0 = data[i];
        let step: usize;
        if b0 < 0x80 {
            step = 1;
        } else if 0xC2 <= b0 && b0 <= 0xDF {
            if n - i < 2 || !cont_at(data, i + 1) {
                proof {
                    assert(!is_utf8(s));
                }
                return false;
            }
            step = 2;
        } else if b0 == 0xE0 {
            if n - i < 3 || !(0xA0 <= data[i + 1] && data[i + 1] <= 0xBF) || !cont_at(data, i + 2) {
                proof {
                    assert(!is_utf8(s));
                }
                return false;
            }
            step = 3;
        } else if (0xE1 <= b0 && b0 <= 0xEC) || b0 == 0xEE || b0 == 0xEF {
            if n - i < 3 || !cont_at(data, i + 1) || !cont_at(data, i + 2) {
                proof {
                    assert(!is_utf8(s));
                }
                return false;
            }
            step = 3;
        } else if b0 == 0xED {
            if n - i < 3 || !(0x80 <= data[i + 1] && data[i + 1] <= 0x9F) || !cont_at(data, i + 2) {
                proof {
                    assert(!is_utf8(s));
                }
                return false;
            }
            step = 3;
        } else if b0 == 0xF0 {
            if n - i < 4 || !(0x90 <= data[i + 1] && data[i + 1] <= 0xBF) || !cont_at(data, i + 2)
                || !cont_at(data, i + 3) {
                proof {
                    assert(!is_utf8(s));
                }
                return false;
            }
            step = 4;
        } else if 0xF1 <= b0 && b0 <= 0xF3 {
            if n - i < 4 || !cont_at(data, i + 1) || !cont_at(data, i + 2) || !cont_at(
                data,
                i + 3,
            ) {
                proof {
                    assert(!is_utf8(s));
                }
                return false;
            }
            step = 4;
        } else if b0 == 0xF4 {
            if n - i < 4 || !(0x80 <= data[i + 1] && data[i + 1] <= 0x8F) || !cont_at(data, i + 2)
                || !cont_at(data, i + 3) {
                proof {
                    assert(!is_utf8(s));
                }
                return false;
            }
            step = 4;
        } else {
            proof {
                assert(!is_utf8(s));
            }
            return false;
        }
        proof {
            assert(s.skip(step as int) =~= data@.skip(i as int + step as int));
            assert(is_utf8(s) <==> is_utf8(s.skip(step as int)));
        }
        i = i + step;
    }
    assert(data@.skip(n as int) =~= Seq::<u8>::empty());
    true
}

/// Whether the byte at `k` is a continuation byte.
fn cont_at(data: &Vec<u8>, k: usize) -> (r: bool)
    requires
        k < data@.len(),
    ensures
        r == is_cont(data@[k as int]),
{
    let b = data[k];
    0x80 <= b && b <= 0xBF
}

} // verus!
