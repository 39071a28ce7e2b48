use vstd::prelude::*;

verus! {

pub const DEFAULT_PORT: u16 = 42424;

/// The value of a decimal digit, or none for any other byte.
pub open spec fn digit_of(b: u8) -> Option<int> {
    if 0x30 <= b <= 0x39 {
        Some(b - 0x30)
    } else {
        None
    }
}

/// The number denoted by a run of decimal digits, read left to right;
/// none when the run is empty, holds a non-digit, or exceeds a `u16`.
pub open spec fn dec_port(s: Seq<u8>, acc: int) -> Option<int>
    decreases s.len(),
{
    if s.len() == 0 {
        Some(acc)
    } else {
        match digit_of(s[0]) {
            Some(d) => if acc * 10 + d <= 0xFFFF {
                dec_port(s.skip(1), acc * 10 + d)
            } else {
                None
            },
            None => None,
        }
    }
}

/// The source port a `-t` option denotes: the default when absent, else
/// the decimal number, which must be outside the well-known range. The
/// digits are taken as bytes; the caller hands over the argument text.
pub open spec fn spec_parse_t(t: Option<Seq<u8>>) -> Option<u16> {
    match t {
        None => Some(DEFAULT_PORT),
        Some(s) => if s.len() == 0 {
            None
        } else {
            match dec_port(s, 0) {
                Some(p) => if p >= 1024 {
                    Some(p as u16)
                } else {
                    None
                },
                None => None,
            }
        },
    }
}

/// Parses the source port option: the default port when absent, an error
/// for anything that is not a number in `1024..=65535`.
#[verifier::loop_isolation(false)]
pub fn parse_t(t: Option<&Vec<u8>>) -> (r: Result<u16, ()>)
    ensures
        match spec_parse_t(match t {
            Some(s) => Some(s@),
            None => None,
        }) {
            Some(p) => r == Ok::<u16, ()>(p),
            None => r is Err,
        },
{
    let s = match t {
        Some(s) => s,
        None => {
            return Ok(DEFAULT_PORT);
        },
    };
    if s.len() == 0 {
        return Err(());
    }
    let mut acc: u32 = 0;
    let mut k: usize = 0;
    proof {
        assert(s@.skip(0) =~= s@);
    }
    while k < s.len()
        invariant
            k <= s@.len(),
            acc <= 0xFFFF,
            dec_port(s@, 0) == dec_port(s@.skip(k as int), acc as int),
        decreases s@.len() - k,
    {
        let b = s[k];
        if b < 0x30 || b > 0x39 {
            proof {
                assert(s@.skip(k as int)[0] == s@[k as int]);
            }
            return Err(());
        }
        let d = (b - 0x30) as u32;
        if acc * 10 + d > 0xFFFF {
            proof {
                assert(s@.skip(k as int)[0] == s@[k as int]);
            }
            return Err(());
        }
        acc = acc * 10 + d;
        proof {
            assert(s@.skip(k as int)[0] == s@[k as int]);
            assert(s@.skip(k as int).skip(1) =~= s@.skip(k as int + 1));
        }
        k = k + 1;
    }
    proof {
        assert(s@.skip(s@.len() as int) =~= Seq::<u8>::empty());
    }
    if acc >= 1024 {
        Ok(acc as u16)
    } else {
        Err(())
    }
}

} // verus!
