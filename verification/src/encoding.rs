//! The `application/x-www-form-urlencoded` encoding of an ordered field
//! mapping: alphanumerics and `*-._` pass unchanged, a space becomes `+`,
//! every other byte becomes `%` followed by two upper-case hex digits; pairs
//! are joined with `=` and separated by `&`.

use crate::lti_form::view_fields;
use vstd::prelude::*;

verus! {

/// True when the byte passes through the encoding unchanged.
pub open spec fn unchanged_byte(b: u8) -> bool {
    ||| b == 0x2a
    ||| b == 0x2d
    ||| b == 0x2e
    ||| b == 0x5f
    ||| 0x30 <= b <= 0x39
    ||| 0x41 <= b <= 0x5a
    ||| 0x61 <= b <= 0x7a
}

/// The upper-case hex digit of a value below 16.
pub open spec fn hex_digit(n: u8) -> u8 {
    if n < 10 {
        (0x30 + n) as u8
    } else {
        (0x37 + n) as u8
    }
}

/// The encoding of one byte.
pub open spec fn enc_byte(b: u8) -> Seq<u8> {
    if unchanged_byte(b) {
        seq![b]
    } else if b == 0x20 {
        seq![0x2bu8]
    } else {
        seq![0x25u8, hex_digit(b / 16), hex_digit(b % 16)]
    }
}

/// The encoding of a byte string.
pub open spec fn enc_bytes(s: Seq<u8>) -> Seq<u8>
    decreases s.len(),
{
    if s.len() == 0 {
        Seq::empty()
    } else {
        enc_byte(s[0]) + enc_bytes(s.skip(1))
    }
}

/// The encoding of one name/value pair.
pub open spec fn enc_pair(p: (Seq<u8>, Seq<u8>)) -> Seq<u8> {
    enc_bytes(p.0) + seq![0x3du8] + enc_bytes(p.1)
}

/// The encoding of the pairs after the first, each preceded by `&`.
pub open spec fn enc_more(fs: Seq<(Seq<u8>, Seq<u8>)>) -> Seq<u8>
    decreases fs.len(),
{
    if fs.len() == 0 {
        Seq::empty()
    } else {
        seq![0x26u8] + enc_pair(fs[0]) + enc_more(fs.skip(1))
    }
}

/// The encoding of an ordered field mapping.
pub open spec fn enc_pairs(fs: Seq<(Seq<u8>, Seq<u8>)>) -> Seq<u8> {
    if fs.len() == 0 {
        Seq::empty()
    } else {
        enc_pair(fs[0]) + enc_more(fs.skip(1))
    }
}

/// Appends the encoding of `s` to `out`.
fn enc_append(out: &mut Vec<u8>, s: &[u8])
    ensures
        final(out)@ == old(out)@ + enc_bytes(s@),
{
    let s_len = s.len();
    let mut k: usize = 0;
    proof {
        assert(s@.skip(0) =~= s@);
    }
    while k < s_len
        invariant
            s_len == s@.len(),
            k <= s_len,
            out@ + enc_bytes(s@.skip(k as int)) == old(out)@ + enc_bytes(s@),
        decreases s_len - k,
    {
        let ghost tail = s@.skip(k as int);
        proof {
            assert(tail[0] == s@[k as int]);
            assert(tail.skip(1) =~= s@.skip(k + 1));
            assert(enc_bytes(tail) == enc_byte(s@[k as int]) + enc_bytes(s@.skip(k + 1)));
        }
        let b = s[k];
        let ghost before = out@;
        if b == 0x2a || b == 0x2d || b == 0x2e || b == 0x5f || (0x30 <= b && b <= 0x39) || (0x41
            <= b && b <= 0x5a) || (0x61 <= b && b <= 0x7a) {
            out.push(b);
        } else if b == 0x20 {
            out.push(0x2b);
        } else {
            out.push(0x25);
            let hi = b / 16;
            let lo = b % 16;
            out.push(if hi < 10 {
                0x30 + hi
            } else {
                0x37 + hi
            });
            out.push(if lo < 10 {
                0x30 + lo
            } else {
                0x37 + lo
            });
        }
        proof {
            assert(out@ =~= before + enc_byte(s@[k as int]));
            assert(out@ + enc_bytes(s@.skip(k + 1)) =~= before + enc_bytes(tail));
        }
        k += 1;
    }
    proof {
        assert(s@.skip(s@.len() as int) =~= Seq::<u8>::empty());
        assert(out@ + Seq::<u8>::empty() =~= out@);
    }
}

/// Encodes an ordered field mapping as a request body.
pub fn urlencode_pairs(fs: &Vec<(Vec<u8>, Vec<u8>)>) -> (r: Vec<u8>)
    ensures
        r@ == enc_pairs(view_fields(fs@)),
{
    let n = fs.len();
    let mut out: Vec<u8> = Vec::new();
    if n == 0 {
        return out;
    }
    let ghost fv = view_fields(fs@);
    enc_append(&mut out, fs[0].0.as_slice());
    out.push(0x3d);
    enc_append(&mut out, fs[0].1.as_slice());
    proof {
        assert(out@ =~= enc_pair(fv[0]));
    }
    let mut k: usize = 1;
    proof {
        assert(fv.skip(1).skip(0) =~= fv.skip(1));
    }
    while k < n
        invariant
            n == fs@.len(),
            fv == view_fields(fs@),
            fv.len() == n,
            1 <= k <= n,
            out@ + enc_more(fv.skip(k as int)) == enc_pair(fv[0]) + enc_more(fv.skip(1)),
        decreases n - k,
    {
        let ghost tail = fv.skip(k as int);
        proof {
            assert(tail[0] == fv[k as int]);
            assert(tail.skip(1) =~= fv.skip(k + 1));
            assert(enc_more(tail) == seq![0x26u8] + enc_pair(fv[k as int]) + enc_more(
                fv.skip(k + 1),
            ));
        }
        let ghost before = out@;
        out.push(0x26);
        enc_append(&mut out, fs[k].0.as_slice());
        out.push(0x3d);
        enc_append(&mut out, fs[k].1.as_slice());
        proof {
            assert(fv[k as int] == (fs@[k as int].0@, fs@[k as int].1@));
            assert(out@ =~= before + (seq![0x26u8] + enc_pair(fv[k as int])));
            assert(out@ + enc_more(fv.skip(k + 1)) =~= before + enc_more(tail));
        }
        k += 1;
    }
    proof {
        assert(fv.skip(n as int) =~= Seq::<(Seq<u8>, Seq<u8>)>::empty());
        assert(out@ + Seq::<u8>::empty() =~= out@);
    }
    out
}

} // verus!
