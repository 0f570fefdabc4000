//! Base64url without padding, as the proof key for code exchange writes
//! its verifier and challenge.
use vstd::prelude::*;
use crate::strings::push_char;

verus! {

/// The base64url alphabet: letters, digits, `-` and `_`.
pub open spec fn b64_char(n: int) -> char {
    if n < 26 {
        (((65 + n) as u8) as char)
    } else if n < 52 {
        (((71 + n) as u8) as char)
    } else if n < 62 {
        (((n - 4) as u8) as char)
    } else if n == 62 {
        '-'
    } else {
        '_'
    }
}

/// Base64url without padding, as the code-exchange proof key uses it: each
/// group of three bytes becomes four characters, a final group of two bytes
/// three characters, a final single byte two.
pub open spec fn b64url(bs: Seq<u8>) -> Seq<char>
    decreases bs.len(),
{
    if bs.len() == 0 {
        Seq::empty()
    } else if bs.len() == 1 {
        let b0 = bs[0];
        seq![b64_char((b0 >> 2) as int), b64_char((((b0 & 0x3) as u32) << 4) as int)]
    } else if bs.len() == 2 {
        let b0 = bs[0];
        let b1 = bs[1];
        seq![
            b64_char((b0 >> 2) as int),
            b64_char(((((b0 & 0x3) as u32) << 4) | ((b1 >> 4) as u32)) as int),
            b64_char((((b1 & 0xf) as u32) << 2) as int),
        ]
    } else {
        let b0 = bs[0];
        let b1 = bs[1];
        let b2 = bs[2];
        seq![
            b64_char((b0 >> 2) as int),
            b64_char(((((b0 & 0x3) as u32) << 4) | ((b1 >> 4) as u32)) as int),
            b64_char(((((b1 & 0xf) as u32) << 2) | ((b2 >> 6) as u32)) as int),
            b64_char((b2 & 0x3f) as int),
        ] + b64url(bs.skip(3))
    }
}

/// How long an encoding is: four characters for every three bytes, and two
/// or three more for a final group of one or two bytes.
pub proof fn lemma_b64url_len(bs: Seq<u8>)
    ensures
        b64url(bs).len() == if bs.len() % 3 == 0 {
            bs.len() / 3 * 4
        } else if bs.len() % 3 == 1 {
            bs.len() / 3 * 4 + 2
        } else {
            bs.len() / 3 * 4 + 3
        },
    decreases bs.len(),
{
    if bs.len() >= 3 {
        lemma_b64url_len(bs.skip(3));
    }
}

/// The base64url character for a value below sixty-four.
pub fn b64_char_of(n: u8) -> (c: char)
    requires
        n < 64,
    ensures
        c == b64_char(n as int),
{
    if n < 26 {
        (65 + n) as char
    } else if n < 52 {
        (71 + n) as char
    } else if n < 62 {
        (n - 4) as char
    } else if n == 62 {
        '-'
    } else {
        '_'
    }
}

/// The base64url encoding of `bs`, without padding.
pub fn b64url_encode(bs: &[u8]) -> (r: String)
    ensures
        r@ == b64url(bs@),
{
    let mut out = String::new();
    let n = bs.len();
    let mut i: usize = 0;
    proof {
        assert(bs@.skip(0) =~= bs@);
    }
    while n - i >= 3
        invariant
            n == bs@.len(),
            i <= n,
            out@ + b64url(bs@.skip(i as int)) == b64url(bs@),
        decreases n - i,
    {
        let b0 = bs[i];
        let b1 = bs[i + 1];
        let b2 = bs[i + 2];
        proof {
            assert(bs@.skip(i as int)[0] == bs@[i as int]);
            assert(bs@.skip(i as int)[1] == bs@[i + 1]);
            assert(bs@.skip(i as int)[2] == bs@[i + 2]);
            assert(bs@.skip(i as int).skip(3) =~= bs@.skip(i + 3));
            assert((b0 >> 2) < 64 && ((((b0 & 0x3) as u32) << 4) | ((b1 >> 4) as u32)) < 64 && ((((
            b1 & 0xf) as u32) << 2) | ((b2 >> 6) as u32)) < 64 && (b2 & 0x3f) < 64)
                by (bit_vector);
        }
        push_char(&mut out, b64_char_of(b0 >> 2));
        push_char(
            &mut out,
            b64_char_of(((((b0 & 0x3) as u32) << 4) | ((b1 >> 4) as u32)) as u8),
        );
        push_char(
            &mut out,
            b64_char_of(((((b1 & 0xf) as u32) << 2) | ((b2 >> 6) as u32)) as u8),
        );
        push_char(&mut out, b64_char_of(b2 & 0x3f));
        proof {
            assert(out@ + b64url(bs@.skip(i + 3)) =~= b64url(bs@));
        }
        i += 3;
    }
    if n - i == 1 {
        let b0 = bs[i];
        proof {
            assert(bs@.skip(i as int)[0] == bs@[i as int]);
            assert((b0 >> 2) < 64 && (((b0 & 0x3) as u32) << 4) < 64) by (bit_vector);
        }
        push_char(&mut out, b64_char_of(b0 >> 2));
        push_char(&mut out, b64_char_of((((b0 & 0x3) as u32) << 4) as u8));
        proof {
            assert(out@ =~= b64url(bs@));
        }
    } else if n - i == 2 {
        let b0 = bs[i];
        let b1 = bs[i + 1];
        proof {
            assert(bs@.skip(i as int)[0] == bs@[i as int]);
            assert(bs@.skip(i as int)[1] == bs@[i + 1]);
            assert((b0 >> 2) < 64 && ((((b0 & 0x3) as u32) << 4) | ((b1 >> 4) as u32)) < 64 && ((((
            b1 & 0xf) as u32) << 2)) < 64) by (bit_vector);
        }
        push_char(&mut out, b64_char_of(b0 >> 2));
        push_char(
            &mut out,
            b64_char_of(((((b0 & 0x3) as u32) << 4) | ((b1 >> 4) as u32)) as u8),
        );
        push_char(&mut out, b64_char_of((((b1 & 0xf) as u32) << 2) as u8));
        proof {
            assert(out@ =~= b64url(bs@));
        }
    } else {
        proof {
            assert(bs@.skip(i as int) =~= Seq::<u8>::empty());
            assert(out@ =~= b64url(bs@));
        }
    }
    out
}

} // verus!
