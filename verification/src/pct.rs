//! Percent-encoding for URL query components, over the UTF-8 bytes of
//! each character.
use vstd::prelude::*;
use vstd::utf8::char_is_scalar;
use vstd::utf8::encode_scalar;
use crate::codec::hex_char_upper;
use crate::codec::hex_char_upper_of;
use crate::strings::push_char;

verus! {

/// A character a URL keeps as it is: letters, digits, `-`, `.`, `_`, `~`.
pub open spec fn unreserved(c: char) -> bool {
    let u = c as u32;
    (0x41 <= u <= 0x5a) || (0x61 <= u <= 0x7a) || (0x30 <= u <= 0x39) || c == '-' || c == '.'
        || c == '_' || c == '~'
}

/// One percent-escaped byte: `%` and two uppercase hexadecimal digits.
pub open spec fn pct_byte(b: u8) -> Seq<char> {
    seq!['%', hex_char_upper((b >> 4) as int), hex_char_upper((b & 0xf) as int)]
}

/// A byte string percent-escaped byte for byte.
pub open spec fn pct_bytes(bs: Seq<u8>) -> Seq<char>
    decreases bs.len(),
{
    if bs.len() == 0 {
        Seq::empty()
    } else {
        pct_byte(bs[0]) + pct_bytes(bs.skip(1))
    }
}

/// Percent-encoding as a URL query component wants it: unreserved
/// characters stand for themselves, every other character becomes the
/// percent-escaped bytes of its UTF-8 encoding.
pub open spec fn pct_encode(s: Seq<char>) -> Seq<char>
    decreases s.len(),
{
    if s.len() == 0 {
        Seq::empty()
    } else {
        (if unreserved(s[0]) {
            seq![s[0]]
        } else {
            pct_bytes(encode_scalar(s[0] as u32))
        }) + pct_encode(s.skip(1))
    }
}

/// Percent-encoding a concatenation encodes the parts one after the other.
pub proof fn lemma_pct_encode_append(a: Seq<char>, b: Seq<char>)
    ensures
        pct_encode(a + b) == pct_encode(a) + pct_encode(b),
    decreases a.len(),
{
    if a.len() == 0 {
        assert(a + b =~= b);
        assert(pct_encode(a) + pct_encode(b) =~= pct_encode(b));
    } else {
        lemma_pct_encode_append(a.skip(1), b);
        assert((a + b).skip(1) =~= a.skip(1) + b);
        assert(pct_encode(a + b) =~= pct_encode(a) + pct_encode(b));
    }
}

/// The UTF-8 bytes of one character.
pub fn utf8_bytes_of_char(c: char) -> (r: Vec<u8>)
    ensures
        r@ == encode_scalar(c as u32),
{
    let u = c as u32;
    proof {
        char_is_scalar(c);
    }
    let mut r: Vec<u8> = Vec::new();
    if u <= 0x7F {
        r.push((u & 0x7F) as u8);
        proof {
            assert(r@ =~= encode_scalar(u));
        }
    } else if u <= 0x7FF {
        r.push((0xC0 | ((u >> 6) & 0x1F)) as u8);
        r.push((0x80 | (u & 0x3F)) as u8);
        proof {
            assert((0xC0 | ((u >> 6) & 0x1F)) as u8 == 0xC0 | (((u >> 6) & 0x1F) as u8))
                by (bit_vector);
            assert((0x80 | (u & 0x3F)) as u8 == 0x80 | ((u & 0x3F) as u8)) by (bit_vector);
            assert(r@ =~= encode_scalar(u));
        }
    } else if u <= 0xFFFF {
        r.push((0xE0 | ((u >> 12) & 0x0F)) as u8);
        r.push((0x80 | ((u >> 6) & 0x3F)) as u8);
        r.push((0x80 | (u & 0x3F)) as u8);
        proof {
            assert((0xE0 | ((u >> 12) & 0x0F)) as u8 == 0xE0 | (((u >> 12) & 0x0F) as u8))
                by (bit_vector);
            assert((0x80 | ((u >> 6) & 0x3F)) as u8 == 0x80 | (((u >> 6) & 0x3F) as u8))
                by (bit_vector);
            assert((0x80 | (u & 0x3F)) as u8 == 0x80 | ((u & 0x3F) as u8)) by (bit_vector);
            assert(r@ =~= encode_scalar(u));
        }
    } else {
        r.push((0xF0 | ((u >> 18) & 0x7)) as u8);
        r.push((0x80 | ((u >> 12) & 0x3F)) as u8);
        r.push((0x80 | ((u >> 6) & 0x3F)) as u8);
        r.push((0x80 | (u & 0x3F)) as u8);
        proof {
            assert((0xF0 | ((u >> 18) & 0x7)) as u8 == 0xF0 | (((u >> 18) & 0x7) as u8))
                by (bit_vector);
            assert((0x80 | ((u >> 12) & 0x3F)) as u8 == 0x80 | (((u >> 12) & 0x3F) as u8))
                by (bit_vector);
            assert((0x80 | ((u >> 6) & 0x3F)) as u8 == 0x80 | (((u >> 6) & 0x3F) as u8))
                by (bit_vector);
            assert((0x80 | (u & 0x3F)) as u8 == 0x80 | ((u & 0x3F) as u8)) by (bit_vector);
            assert(r@ =~= encode_scalar(u));
        }
    }
    r
}

/// Appends the percent-encoded form of the characters `v` to `out`.
pub fn pct_encode_push(out: &mut String, v: &[char])
    ensures
        final(out)@ == old(out)@ + pct_encode(v@),
{
    let mut i: usize = 0;
    proof {
        assert(v@.take(0) =~= Seq::<char>::empty());
        assert(old(out)@ + pct_encode(v@.take(0)) =~= old(out)@);
    }
    while i < v.len()
        invariant
            i <= v@.len(),
            out@ == old(out)@ + pct_encode(v@.take(i as int)),
        decreases v@.len() - i,
    {
        let c = v[i];
        proof {
            assert(v@.take(i + 1) =~= v@.take(i as int) + seq![c]);
            lemma_pct_encode_append(v@.take(i as int), seq![c]);
            assert(seq![c].skip(1) =~= Seq::<char>::empty());
            assert(seq![c][0] == c);
            assert(pct_encode(Seq::<char>::empty()) =~= Seq::<char>::empty());
        }
        let u = c as u32;
        if (0x41 <= u && u <= 0x5a) || (0x61 <= u && u <= 0x7a) || (0x30 <= u && u <= 0x39) || c
            == '-' || c == '.' || c == '_' || c == '~' {
            proof {
                assert(pct_encode(seq![c]) =~= seq![c]);
            }
            push_char(out, c);
        } else {
            let bytes = utf8_bytes_of_char(c);
            proof {
                assert(pct_encode(seq![c]) =~= pct_bytes(encode_scalar(c as u32)));
            }
            let ghost out_before = out@;
            let nb = bytes.len();
            let mut j: usize = 0;
            proof {
                assert(bytes@.skip(0) =~= bytes@);
            }
            while j < nb
                invariant
                    nb == bytes@.len(),
                    j <= nb,
                    out@ + pct_bytes(bytes@.skip(j as int)) == out_before + pct_bytes(bytes@),
                decreases nb - j,
            {
                let b = bytes[j];
                proof {
                    assert(bytes@.skip(j as int)[0] == bytes@[j as int]);
                    assert(bytes@.skip(j as int).skip(1) =~= bytes@.skip(j + 1));
                    assert((b >> 4) < 16 && (b & 0xf) < 16) by (bit_vector);
                }
                push_char(out, '%');
                push_char(out, hex_char_upper_of(b >> 4));
                push_char(out, hex_char_upper_of(b & 0xf));
                proof {
                    assert(out@ + pct_bytes(bytes@.skip(j + 1)) =~= out_before + pct_bytes(
                        bytes@,
                    ));
                }
                j += 1;
            }
            proof {
                assert(bytes@.skip(nb as int) =~= Seq::<u8>::empty());
                assert(pct_bytes(Seq::<u8>::empty()) =~= Seq::<char>::empty());
                assert(out@ =~= out_before + pct_bytes(bytes@));
            }
        }
        proof {
            assert(out@ =~= old(out)@ + pct_encode(v@.take(i + 1)));
        }
        i += 1;
    }
    proof {
        assert(v@.take(v@.len() as int) =~= v@);
    }
}

} // verus!
