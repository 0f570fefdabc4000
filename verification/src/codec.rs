//! The cache-file format: hexadecimal digits, the escaping that keeps a
//! key or token on one line, and the encoding and decoding of whole
//! tables, proved inverse to one another.
use vstd::prelude::*;
use vstd::utf8::is_scalar;
use vstd::utf8::char_is_scalar;
use vstd::utf8::char_u32_cast;
use crate::strings::push_char;
use crate::strings::char_from_u32;

verus! {

/// The lowercase hexadecimal digit for a value below sixteen.
pub open spec fn hex_char(n: int) -> char {
    if n == 0 {
        '0'
    } else if n == 1 {
        '1'
    } else if n == 2 {
        '2'
    } else if n == 3 {
        '3'
    } else if n == 4 {
        '4'
    } else if n == 5 {
        '5'
    } else if n == 6 {
        '6'
    } else if n == 7 {
        '7'
    } else if n == 8 {
        '8'
    } else if n == 9 {
        '9'
    } else if n == 10 {
        'a'
    } else if n == 11 {
        'b'
    } else if n == 12 {
        'c'
    } else if n == 13 {
        'd'
    } else if n == 14 {
        'e'
    } else {
        'f'
    }
}

/// The uppercase hexadecimal digit for a value below sixteen.
pub open spec fn hex_char_upper(n: int) -> char {
    if n == 0 {
        '0'
    } else if n == 1 {
        '1'
    } else if n == 2 {
        '2'
    } else if n == 3 {
        '3'
    } else if n == 4 {
        '4'
    } else if n == 5 {
        '5'
    } else if n == 6 {
        '6'
    } else if n == 7 {
        '7'
    } else if n == 8 {
        '8'
    } else if n == 9 {
        '9'
    } else if n == 10 {
        'A'
    } else if n == 11 {
        'B'
    } else if n == 12 {
        'C'
    } else if n == 13 {
        'D'
    } else if n == 14 {
        'E'
    } else {
        'F'
    }
}

/// The uppercase hexadecimal digit for `n`.
pub fn hex_char_upper_of(n: u8) -> (c: char)
    requires
        n < 16,
    ensures
        c == hex_char_upper(n as int),
{
    match n {
        0 => '0',
        1 => '1',
        2 => '2',
        3 => '3',
        4 => '4',
        5 => '5',
        6 => '6',
        7 => '7',
        8 => '8',
        9 => '9',
        10 => 'A',
        11 => 'B',
        12 => 'C',
        13 => 'D',
        14 => 'E',
        _ => 'F',
    }
}

/// The value of a hexadecimal digit, lowercase or uppercase; -1 for any
/// other character.
pub open spec fn hex_val(c: char) -> int {
    if c == '0' {
        0
    } else if c == '1' {
        1
    } else if c == '2' {
        2
    } else if c == '3' {
        3
    } else if c == '4' {
        4
    } else if c == '5' {
        5
    } else if c == '6' {
        6
    } else if c == '7' {
        7
    } else if c == '8' {
        8
    } else if c == '9' {
        9
    } else if c == 'a' || c == 'A' {
        10
    } else if c == 'b' || c == 'B' {
        11
    } else if c == 'c' || c == 'C' {
        12
    } else if c == 'd' || c == 'D' {
        13
    } else if c == 'e' || c == 'E' {
        14
    } else if c == 'f' || c == 'F' {
        15
    } else {
        -1
    }
}

/// The lowercase hexadecimal digit for `n`.
pub fn hex_char_of(n: u32) -> (c: char)
    requires
        n < 16,
    ensures
        c == hex_char(n as int),
{
    match n {
        0 => '0',
        1 => '1',
        2 => '2',
        3 => '3',
        4 => '4',
        5 => '5',
        6 => '6',
        7 => '7',
        8 => '8',
        9 => '9',
        10 => 'a',
        11 => 'b',
        12 => 'c',
        13 => 'd',
        14 => 'e',
        _ => 'f',
    }
}

/// The value of a hexadecimal digit, or `None` for any other character.
pub fn hex_val_of(c: char) -> (r: Option<u32>)
    ensures
        match r {
            Some(v) => hex_val(c) == v && v < 16,
            None => hex_val(c) == -1,
        },
{
    match c {
        '0' => Some(0),
        '1' => Some(1),
        '2' => Some(2),
        '3' => Some(3),
        '4' => Some(4),
        '5' => Some(5),
        '6' => Some(6),
        '7' => Some(7),
        '8' => Some(8),
        '9' => Some(9),
        'a' | 'A' => Some(10),
        'b' | 'B' => Some(11),
        'c' | 'C' => Some(12),
        'd' | 'D' => Some(13),
        'e' | 'E' => Some(14),
        'f' | 'F' => Some(15),
        _ => None,
    }
}

/// A character the cache file keeps as it is: printable ASCII, except the
/// two characters the format itself uses, `:` and `%`.
pub open spec fn plain_char(c: char) -> bool {
    0x20 <= c as u32 <= 0x7e && c != ':' && c != '%'
}

/// How the cache file writes one character: plain characters stand for
/// themselves, every other one becomes `%` and six hexadecimal digits of
/// its Unicode scalar value.
pub open spec fn esc_char(c: char) -> Seq<char> {
    if plain_char(c) {
        seq![c]
    } else {
        let u = c as u32;
        seq![
            '%',
            hex_char(((u >> 20) & 0xf) as int),
            hex_char(((u >> 16) & 0xf) as int),
            hex_char(((u >> 12) & 0xf) as int),
            hex_char(((u >> 8) & 0xf) as int),
            hex_char(((u >> 4) & 0xf) as int),
            hex_char((u & 0xf) as int),
        ]
    }
}

/// How the cache file writes a string: each character escaped in turn.
pub open spec fn esc(s: Seq<char>) -> Seq<char>
    decreases s.len(),
{
    if s.len() == 0 {
        Seq::empty()
    } else {
        esc_char(s[0]) + esc(s.skip(1))
    }
}

/// Escaping a concatenation escapes the parts one after the other.
pub proof fn lemma_esc_append(a: Seq<char>, b: Seq<char>)
    ensures
        esc(a + b) == esc(a) + esc(b),
    decreases a.len(),
{
    if a.len() == 0 {
        assert(a + b =~= b);
        assert(esc(a) + esc(b) =~= esc(b));
    } else {
        lemma_esc_append(a.skip(1), b);
        assert((a + b).skip(1) =~= a.skip(1) + b);
        assert(esc(a + b) =~= esc(a) + esc(b));
    }
}

/// Appends the escaped form of the characters `v` to `out`.
pub fn esc_push(out: &mut String, v: &[char])
    ensures
        final(out)@ == old(out)@ + esc(v@),
{
    let mut i: usize = 0;
    proof {
        assert(v@.take(0) =~= Seq::<char>::empty());
        assert(old(out)@ + esc(v@.take(0)) =~= old(out)@);
    }
    while i < v.len()
        invariant
            i <= v@.len(),
            out@ == old(out)@ + esc(v@.take(i as int)),
        decreases v@.len() - i,
    {
        let c = v[i];
        proof {
            assert(v@.take(i + 1) =~= v@.take(i as int) + seq![c]);
            lemma_esc_append(v@.take(i as int), seq![c]);
            assert(seq![c].skip(1) =~= Seq::<char>::empty());
            assert(seq![c][0] == c);
            assert(esc(Seq::<char>::empty()) =~= Seq::<char>::empty());
            assert(esc(seq![c]) =~= esc_char(c));
        }
        let u = c as u32;
        proof {
            assert(((u >> 20) & 0xf) < 16 && ((u >> 16) & 0xf) < 16 && ((u >> 12) & 0xf) < 16 && ((
            u >> 8) & 0xf) < 16 && ((u >> 4) & 0xf) < 16 && (u & 0xf) < 16) by (bit_vector);
        }
        if 0x20 <= u && u <= 0x7e && c != ':' && c != '%' {
            push_char(out, c);
        } else {
            push_char(out, '%');
            push_char(out, hex_char_of((u >> 20) & 0xf));
            push_char(out, hex_char_of((u >> 16) & 0xf));
            push_char(out, hex_char_of((u >> 12) & 0xf));
            push_char(out, hex_char_of((u >> 8) & 0xf));
            push_char(out, hex_char_of((u >> 4) & 0xf));
            push_char(out, hex_char_of(u & 0xf));
            proof {
                assert(out@ =~= old(out)@ + esc(v@.take(i as int)) + esc_char(c));
            }
        }
        proof {
            assert(out@ =~= old(out)@ + esc(v@.take(i + 1)));
        }
        i += 1;
    }
    proof {
        assert(v@.take(v@.len() as int) =~= v@);
    }
}

/// Reads escaped characters up to the stop character. `None` where the
/// input is not an escaped string followed by the stop: no stop at all, a
/// character outside the plain set, or a broken or over-large escape.
/// Otherwise the decoded characters and what follows the stop.
pub open spec fn unesc_until(s: Seq<char>, stop: char) -> Option<(Seq<char>, Seq<char>)>
    decreases s.len(),
{
    if s.len() == 0 {
        None
    } else if s[0] == stop {
        Some((Seq::empty(), s.skip(1)))
    } else if s[0] == '%' {
        if s.len() < 7 {
            None
        } else {
            let v5 = hex_val(s[1]);
            let v4 = hex_val(s[2]);
            let v3 = hex_val(s[3]);
            let v2 = hex_val(s[4]);
            let v1 = hex_val(s[5]);
            let v0 = hex_val(s[6]);
            if v5 < 0 || v4 < 0 || v3 < 0 || v2 < 0 || v1 < 0 || v0 < 0 {
                None
            } else {
                let u = ((v5 as u32) << 20) | ((v4 as u32) << 16) | ((v3 as u32) << 12) | ((
                v2 as u32) << 8) | ((v1 as u32) << 4) | (v0 as u32);
                if is_scalar(u) {
                    match unesc_until(s.skip(7), stop) {
                        Some(p) => Some((seq![u as char] + p.0, p.1)),
                        None => None,
                    }
                } else {
                    None
                }
            }
        }
    } else if plain_char(s[0]) {
        match unesc_until(s.skip(1), stop) {
            Some(p) => Some((seq![s[0]] + p.0, p.1)),
            None => None,
        }
    } else {
        None
    }
}

/// A successful read always consumes at least the stop character.
pub proof fn lemma_unesc_consumes(s: Seq<char>, stop: char)
    ensures
        unesc_until(s, stop) is Some ==> (unesc_until(s, stop)->0).1.len() < s.len(),
    decreases s.len(),
{
    if s.len() == 0 {
    } else if s[0] == stop {
    } else if s[0] == '%' {
        if s.len() >= 7 {
            lemma_unesc_consumes(s.skip(7), stop);
        }
    } else if plain_char(s[0]) {
        lemma_unesc_consumes(s.skip(1), stop);
    }
}

/// Every hexadecimal digit decodes back to its value.
proof fn lemma_hex_roundtrip(n: int)
    requires
        0 <= n < 16,
    ensures
        hex_val(hex_char(n)) == n,
{
}

/// Reading an escaped string back yields the string: decoding is the exact
/// inverse of encoding, whatever follows the stop character.
pub proof fn lemma_unesc_esc(s: Seq<char>, stop: char, rest: Seq<char>)
    requires
        !plain_char(stop),
        stop != '%',
    ensures
        unesc_until(esc(s) + seq![stop] + rest, stop) == Some((s, rest)),
    decreases s.len(),
{
    let input = esc(s) + seq![stop] + rest;
    if s.len() == 0 {
        assert(esc(s) =~= Seq::<char>::empty());
        assert(input[0] == stop);
        assert(input.skip(1) =~= rest);
    } else {
        let c = s[0];
        let s1 = s.skip(1);
        lemma_unesc_esc(s1, stop, rest);
        let tail_input = esc(s1) + seq![stop] + rest;
        assert(esc(s) =~= esc_char(c) + esc(s1));
        assert(seq![c] + s1 =~= s);
        if plain_char(c) {
            assert(esc_char(c) =~= seq![c]);
            assert(input =~= seq![c] + tail_input);
            assert(input[0] == c);
            assert(input.skip(1) =~= tail_input);
        } else {
            let u = c as u32;
            char_is_scalar(c);
            char_u32_cast(c, u);
            let v5 = (u >> 20) & 0xf;
            let v4 = (u >> 16) & 0xf;
            let v3 = (u >> 12) & 0xf;
            let v2 = (u >> 8) & 0xf;
            let v1 = (u >> 4) & 0xf;
            let v0 = u & 0xf;
            assert(((u >> 20) & 0xf) < 16 && ((u >> 16) & 0xf) < 16 && ((u >> 12) & 0xf) < 16
                && ((u >> 8) & 0xf) < 16 && ((u >> 4) & 0xf) < 16 && (u & 0xf) < 16)
                by (bit_vector);
            assert((((u >> 20) & 0xf) << 20) | (((u >> 16) & 0xf) << 16) | (((u >> 12) & 0xf)
                << 12) | (((u >> 8) & 0xf) << 8) | (((u >> 4) & 0xf) << 4) | (u & 0xf) == u)
                by (bit_vector)
                requires
                    u <= 0x10FFFFu32,
            ;
            lemma_hex_roundtrip(v5 as int);
            lemma_hex_roundtrip(v4 as int);
            lemma_hex_roundtrip(v3 as int);
            lemma_hex_roundtrip(v2 as int);
            lemma_hex_roundtrip(v1 as int);
            lemma_hex_roundtrip(v0 as int);
            assert(input =~= esc_char(c) + tail_input);
            assert(input.len() >= 8);
            assert(input[0] == '%');
            assert(input[1] == hex_char(v5 as int));
            assert(input[2] == hex_char(v4 as int));
            assert(input[3] == hex_char(v3 as int));
            assert(input[4] == hex_char(v2 as int));
            assert(input[5] == hex_char(v1 as int));
            assert(input[6] == hex_char(v0 as int));
            assert(input.skip(7) =~= tail_input);
            assert(u as char == c);
        }
    }
}

/// One line of the cache file: escaped key, a colon, escaped token, a
/// newline.
pub open spec fn encode_entry(e: (Seq<char>, Seq<char>)) -> Seq<char> {
    esc(e.0) + seq![':'] + esc(e.1) + seq!['\n']
}

/// The whole cache file: one line per binding, in table order.
pub open spec fn encode_entries(es: Seq<(Seq<char>, Seq<char>)>) -> Seq<char>
    decreases es.len(),
{
    if es.len() == 0 {
        Seq::empty()
    } else {
        encode_entry(es[0]) + encode_entries(es.skip(1))
    }
}

/// Encoding a concatenation of tables encodes the parts one after the other.
pub proof fn lemma_encode_entries_append(a: Seq<(Seq<char>, Seq<char>)>, b: Seq<(Seq<char>, Seq<char>)>)
    ensures
        encode_entries(a + b) == encode_entries(a) + encode_entries(b),
    decreases a.len(),
{
    if a.len() == 0 {
        assert(a + b =~= b);
        assert(encode_entries(a) + encode_entries(b) =~= encode_entries(b));
    } else {
        lemma_encode_entries_append(a.skip(1), b);
        assert((a + b).skip(1) =~= a.skip(1) + b);
        assert(encode_entries(a + b) =~= encode_entries(a) + encode_entries(b));
    }
}

/// What a cache file means: the bindings its lines hold, or `None` where
/// some line is not a well-formed escaped pair.
pub open spec fn parse_entries(s: Seq<char>) -> Option<Seq<(Seq<char>, Seq<char>)>>
    decreases s.len(),
    via parse_entries_decreases
{
    if s.len() == 0 {
        Some(Seq::empty())
    } else {
        match unesc_until(s, ':') {
            None => None,
            Some(kp) => match unesc_until(kp.1, '\n') {
                None => None,
                Some(vp) => match parse_entries(vp.1) {
                    None => None,
                    Some(tail) => Some(seq![(kp.0, vp.0)] + tail),
                },
            },
        }
    }
}

#[via_fn]
proof fn parse_entries_decreases(s: Seq<char>) {
    if s.len() != 0 {
        lemma_unesc_consumes(s, ':');
        if unesc_until(s, ':') is Some {
            lemma_unesc_consumes((unesc_until(s, ':')->0).1, '\n');
        }
    }
}

/// A table written out and read back is the same table, binding for
/// binding and in the same order.
pub proof fn lemma_parse_encode(es: Seq<(Seq<char>, Seq<char>)>)
    ensures
        parse_entries(encode_entries(es)) == Some(es),
    decreases es.len(),
{
    if es.len() == 0 {
    } else {
        let e = es[0];
        let tail = encode_entries(es.skip(1));
        lemma_parse_encode(es.skip(1));
        lemma_unesc_esc(e.0, ':', esc(e.1) + seq!['\n'] + tail);
        lemma_unesc_esc(e.1, '\n', tail);
        assert(encode_entries(es) =~= esc(e.0) + seq![':'] + (esc(e.1) + seq!['\n'] + tail));
        assert(esc(e.1) + seq!['\n'] + tail =~= esc(e.1) + seq!['\n'] + tail);
        assert(encode_entries(es).len() > 0);
        assert(seq![(e.0, e.1)] + es.skip(1) =~= es);
    }
}

/// Decodes escaped characters from position `start` up to the stop
/// character; on success the decoded characters and the position just past
/// the stop.
pub fn unesc_until_exec(v: &Vec<char>, start: usize, stop: char) -> (r: Option<(Vec<char>, usize)>)
    requires
        start <= v@.len(),
    ensures
        match r {
            Some(p) => start < p.1 <= v@.len() && unesc_until(v@.skip(start as int), stop)
                == Some((p.0@, v@.skip(p.1 as int))),
            None => unesc_until(v@.skip(start as int), stop) is None,
        },
{
    let mut acc: Vec<char> = Vec::new();
    let mut i: usize = start;
    loop
        invariant
            start <= i <= v@.len(),
            match unesc_until(v@.skip(i as int), stop) {
                Some(p) => unesc_until(v@.skip(start as int), stop) == Some((acc@ + p.0, p.1)),
                None => unesc_until(v@.skip(start as int), stop) is None,
            },
        decreases v@.len() - i,
    {
        if i >= v.len() {
            proof {
                assert(v@.skip(i as int) =~= Seq::<char>::empty());
            }
            return None;
        }
        let c = v[i];
        proof {
            assert(v@.skip(i as int)[0] == v@[i as int]);
            assert(v@.skip(i as int).skip(1) =~= v@.skip(i + 1));
        }
        if c == stop {
            proof {
                assert(acc@ + Seq::<char>::empty() =~= acc@);
            }
            return Some((acc, i + 1));
        } else if c == '%' {
            if v.len() - i < 7 {
                return None;
            }
            proof {
                assert(v@.skip(i as int)[1] == v@[i + 1]);
                assert(v@.skip(i as int)[2] == v@[i + 2]);
                assert(v@.skip(i as int)[3] == v@[i + 3]);
                assert(v@.skip(i as int)[4] == v@[i + 4]);
                assert(v@.skip(i as int)[5] == v@[i + 5]);
                assert(v@.skip(i as int)[6] == v@[i + 6]);
                assert(v@.skip(i as int).skip(7) =~= v@.skip(i + 7));
            }
            let d5 = hex_val_of(v[i + 1]);
            let d4 = hex_val_of(v[i + 2]);
            let d3 = hex_val_of(v[i + 3]);
            let d2 = hex_val_of(v[i + 4]);
            let d1 = hex_val_of(v[i + 5]);
            let d0 = hex_val_of(v[i + 6]);
            match (d5, d4, d3, d2, d1, d0) {
                (Some(v5), Some(v4), Some(v3), Some(v2), Some(v1), Some(v0)) => {
                    let u = (v5 << 20) | (v4 << 16) | (v3 << 12) | (v2 << 8) | (v1 << 4) | v0;
                    if u < 0xD800 || (0xE000 <= u && u <= 0x10FFFF) {
                        let c2 = match char_from_u32(u) {
                            Some(c2) => c2,
                            None => {
                                proof {
                                    assert(false);
                                }
                                return None;
                            },
                        };
                        proof {
                            char_u32_cast(c2, u);
                            assert(u as char == c2);
                            match unesc_until(v@.skip(i + 7), stop) {
                                Some(p) => {
                                    assert(acc@ + (seq![c2] + p.0) =~= acc@.push(c2) + p.0);
                                },
                                None => {},
                            }
                        }
                        acc.push(c2);
                        i = i + 7;
                    } else {
                        proof {
                            assert(!is_scalar(u));
                        }
                        return None;
                    }
                },
                _ => {
                    return None;
                },
            }
        } else {
            let u = c as u32;
            if 0x20 <= u && u <= 0x7e && c != ':' && c != '%' {
                proof {
                    match unesc_until(v@.skip(i + 1), stop) {
                        Some(p) => {
                            assert(acc@ + (seq![c] + p.0) =~= acc@.push(c) + p.0);
                        },
                        None => {},
                    }
                }
                acc.push(c);
                i = i + 1;
            } else {
                return None;
            }
        }
    }
}

} // verus!
