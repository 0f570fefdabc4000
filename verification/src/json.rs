//! Reading the token endpoint's answer: a flat object of string, number,
//! boolean or null members, of which the first `access_token` string is
//! the token.
use vstd::prelude::*;
use crate::codec::hex_val;
use crate::codec::hex_val_of;
use crate::strings::chars_of;
use crate::strings::char_from_u32;
use crate::strings::push_char;
use crate::strings::str_eq;

verus! {

/// A whitespace character as the token response's notation knows it.
pub open spec fn json_ws(c: char) -> bool {
    c == ' ' || c == '\t' || c == '\n' || c == '\r'
}

/// The least index at or after `i` holding something other than
/// whitespace, or the length.
pub open spec fn skip_ws(s: Seq<char>, i: int) -> int
    decreases s.len() - i,
    when 0 <= i <= s.len()
{
    if i >= s.len() {
        s.len() as int
    } else if json_ws(s[i]) {
        skip_ws(s, i + 1)
    } else {
        i
    }
}

/// Where the skipping ends: between `i` and the length.
pub proof fn lemma_skip_ws_bounds(s: Seq<char>, i: int)
    requires
        0 <= i <= s.len(),
    ensures
        i <= skip_ws(s, i) <= s.len(),
        skip_ws(s, i) < s.len() ==> !json_ws(s[skip_ws(s, i)]),
    decreases s.len() - i,
{
    if i < s.len() && json_ws(s[i]) {
        lemma_skip_ws_bounds(s, i + 1);
    }
}

/// What a backslash escape stands for; `None` for an escape the notation
/// does not know.
pub open spec fn json_escape_map(e: char) -> Option<char> {
    if e == '"' {
        Some('"')
    } else if e == '\\' {
        Some('\\')
    } else if e == '/' {
        Some('/')
    } else if e == 'b' {
        Some('\u{8}')
    } else if e == 'f' {
        Some('\u{c}')
    } else if e == 'n' {
        Some('\n')
    } else if e == 'r' {
        Some('\r')
    } else if e == 't' {
        Some('\t')
    } else {
        None
    }
}

/// Reads a quoted string from just after its opening quote: the decoded
/// characters and the index past the closing quote. `None` where the
/// string never closes, holds a raw control character, or holds a broken
/// escape; a `\u` escape of a surrogate is refused too.
pub open spec fn parse_string_body(s: Seq<char>, i: int) -> Option<(Seq<char>, int)>
    decreases s.len() - i,
    when 0 <= i <= s.len()
{
    if i >= s.len() {
        None
    } else if s[i] == '"' {
        Some((Seq::empty(), i + 1))
    } else if s[i] == '\\' {
        if i + 2 > s.len() {
            None
        } else if s[i + 1] == 'u' {
            if i + 6 > s.len() {
                None
            } else {
                let h3 = hex_val(s[i + 2]);
                let h2 = hex_val(s[i + 3]);
                let h1 = hex_val(s[i + 4]);
                let h0 = hex_val(s[i + 5]);
                if h3 < 0 || h2 < 0 || h1 < 0 || h0 < 0 {
                    None
                } else {
                    let u = h3 * 4096 + h2 * 256 + h1 * 16 + h0;
                    if 0xD800 <= u <= 0xDFFF {
                        None
                    } else {
                        match parse_string_body(s, i + 6) {
                            None => None,
                            Some(p) => Some((seq![((u as u32) as char)] + p.0, p.1)),
                        }
                    }
                }
            }
        } else {
            match json_escape_map(s[i + 1]) {
                None => None,
                Some(c) => match parse_string_body(s, i + 2) {
                    None => None,
                    Some(p) => Some((seq![c] + p.0, p.1)),
                },
            }
        }
    } else if (s[i] as u32) < 0x20 {
        None
    } else {
        match parse_string_body(s, i + 1) {
            None => None,
            Some(p) => Some((seq![s[i]] + p.0, p.1)),
        }
    }
}

/// A successful read ends past where it began and within the input.
pub proof fn lemma_parse_string_bounds(s: Seq<char>, i: int)
    requires
        0 <= i <= s.len(),
    ensures
        parse_string_body(s, i) is Some ==> i < (parse_string_body(s, i)->0).1 <= s.len(),
    decreases s.len() - i,
{
    if i >= s.len() {
    } else if s[i] == '"' {
    } else if s[i] == '\\' {
        if i + 2 > s.len() {
        } else if s[i + 1] == 'u' {
            if i + 6 <= s.len() {
                lemma_parse_string_bounds(s, i + 6);
            }
        } else {
            lemma_parse_string_bounds(s, i + 2);
        }
    } else if (s[i] as u32) < 0x20 {
    } else {
        lemma_parse_string_bounds(s, i + 1);
    }
}

/// A character a bare value may consist of: digits, letters, sign, dot.
/// Together they cover numbers with exponents, `true`, `false` and `null`.
pub open spec fn value_char(c: char) -> bool {
    let u = c as u32;
    (0x30 <= u <= 0x39) || (0x61 <= u <= 0x7a) || (0x41 <= u <= 0x5a) || c == '-' || c == '+'
        || c == '.'
}

/// The least index at or after `i` holding no bare-value character, or the
/// length.
pub open spec fn skip_value_chars(s: Seq<char>, i: int) -> int
    decreases s.len() - i,
    when 0 <= i <= s.len()
{
    if i >= s.len() {
        s.len() as int
    } else if value_char(s[i]) {
        skip_value_chars(s, i + 1)
    } else {
        i
    }
}

/// Where the run ends: between `i` and the length.
pub proof fn lemma_skip_value_chars_bounds(s: Seq<char>, i: int)
    requires
        0 <= i <= s.len(),
    ensures
        i <= skip_value_chars(s, i) <= s.len(),
    decreases s.len() - i,
{
    if i < s.len() && value_char(s[i]) {
        lemma_skip_value_chars_bounds(s, i + 1);
    }
}

/// Steps over one member value — a quoted string or a bare value — and
/// yields the index just past it. `None` where no value starts at `i`;
/// a nested object or array is refused.
pub open spec fn skip_value(s: Seq<char>, i: int) -> Option<int> {
    if 0 <= i < s.len() && s[i] == '"' {
        match parse_string_body(s, i + 1) {
            None => None,
            Some(p) => Some(p.1),
        }
    } else {
        let j = skip_value_chars(s, i);
        if j == i {
            None
        } else {
            Some(j)
        }
    }
}

/// A successful step ends past where it began and within the input.
pub proof fn lemma_skip_value_bounds(s: Seq<char>, i: int)
    requires
        0 <= i <= s.len(),
    ensures
        skip_value(s, i) is Some ==> i < skip_value(s, i)->0 <= s.len(),
{
    if 0 <= i < s.len() && s[i] == '"' {
        lemma_parse_string_bounds(s, i + 1);
    } else {
        lemma_skip_value_chars_bounds(s, i);
    }
}

/// Walks the members of the response object from just after a `{` or `,`:
/// the value of the first `access_token` member, which must be a quoted
/// string. `None` where the member list is not well formed up to that
/// member, or where the object closes without one.
pub open spec fn scan_members(s: Seq<char>, i: int) -> Option<Seq<char>>
    decreases s.len() - i,
    when 0 <= i <= s.len()
    via scan_members_decreases
{
    let j = skip_ws(s, i);
    if j >= s.len() {
        None
    } else if s[j] != '"' {
        None
    } else {
        match parse_string_body(s, j + 1) {
            None => None,
            Some(kp) => {
                let j3 = skip_ws(s, kp.1);
                if j3 >= s.len() || s[j3] != ':' {
                    None
                } else {
                    let j4 = skip_ws(s, j3 + 1);
                    if kp.0 == "access_token"@ {
                        if j4 < s.len() && s[j4] == '"' {
                            match parse_string_body(s, j4 + 1) {
                                None => None,
                                Some(vp) => Some(vp.0),
                            }
                        } else {
                            None
                        }
                    } else {
                        match skip_value(s, j4) {
                            None => None,
                            Some(j5) => {
                                let j6 = skip_ws(s, j5);
                                if j6 < s.len() && s[j6] == ',' {
                                    scan_members(s, j6 + 1)
                                } else {
                                    None
                                }
                            },
                        }
                    }
                }
            },
        }
    }
}

#[via_fn]
proof fn scan_members_decreases(s: Seq<char>, i: int) {
    lemma_skip_ws_bounds(s, i);
    let j = skip_ws(s, i);
    if j < s.len() && s[j] == '"' {
        lemma_parse_string_bounds(s, j + 1);
        match parse_string_body(s, j + 1) {
            None => {},
            Some(kp) => {
                lemma_skip_ws_bounds(s, kp.1);
                let j3 = skip_ws(s, kp.1);
                if j3 < s.len() && s[j3] == ':' {
                    lemma_skip_ws_bounds(s, j3 + 1);
                    let j4 = skip_ws(s, j3 + 1);
                    lemma_skip_value_bounds(s, j4);
                    match skip_value(s, j4) {
                        None => {},
                        Some(j5) => {
                            lemma_skip_ws_bounds(s, j5);
                        },
                    }
                }
            },
        }
    }
}

/// The access token a token-endpoint response body carries: the value of
/// the first `access_token` member of the top-level object, which must be
/// a quoted string among string, number, boolean or null members. `None`
/// for any other body.
pub open spec fn token_from_json(body: Seq<char>) -> Option<Seq<char>> {
    let i = skip_ws(body, 0);
    if i < body.len() && body[i] == '{' {
        scan_members(body, i + 1)
    } else {
        None
    }
}

/// The least position at or after `from` holding no whitespace, or the
/// length.
fn skip_ws_at(v: &Vec<char>, from: usize) -> (r: usize)
    requires
        from <= v@.len(),
    ensures
        r == skip_ws(v@, from as int),
        from <= r <= v@.len(),
{
    let mut j = from;
    while j < v.len()
        invariant
            from <= j <= v@.len(),
            skip_ws(v@, from as int) == skip_ws(v@, j as int),
        decreases v@.len() - j,
    {
        let c = v[j];
        if !(c == ' ' || c == '\t' || c == '\n' || c == '\r') {
            return j;
        }
        j += 1;
    }
    j
}

/// Reads a quoted string from just after its opening quote: the decoded
/// string and the position past the closing quote.
fn parse_string_at(v: &Vec<char>, from: usize) -> (r: Option<(String, usize)>)
    requires
        from <= v@.len(),
    ensures
        match r {
            Some(p) => parse_string_body(v@, from as int) == Some((p.0@, p.1 as int)) && from
                < p.1 <= v@.len(),
            None => parse_string_body(v@, from as int) is None,
        },
{
    let mut acc = String::new();
    let mut i = from;
    proof {
        lemma_parse_string_bounds(v@, from as int);
    }
    loop
        invariant
            from <= i <= v@.len(),
            match parse_string_body(v@, i as int) {
                Some(p) => parse_string_body(v@, from as int) == Some((acc@ + p.0, p.1)),
                None => parse_string_body(v@, from as int) is None,
            },
        decreases v@.len() - i,
    {
        if i >= v.len() {
            return None;
        }
        let c = v[i];
        if c == '"' {
            proof {
                assert(acc@ + Seq::<char>::empty() =~= acc@);
            }
            return Some((acc, i + 1));
        } else if c == '\\' {
            if v.len() - i < 2 {
                return None;
            }
            let e = v[i + 1];
            if e == 'u' {
                if v.len() - i < 6 {
                    return None;
                }
                let d3 = hex_val_of(v[i + 2]);
                let d2 = hex_val_of(v[i + 3]);
                let d1 = hex_val_of(v[i + 4]);
                let d0 = hex_val_of(v[i + 5]);
                match (d3, d2, d1, d0) {
                    (Some(h3), Some(h2), Some(h1), Some(h0)) => {
                        let u: u32 = h3 * 4096 + h2 * 256 + h1 * 16 + h0;
                        if 0xD800 <= u && u <= 0xDFFF {
                            return None;
                        }
                        let c2 = match char_from_u32(u) {
                            Some(c2) => c2,
                            None => {
                                proof {
                                    assert(false);
                                }
                                return None;
                            },
                        };
                        proof {
                            vstd::utf8::char_u32_cast(c2, u);
                            assert((u as char) == c2);
                            match parse_string_body(v@, i + 6) {
                                Some(p) => {
                                    assert(acc@ + (seq![c2] + p.0) =~= acc@.push(c2) + p.0);
                                },
                                None => {},
                            }
                        }
                        push_char(&mut acc, c2);
                        i = i + 6;
                    },
                    _ => {
                        return None;
                    },
                }
            } else {
                let mapped: Option<char> = if e == '"' {
                    Some('"')
                } else if e == '\\' {
                    Some('\\')
                } else if e == '/' {
                    Some('/')
                } else if e == 'b' {
                    Some('\u{8}')
                } else if e == 'f' {
                    Some('\u{c}')
                } else if e == 'n' {
                    Some('\n')
                } else if e == 'r' {
                    Some('\r')
                } else if e == 't' {
                    Some('\t')
                } else {
                    None
                };
                match mapped {
                    Some(c2) => {
                        proof {
                            assert(json_escape_map(e) == Some(c2));
                            match parse_string_body(v@, i + 2) {
                                Some(p) => {
                                    assert(acc@ + (seq![c2] + p.0) =~= acc@.push(c2) + p.0);
                                },
                                None => {},
                            }
                        }
                        push_char(&mut acc, c2);
                        i = i + 2;
                    },
                    None => {
                        return None;
                    },
                }
            }
        } else if (c as u32) < 0x20 {
            return None;
        } else {
            proof {
                match parse_string_body(v@, i + 1) {
                    Some(p) => {
                        assert(acc@ + (seq![c] + p.0) =~= acc@.push(c) + p.0);
                    },
                    None => {},
                }
            }
            push_char(&mut acc, c);
            i = i + 1;
        }
    }
}

/// Steps over one member value, yielding the position just past it.
fn skip_value_at(v: &Vec<char>, from: usize) -> (r: Option<usize>)
    requires
        from <= v@.len(),
    ensures
        match r {
            Some(j) => skip_value(v@, from as int) == Some(j as int) && from < j <= v@.len(),
            None => skip_value(v@, from as int) is None,
        },
{
    if from < v.len() && v[from] == '"' {
        match parse_string_at(v, from + 1) {
            Some(p) => Some(p.1),
            None => None,
        }
    } else {
        let mut j = from;
        while j < v.len()
            invariant
                from <= j <= v@.len(),
                skip_value_chars(v@, from as int) == skip_value_chars(v@, j as int),
                from < v@.len() ==> v@[from as int] != '"',
            decreases v@.len() - j,
        {
            let c = v[j];
            let u = c as u32;
            if !((0x30 <= u && u <= 0x39) || (0x61 <= u && u <= 0x7a) || (0x41 <= u && u <= 0x5a)
                || c == '-' || c == '+' || c == '.') {
                proof {
                    assert(!value_char(v@[j as int]));
                    assert(skip_value_chars(v@, j as int) == j as int);
                }
                if j == from {
                    proof {
                        assert(skip_value_chars(v@, from as int) == from as int);
                        assert(skip_value(v@, from as int) is None);
                    }
                    return None;
                } else {
                    return Some(j);
                }
            }
            j += 1;
        }
        if j == from {
            None
        } else {
            Some(j)
        }
    }
}

/// Walks the members from just after a `{` or `,`, yielding the value of
/// the first `access_token` member.
fn scan_members_at(v: &Vec<char>, from: usize) -> (r: Option<String>)
    requires
        from <= v@.len(),
    ensures
        match r {
            Some(t) => scan_members(v@, from as int) == Some(t@),
            None => scan_members(v@, from as int) is None,
        },
    decreases v@.len() - from,
{
    let j = skip_ws_at(v, from);
    if j >= v.len() {
        return None;
    }
    if v[j] != '"' {
        return None;
    }
    let (key, j2) = match parse_string_at(v, j + 1) {
        Some(p) => p,
        None => {
            return None;
        },
    };
    let j3 = skip_ws_at(v, j2);
    if j3 >= v.len() {
        return None;
    }
    if v[j3] != ':' {
        return None;
    }
    let j4 = skip_ws_at(v, j3 + 1);
    if str_eq(key.as_str(), "access_token") {
        if j4 < v.len() && v[j4] == '"' {
            match parse_string_at(v, j4 + 1) {
                Some(p) => Some(p.0),
                None => None,
            }
        } else {
            None
        }
    } else {
        let j5 = match skip_value_at(v, j4) {
            Some(j5) => j5,
            None => {
                return None;
            },
        };
        let j6 = skip_ws_at(v, j5);
        if j6 < v.len() && v[j6] == ',' {
            scan_members_at(v, j6 + 1)
        } else {
            None
        }
    }
}

/// The access token the token-endpoint response body carries, if the body
/// is a well-formed flat object with a quoted `access_token` member.
pub fn extract_access_token(body: &str) -> (r: Option<String>)
    ensures
        match r {
            Some(t) => token_from_json(body@) == Some(t@),
            None => token_from_json(body@) is None,
        },
{
    let v = chars_of(body);
    let i = skip_ws_at(&v, 0);
    if i < v.len() && v[i] == '{' {
        scan_members_at(&v, i + 1)
    } else {
        None
    }
}

} // verus!
