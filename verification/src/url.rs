//! Reading the one callback request: the request line's target, its
//! query string, and the decision the redirect parameters lead to.
use vstd::prelude::*;
use crate::codec::hex_val;
use crate::codec::hex_val_of;
use crate::errors::AuthError;
use crate::kv::assoc_get;
use crate::kv::assoc_lookup;
use crate::kv::pairs_view;
use crate::strings::chars_of;
use crate::strings::push_char;
use crate::strings::str_eq;
use crate::strings::string_from_chars;

verus! {

/// The least index at or after `i` holding `c`, or the length.
pub open spec fn find_from(s: Seq<char>, i: int, c: char) -> int
    decreases s.len() - i,
    when 0 <= i <= s.len()
{
    if i >= s.len() {
        s.len() as int
    } else if s[i] == c {
        i
    } else {
        find_from(s, i + 1, c)
    }
}

/// Where the search ends: between `i` and the length, and on `c` if it is
/// not the length.
pub proof fn lemma_find_from_bounds(s: Seq<char>, i: int, c: char)
    requires
        0 <= i <= s.len(),
    ensures
        i <= find_from(s, i, c) <= s.len(),
        find_from(s, i, c) < s.len() ==> s[find_from(s, i, c)] == c,
    decreases s.len() - i,
{
    if i < s.len() && s[i] != c {
        lemma_find_from_bounds(s, i + 1, c);
    }
}

/// Searching a suffix finds the same character, shifted by where the
/// suffix begins.
pub proof fn lemma_find_from_skip(s: Seq<char>, base: int, j: int, c: char)
    requires
        0 <= base,
        0 <= j,
        base + j <= s.len(),
    ensures
        find_from(s.skip(base), j, c) == find_from(s, base + j, c) - base,
    decreases s.len() - base - j,
{
    if base + j >= s.len() {
    } else if s[base + j] == c {
        assert(s.skip(base)[j] == s[base + j]);
    } else {
        assert(s.skip(base)[j] == s[base + j]);
        lemma_find_from_skip(s, base, j + 1, c);
    }
}

/// The least index at or after `i` holding something other than a space,
/// or the length.
pub open spec fn skip_spaces(s: Seq<char>, i: int) -> int
    decreases s.len() - i,
    when 0 <= i <= s.len()
{
    if i >= s.len() {
        s.len() as int
    } else if s[i] == ' ' {
        skip_spaces(s, i + 1)
    } else {
        i
    }
}

/// The second space-separated field of an HTTP request line — the request
/// target — or `None` where the line has no second field.
pub open spec fn request_target(line: Seq<char>) -> Option<Seq<char>> {
    let m0 = skip_spaces(line, 0);
    let m1 = find_from(line, m0, ' ');
    let t0 = skip_spaces(line, m1);
    let t1 = find_from(line, t0, ' ');
    if t0 >= line.len() {
        None
    } else {
        Some(line.subrange(t0, t1))
    }
}

/// The query of a request target: everything after the first `?`, or
/// nothing where there is none.
pub open spec fn query_of(target: Seq<char>) -> Seq<char> {
    let q = find_from(target, 0, '?');
    if q >= target.len() {
        Seq::empty()
    } else {
        target.skip(q + 1)
    }
}

/// Query decoding, character by character: `+` means a space, `%` and two
/// hexadecimal digits below 0x80 mean that character, and anything else —
/// a plain character or a broken or non-ASCII escape — stands as it is.
pub open spec fn dec_query(s: Seq<char>) -> Seq<char>
    decreases s.len(),
{
    if s.len() == 0 {
        Seq::empty()
    } else if s[0] == '+' {
        seq![' '] + dec_query(s.skip(1))
    } else if s[0] == '%' && s.len() >= 3 && hex_val(s[1]) >= 0 && hex_val(s[2]) >= 0 && hex_val(
        s[1],
    ) * 16 + hex_val(s[2]) < 0x80 {
        seq![(((hex_val(s[1]) * 16 + hex_val(s[2])) as u32) as char)] + dec_query(s.skip(3))
    } else {
        seq![s[0]] + dec_query(s.skip(1))
    }
}

/// One `key=value` piece of a query, both sides decoded; a piece without
/// `=` is a key with an empty value.
pub open spec fn split_pair(pair: Seq<char>) -> (Seq<char>, Seq<char>) {
    let e = find_from(pair, 0, '=');
    if e >= pair.len() {
        (dec_query(pair), Seq::empty())
    } else {
        (dec_query(pair.subrange(0, e)), dec_query(pair.skip(e + 1)))
    }
}

/// The pieces of a query string, split on `&`, each split at its first
/// `=`, keys and values decoded, in order.
pub open spec fn query_params(q: Seq<char>) -> Seq<(Seq<char>, Seq<char>)>
    decreases q.len(),
    via query_params_decreases
{
    if q.len() == 0 {
        Seq::empty()
    } else {
        let amp = find_from(q, 0, '&');
        if amp >= q.len() {
            seq![split_pair(q)]
        } else {
            seq![split_pair(q.subrange(0, amp))] + query_params(q.skip(amp + 1))
        }
    }
}

#[via_fn]
proof fn query_params_decreases(q: Seq<char>) {
    if q.len() != 0 {
        lemma_find_from_bounds(q, 0, '&');
    }
}

/// The query parameters of the one callback request, or `None` where its
/// request line has no target field.
pub open spec fn redirect_params(line: Seq<char>) -> Option<Seq<(Seq<char>, Seq<char>)>> {
    match request_target(line) {
        None => None,
        Some(t) => Some(query_params(query_of(t))),
    }
}

/// What the callback request decides: the authorization code where the
/// line carries both a `code` and a `state` and the state is the expected
/// one; `MalformedRedirect` where the line or either parameter is missing;
/// `StateMismatch` where the state is another one.
pub open spec fn redirect_outcome(line: Seq<char>, expected_state: Seq<char>) -> Result<
    Seq<char>,
    AuthError,
> {
    match redirect_params(line) {
        None => Err(AuthError::MalformedRedirect),
        Some(params) => match assoc_lookup(params, "code"@) {
            None => Err(AuthError::MalformedRedirect),
            Some(code) => match assoc_lookup(params, "state"@) {
                None => Err(AuthError::MalformedRedirect),
                Some(st) => if st == expected_state {
                    Ok(code)
                } else {
                    Err(AuthError::StateMismatch)
                },
            },
        },
    }
}

/// The least position at or after `from` holding `c`, or the length.
pub fn find_char(v: &[char], from: usize, c: char) -> (r: usize)
    requires
        from <= v@.len(),
    ensures
        r == find_from(v@, from as int, c),
        from <= r <= v@.len(),
        r < v@.len() ==> v@[r as int] == c,
{
    let mut j = from;
    while j < v.len()
        invariant
            from <= j <= v@.len(),
            find_from(v@, from as int, c) == find_from(v@, j as int, c),
            forall|k: int| from <= k < j ==> v@[k] != c,
        decreases v@.len() - j,
    {
        if v[j] == c {
            return j;
        }
        j += 1;
    }
    j
}

/// The least position at or after `from` holding something other than a
/// space, or the length.
pub fn skip_spaces_at(v: &[char], from: usize) -> (r: usize)
    requires
        from <= v@.len(),
    ensures
        r == skip_spaces(v@, from as int),
        from <= r <= v@.len(),
{
    let mut j = from;
    while j < v.len()
        invariant
            from <= j <= v@.len(),
            skip_spaces(v@, from as int) == skip_spaces(v@, j as int),
        decreases v@.len() - j,
    {
        if v[j] != ' ' {
            return j;
        }
        j += 1;
    }
    j
}

/// The characters of `v` from `from` up to `to`, as their own vector.
pub fn copy_range(v: &[char], from: usize, to: usize) -> (r: Vec<char>)
    requires
        from <= to <= v@.len(),
    ensures
        r@ == v@.subrange(from as int, to as int),
{
    let mut r: Vec<char> = Vec::new();
    let mut j = from;
    while j < to
        invariant
            from <= j <= to <= v@.len(),
            r@ == v@.subrange(from as int, j as int),
        decreases to - j,
    {
        r.push(v[j]);
        proof {
            assert(r@ =~= v@.subrange(from as int, j + 1));
        }
        j += 1;
    }
    r
}

/// Decodes the characters of `v` from `from` up to `to` as a query piece.
pub fn dec_query_range(v: &[char], from: usize, to: usize) -> (r: String)
    requires
        from <= to <= v@.len(),
    ensures
        r@ == dec_query(v@.subrange(from as int, to as int)),
{
    let ghost whole = v@.subrange(from as int, to as int);
    let mut acc = String::new();
    let mut j = from;
    while j < to
        invariant
            from <= j <= to <= v@.len(),
            whole == v@.subrange(from as int, to as int),
            acc@ + dec_query(v@.subrange(j as int, to as int)) == dec_query(whole),
        decreases to - j,
    {
        let ghost cur = v@.subrange(j as int, to as int);
        let ghost acc0 = acc@;
        proof {
            assert(cur[0] == v@[j as int]);
            assert(cur.skip(1) =~= v@.subrange(j + 1, to as int));
        }
        let c = v[j];
        if c == '+' {
            push_char(&mut acc, ' ');
            proof {
                assert(acc@ + dec_query(v@.subrange(j + 1, to as int)) =~= acc0 + dec_query(cur));
            }
            j += 1;
        } else if c == '%' && to - j >= 3 {
            proof {
                assert(cur[1] == v@[j + 1]);
                assert(cur[2] == v@[j + 2]);
                assert(cur.skip(3) =~= v@.subrange(j + 3, to as int));
            }
            let d1 = hex_val_of(v[j + 1]);
            let d2 = hex_val_of(v[j + 2]);
            match (d1, d2) {
                (Some(h1), Some(h2)) if h1 * 16 + h2 < 0x80 => {
                    let u: u32 = h1 * 16 + h2;
                    let b: u8 = u as u8;
                    push_char(&mut acc, b as char);
                    proof {
                        assert(b as char == (u as char));
                        assert(acc@ + dec_query(v@.subrange(j + 3, to as int)) =~= acc0
                            + dec_query(cur));
                    }
                    j += 3;
                },
                _ => {
                    push_char(&mut acc, c);
                    proof {
                        assert(acc@ + dec_query(v@.subrange(j + 1, to as int)) =~= acc0
                            + dec_query(cur));
                    }
                    j += 1;
                },
            }
        } else {
            push_char(&mut acc, c);
            proof {
                assert(acc@ + dec_query(v@.subrange(j + 1, to as int)) =~= acc0 + dec_query(cur));
            }
            j += 1;
        }
    }
    proof {
        assert(v@.subrange(to as int, to as int) =~= Seq::<char>::empty());
        assert(acc@ + Seq::<char>::empty() =~= acc@);
    }
    acc
}

/// The decoded `key=value` pieces of the query characters `v`, in order.
pub fn parse_query_params(v: &[char]) -> (r: Vec<(String, String)>)
    ensures
        pairs_view(r@) == query_params(v@),
{
    let mut out: Vec<(String, String)> = Vec::new();
    let n = v.len();
    let mut cur: usize = 0;
    proof {
        assert(pairs_view(out@) =~= Seq::<(Seq<char>, Seq<char>)>::empty());
        assert(v@.skip(0) =~= v@);
    }
    while cur < n
        invariant
            n == v@.len(),
            cur <= n,
            pairs_view(out@) + query_params(v@.skip(cur as int)) == query_params(v@),
        decreases n - cur,
    {
        let ghost rest = v@.skip(cur as int);
        let amp = find_char(v, cur, '&');
        proof {
            lemma_find_from_skip(v@, cur as int, 0, '&');
            assert(find_from(rest, 0, '&') == amp - cur);
        }
        let seg = copy_range(v, cur, amp);
        proof {
            if amp < n {
                assert(rest.subrange(0, amp - cur) =~= v@.subrange(cur as int, amp as int));
            } else {
                assert(rest =~= v@.subrange(cur as int, amp as int));
            }
        }
        let eq = find_char(seg.as_slice(), 0, '=');
        let pair = if eq >= seg.len() {
            proof {
                assert(seg@.subrange(0, seg@.len() as int) =~= seg@);
            }
            let key = dec_query_range(seg.as_slice(), 0, seg.len());
            (key, String::new())
        } else {
            proof {
                assert(seg@.skip(eq + 1) =~= seg@.subrange(eq + 1, seg@.len() as int));
            }
            let key = dec_query_range(seg.as_slice(), 0, eq);
            let val = dec_query_range(seg.as_slice(), eq + 1, seg.len());
            (key, val)
        };
        let ghost pushed = (pair.0@, pair.1@);
        let ghost pv_before = pairs_view(out@);
        out.push(pair);
        proof {
            assert(pairs_view(out@) =~= pv_before.push(pushed));
            assert(pushed == split_pair(seg@));
        }
        if amp >= n {
            proof {
                assert(query_params(rest) =~= seq![split_pair(rest)]);
                assert(pairs_view(out@) + query_params(v@.skip(n as int)) =~= pv_before
                    + query_params(rest));
                assert(v@.skip(n as int) =~= Seq::<char>::empty());
            }
            cur = n;
        } else {
            proof {
                assert(rest.skip((amp - cur) + 1) =~= v@.skip(amp + 1));
                assert(query_params(rest) =~= seq![split_pair(seg@)] + query_params(
                    v@.skip(amp + 1),
                ));
                assert(pairs_view(out@) + query_params(v@.skip(amp + 1)) =~= pv_before
                    + query_params(rest));
            }
            cur = amp + 1;
        }
    }
    proof {
        assert(v@.skip(n as int) =~= Seq::<char>::empty());
        assert(query_params(Seq::<char>::empty()) =~= Seq::<(Seq<char>, Seq<char>)>::empty());
        assert(pairs_view(out@) =~= query_params(v@));
    }
    out
}

/// Reads the one callback request line: extracts the target's query,
/// requires `code` and `state` to be present and the state to be the
/// expected one, and yields the authorization code.
pub fn parse_redirect(request_line: &str, expected_state: &str) -> (r: Result<String, AuthError>)
    ensures
        match r {
            Ok(code) => redirect_outcome(request_line@, expected_state@) == Ok::<
                Seq<char>,
                AuthError,
            >(code@),
            Err(e) => redirect_outcome(request_line@, expected_state@) == Err::<
                Seq<char>,
                AuthError,
            >(e),
        },
{
    let v = chars_of(request_line);
    let m0 = skip_spaces_at(v.as_slice(), 0);
    let m1 = find_char(v.as_slice(), m0, ' ');
    let t0 = skip_spaces_at(v.as_slice(), m1);
    if t0 >= v.len() {
        return Err(AuthError::MalformedRedirect);
    }
    let t1 = find_char(v.as_slice(), t0, ' ');
    let target = copy_range(v.as_slice(), t0, t1);
    let q0 = find_char(target.as_slice(), 0, '?');
    let params: Vec<(String, String)> = if q0 >= target.len() {
        Vec::new()
    } else {
        let qv = copy_range(target.as_slice(), q0 + 1, target.len());
        proof {
            assert(qv@ =~= query_of(target@));
        }
        parse_query_params(qv.as_slice())
    };
    proof {
        if q0 >= target.len() {
            assert(query_of(target@) =~= Seq::<char>::empty());
            assert(query_params(query_of(target@)) =~= Seq::<(Seq<char>, Seq<char>)>::empty());
            assert(pairs_view(Seq::<(String, String)>::empty())
                =~= Seq::<(Seq<char>, Seq<char>)>::empty());
        }
    }
    let code = match assoc_get(&params, "code") {
        Some(c) => c,
        None => {
            return Err(AuthError::MalformedRedirect);
        },
    };
    let state = match assoc_get(&params, "state") {
        Some(s) => s,
        None => {
            return Err(AuthError::MalformedRedirect);
        },
    };
    if str_eq(state.as_str(), expected_state) {
        Ok(code)
    } else {
        Err(AuthError::StateMismatch)
    }
}

} // verus!
