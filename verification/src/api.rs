//! The request side of the client: how a service call's URL is formed
//! from its configured parameters, how an output format name is read, and
//! the record a call's results are collected in.
use vstd::prelude::*;
use vstd::string::StrSliceExecFns;
use crate::kv::pairs_view;
use crate::strings::chars_of;
use crate::strings::str_eq;
use crate::strings::string_from_chars;

verus! {

/// A whitespace character that trimming removes at either end.
pub open spec fn trim_ws(c: char) -> bool {
    c == ' ' || c == '\t' || c == '\n' || c == '\r'
}

/// The first index holding no whitespace, scanning from the left.
pub open spec fn trim_start_idx(s: Seq<char>, i: int) -> int
    decreases s.len() - i,
    when 0 <= i <= s.len()
{
    if i >= s.len() {
        s.len() as int
    } else if trim_ws(s[i]) {
        trim_start_idx(s, i + 1)
    } else {
        i
    }
}

/// The index just past the last character holding no whitespace, scanning
/// from the right.
pub open spec fn trim_end_idx(s: Seq<char>, i: int) -> int
    decreases i,
    when 0 <= i <= s.len()
{
    if i <= 0 {
        0
    } else if trim_ws(s[i - 1]) {
        trim_end_idx(s, i - 1)
    } else {
        i
    }
}

/// The string with the whitespace at both ends removed.
pub open spec fn trimmed(s: Seq<char>) -> Seq<char> {
    let a = trim_start_idx(s, 0);
    let b = trim_end_idx(s, s.len() as int);
    if a <= b {
        s.subrange(a, b)
    } else {
        Seq::empty()
    }
}

/// The character with an ASCII capital turned small; anything else as it is.
pub open spec fn lower_char(c: char) -> char {
    if 0x41 <= c as u32 <= 0x5a {
        ((((c as u32) + 32) as u8) as char)
    } else {
        c
    }
}

/// The string with every ASCII capital turned small.
pub open spec fn ascii_lower(s: Seq<char>) -> Seq<char> {
    s.map_values(|c: char| lower_char(c))
}

/// A format name as matching sees it: trimmed, then lowercased.
pub open spec fn canon_format(s: Seq<char>) -> Seq<char> {
    ascii_lower(trimmed(s))
}

/// Where the left trim ends.
fn trim_start_at(v: &Vec<char>) -> (a: usize)
    ensures
        a == trim_start_idx(v@, 0),
        a <= v@.len(),
{
    let mut a: usize = 0;
    while a < v.len()
        invariant
            a <= v@.len(),
            trim_start_idx(v@, 0) == trim_start_idx(v@, a as int),
        decreases v@.len() - a,
    {
        let c = v[a];
        if !(c == ' ' || c == '\t' || c == '\n' || c == '\r') {
            return a;
        }
        a += 1;
    }
    a
}

/// Where the right trim ends.
fn trim_end_at(v: &Vec<char>) -> (b: usize)
    ensures
        b == trim_end_idx(v@, v@.len() as int),
        b <= v@.len(),
{
    let mut b: usize = v.len();
    while b > 0
        invariant
            b <= v@.len(),
            trim_end_idx(v@, v@.len() as int) == trim_end_idx(v@, b as int),
        decreases b,
    {
        let c = v[b - 1];
        if !(c == ' ' || c == '\t' || c == '\n' || c == '\r') {
            return b;
        }
        b -= 1;
    }
    b
}

/// How results are rendered.
#[derive(Clone, Copy, Debug, PartialEq, Eq, Structural)]
pub enum OutputFormat {
    Json,
    Pretty,
    PrettyJson,
}

impl OutputFormat {
    /// Reads a format name, after trimming whitespace and lowercasing
    /// ASCII capitals: `json`, `pretty`, and `prettyjson` or `pjson`.
    /// Anything else is the error.
    pub fn from_str(s: &str) -> (r: Result<OutputFormat, String>)
        ensures
            ({
                let c = canon_format(s@);
                match r {
                    Ok(OutputFormat::Json) => c == "json"@,
                    Ok(OutputFormat::Pretty) => c == "pretty"@,
                    Ok(OutputFormat::PrettyJson) => c == "prettyjson"@ || c == "pjson"@,
                    Err(e) => c != "json"@ && c != "pretty"@ && c != "prettyjson"@ && c
                        != "pjson"@ && e@ == "`{s}` is an invalid output format"@,
                }
            }),
    {
        let v = chars_of(s);
        let n = v.len();
        let a = trim_start_at(&v);
        let b = trim_end_at(&v);
        let mut canon = String::new();
        if a < b {
            proof {
                assert(trimmed(v@) == v@.subrange(a as int, b as int));
            }
            let mut i = a;
            while i < b
                invariant
                    a <= i <= b <= v@.len(),
                    canon@ == ascii_lower(v@.subrange(a as int, i as int)),
                decreases b - i,
            {
                let c = v[i];
                let u = c as u32;
                let lc: char = if 0x41 <= u && u <= 0x5a {
                    ((u + 32) as u8) as char
                } else {
                    c
                };
                proof {
                    assert(lc == lower_char(c));
                    assert(ascii_lower(v@.subrange(a as int, i + 1)) =~= ascii_lower(
                        v@.subrange(a as int, i as int),
                    ).push(lc));
                }
                crate::strings::push_char(&mut canon, lc);
                i += 1;
            }
            proof {
                assert(canon@ == ascii_lower(trimmed(v@)));
            }
        } else {
            proof {
                if a <= b {
                    assert(trimmed(v@) == v@.subrange(a as int, b as int));
                    assert(v@.subrange(a as int, b as int) =~= Seq::<char>::empty());
                } else {
                    assert(trimmed(v@) == Seq::<char>::empty());
                }
                assert(ascii_lower(Seq::<char>::empty()) =~= Seq::<char>::empty());
                assert(canon@ == ascii_lower(trimmed(v@)));
            }
        }
        if str_eq(canon.as_str(), "json") {
            Ok(OutputFormat::Json)
        } else if str_eq(canon.as_str(), "pretty") {
            Ok(OutputFormat::Pretty)
        } else if str_eq(canon.as_str(), "prettyjson") {
            Ok(OutputFormat::PrettyJson)
        } else if str_eq(canon.as_str(), "pjson") {
            Ok(OutputFormat::PrettyJson)
        } else {
            Err("`{s}` is an invalid output format".to_owned())
        }
    }
}

/// What one service call produced: where it came from, how to render it,
/// where to save it, and the extracted fields.
pub struct Output {
    pub service_name: String,
    pub output_format: OutputFormat,
    pub dest: Option<String>,
    pub filters: Vec<(String, String)>,
}

impl Output {
    /// An output with no fields extracted yet.
    pub fn new(service_name: String, output_format: OutputFormat, dest: Option<&String>) -> (r:
        Output)
        ensures
            r.service_name@ == service_name@,
            r.output_format == output_format,
            match dest {
                Some(d) => r.dest matches Some(x) && x@ == d@,
                None => r.dest is None,
            },
            r.filters@.len() == 0,
    {
        Output {
            service_name,
            output_format,
            dest: match dest {
                Some(d) => Some(d.clone()),
                None => None,
            },
            filters: Vec::new(),
        }
    }

    /// Records one extracted field.
    pub fn add_filter(&mut self, name: String, value: String)
        ensures
            final(self).filters@ == old(self).filters@.push((name, value)),
            final(self).service_name == old(self).service_name,
            final(self).output_format == old(self).output_format,
            final(self).dest == old(self).dest,
    {
        self.filters.push((name, value));
    }
}

/// The configured parameters written as a query: each `key=value&`, one
/// after the other.
pub open spec fn pairs_query(ps: Seq<(Seq<char>, Seq<char>)>) -> Seq<char>
    decreases ps.len(),
{
    if ps.len() == 0 {
        Seq::empty()
    } else {
        ps[0].0 + "="@ + ps[0].1 + "&"@ + pairs_query(ps.skip(1))
    }
}

/// Writing a concatenation of parameter lists writes the parts one after
/// the other.
pub proof fn lemma_pairs_query_append(a: Seq<(Seq<char>, Seq<char>)>, b: Seq<(Seq<char>, Seq<char>)>)
    ensures
        pairs_query(a + b) == pairs_query(a) + pairs_query(b),
    decreases a.len(),
{
    if a.len() == 0 {
        assert(a + b =~= b);
        assert(pairs_query(a) + pairs_query(b) =~= pairs_query(b));
    } else {
        lemma_pairs_query_append(a.skip(1), b);
        assert((a + b).skip(1) =~= a.skip(1) + b);
        assert(pairs_query(a + b) =~= pairs_query(a) + pairs_query(b));
    }
}

/// The URL of one service call. A GET with parameters appends them as a
/// query, without a trailing separator; a GET without parameters is the
/// URL as it is; any other method yields nothing — the caller reports it.
pub open spec fn service_url_of(
    url: Seq<char>,
    method: Seq<char>,
    params: Option<Seq<(Seq<char>, Seq<char>)>>,
) -> Seq<char> {
    if method == "GET"@ {
        match params {
            None => url,
            Some(ps) => {
                let q = url + seq!['?'] + pairs_query(ps);
                if q.len() > 0 && q[q.len() - 1] == '&' {
                    q.take(q.len() - 1)
                } else {
                    q
                }
            },
        }
    } else {
        Seq::empty()
    }
}

/// Appends every character of `v` to `out`.
fn push_all(out: &mut Vec<char>, v: &[char])
    ensures
        final(out)@ == old(out)@ + v@,
{
    let mut i: usize = 0;
    while i < v.len()
        invariant
            i <= v@.len(),
            out@ == old(out)@ + v@.subrange(0, i as int),
        decreases v@.len() - i,
    {
        out.push(v[i]);
        proof {
            assert(old(out)@ + v@.subrange(0, i + 1) =~= (old(out)@ + v@.subrange(0, i as int)).push(
                v@[i as int],
            ));
        }
        i += 1;
    }
    proof {
        assert(old(out)@ + v@.subrange(0, v@.len() as int) =~= old(out)@ + v@);
    }
}

/// Builds the URL of one service call from its base URL, its method and
/// its configured parameters.
pub fn generate_url(url: &str, method: &str, params: &Option<Vec<(String, String)>>) -> (r: String)
    ensures
        r@ == service_url_of(
            url@,
            method@,
            match params {
                Some(ps) => Some(pairs_view(ps@)),
                None => None,
            },
        ),
{
    if !str_eq(method, "GET") {
        return String::new();
    }
    let ps = match params {
        Some(ps) => ps,
        None => {
            return url.to_owned();
        },
    };
    let ghost pv = pairs_view(ps@);
    let mut out: Vec<char> = chars_of(url);
    out.push('?');
    proof {
        reveal_strlit("=");
        reveal_strlit("&");
        assert(pairs_query(pv.take(0)) =~= Seq::<char>::empty());
        assert(out@ =~= url@ + seq!['?'] + pairs_query(pv.take(0)));
    }
    let n = ps.len();
    let mut i: usize = 0;
    while i < n
        invariant
            n == ps@.len(),
            n == pv.len(),
            pv == pairs_view(ps@),
            i <= n,
            out@ == url@ + seq!['?'] + pairs_query(pv.take(i as int)),
        decreases n - i,
    {
        proof {
            reveal_strlit("=");
            reveal_strlit("&");
            assert(pv[i as int] == (ps@[i as int].0@, ps@[i as int].1@));
            assert(pv.take(i + 1) =~= pv.take(i as int) + seq![pv[i as int]]);
            lemma_pairs_query_append(pv.take(i as int), seq![pv[i as int]]);
            assert(seq![pv[i as int]].skip(1) =~= Seq::<(Seq<char>, Seq<char>)>::empty());
            assert(seq![pv[i as int]][0] == pv[i as int]);
            assert(pairs_query(Seq::<(Seq<char>, Seq<char>)>::empty()) =~= Seq::<char>::empty());
            assert(pairs_query(seq![pv[i as int]]) =~= pv[i as int].0 + "="@ + pv[i as int].1
                + "&"@);
        }
        let kv = chars_of(ps[i].0.as_str());
        push_all(&mut out, kv.as_slice());
        out.push('=');
        let vv = chars_of(ps[i].1.as_str());
        push_all(&mut out, vv.as_slice());
        out.push('&');
        proof {
            assert(seq!['='] =~= "="@);
            assert(seq!['&'] =~= "&"@);
            assert(out@ =~= url@ + seq!['?'] + pairs_query(pv.take(i + 1)));
        }
        i += 1;
    }
    proof {
        assert(pv.take(n as int) =~= pv);
    }
    let m = out.len();
    if m > 0 && out[m - 1] == '&' {
        out.pop();
        proof {
            assert(out@ =~= (url@ + seq!['?'] + pairs_query(pv)).take(m - 1));
        }
    }
    string_from_chars(out.as_slice())
}

} // verus!
