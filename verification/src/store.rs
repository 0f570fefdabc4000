//! The persistent token table: lookup, first-write-wins insertion, the
//! cache-file round trip, and the laws the table obeys.
use vstd::prelude::*;
use crate::codec::encode_entries;
use crate::codec::esc_push;
use crate::codec::parse_entries;
use crate::codec::unesc_until_exec;
use crate::errors::AuthError;
use crate::kv::assoc_get;
use crate::kv::assoc_lookup;
use crate::kv::pairs_view;
use crate::strings::chars_of;
use crate::strings::push_char;
use crate::strings::string_from_chars;

verus! {

/// The map that a list of bindings describes: each key bound to the value
/// of its first pair.
pub open spec fn entries_map(es: Seq<(Seq<char>, Seq<char>)>) -> Map<Seq<char>, Seq<char>> {
    Map::new(
        |k: Seq<char>| assoc_lookup(es, k) is Some,
        |k: Seq<char>| assoc_lookup(es, k)->0,
    )
}

/// How the table grows: a binding is added only where the key is absent;
/// an existing binding is kept, whatever the new token says.
pub open spec fn first_write_insert(
    m: Map<Seq<char>, Seq<char>>,
    k: Seq<char>,
    v: Seq<char>,
) -> Map<Seq<char>, Seq<char>> {
    if m.contains_key(k) {
        m
    } else {
        m.insert(k, v)
    }
}

/// The persistent token table: service identifier to bearer token.
///
/// An entry, once present, is never overwritten by this subsystem; `insert`
/// adds a binding only where the key is still absent. The durable side
/// (reading and writing the backing file) lives with the caller, which
/// moves whole tables through `parse` and `encode`.
pub struct CacheToken {
    entries: Vec<(String, String)>,
}

impl CacheToken {
    /// The table as a mathematical map from key characters to token characters.
    pub closed spec fn view(&self) -> Map<Seq<char>, Seq<char>> {
        entries_map(self.spec_entries())
    }

    /// The bindings in the order they were added, first occurrence of a key
    /// being the one that counts.
    pub closed spec fn spec_entries(&self) -> Seq<(Seq<char>, Seq<char>)> {
        pairs_view(self.entries@)
    }

    /// An empty table.
    pub fn new() -> (r: Self)
        ensures
            r@ == Map::<Seq<char>, Seq<char>>::empty(),
            r.spec_entries() == Seq::<(Seq<char>, Seq<char>)>::empty(),
    {
        let r = CacheToken { entries: Vec::new() };
        proof {
            assert(r.spec_entries() =~= Seq::<(Seq<char>, Seq<char>)>::empty());
            assert(r@ =~= Map::<Seq<char>, Seq<char>>::empty());
        }
        r
    }

    /// The token bound to `service_name`, if any.
    pub fn lookup(&self, service_name: &str) -> (r: Option<String>)
        ensures
            match r {
                Some(t) => self@.contains_key(service_name@) && t@ == self@[service_name@],
                None => !self@.contains_key(service_name@),
            },
    {
        assoc_get(&self.entries, service_name)
    }

    /// Whether `service_name` already has a token.
    pub fn contains(&self, service_name: &str) -> (r: bool)
        ensures
            r == self@.contains_key(service_name@),
    {
        self.lookup(service_name).is_some()
    }

    /// Binds `service_name` to `token` if the key is still absent; an
    /// existing binding is kept untouched (the first writer wins).
    pub fn insert(&mut self, service_name: &str, token: &str)
        ensures
            final(self)@ == first_write_insert(old(self)@, service_name@, token@),
            old(self)@.contains_key(service_name@) ==> final(self).spec_entries() == old(
                self,
            ).spec_entries(),
            !old(self)@.contains_key(service_name@) ==> final(self).spec_entries() == old(
                self,
            ).spec_entries().push((service_name@, token@)),
    {
        if self.lookup(service_name).is_some() {
            return;
        }
        proof {
            crate::kv::lemma_assoc_lookup_push(self.spec_entries(), service_name@, token@);
        }
        let pair = (service_name.to_owned(), token.to_owned());
        self.entries.push(pair);
        proof {
            assert(self.spec_entries() =~= old(self).spec_entries().push(
                (service_name@, token@),
            ));
            assert(self@ =~= old(self)@.insert(service_name@, token@));
        }
    }

    /// The table written out in the cache-file format: one line per binding,
    /// escaped key, a colon, escaped token, a newline.
    pub fn encode(&self) -> (r: String)
        ensures
            r@ == encode_entries(self.spec_entries()),
    {
        let ghost se = self.spec_entries();
        let mut out = String::new();
        let n = self.entries.len();
        let mut i: usize = 0;
        proof {
            assert(se.take(0) =~= Seq::<(Seq<char>, Seq<char>)>::empty());
        }
        while i < n
            invariant
                n == self.entries@.len(),
                n == se.len(),
                se == self.spec_entries(),
                i <= n,
                out@ == encode_entries(se.take(i as int)),
            decreases n - i,
        {
            proof {
                assert(se[i as int] == (self.entries@[i as int].0@, self.entries@[i as int].1@));
                assert(se.take(i + 1) =~= se.take(i as int).push(se[i as int]));
                crate::codec::lemma_encode_entries_append(
                    se.take(i as int),
                    seq![se[i as int]],
                );
                assert(se.take(i as int) + seq![se[i as int]] =~= se.take(i + 1));
                assert(seq![se[i as int]].skip(1) =~= Seq::<(Seq<char>, Seq<char>)>::empty());
                assert(seq![se[i as int]][0] == se[i as int]);
                assert(encode_entries(Seq::<(Seq<char>, Seq<char>)>::empty())
                    =~= Seq::<char>::empty());
                assert(encode_entries(seq![se[i as int]]) =~= crate::codec::encode_entry(
                    se[i as int],
                ));
            }
            let key_chars = chars_of(self.entries[i].0.as_str());
            let val_chars = chars_of(self.entries[i].1.as_str());
            esc_push(&mut out, key_chars.as_slice());
            push_char(&mut out, ':');
            esc_push(&mut out, val_chars.as_slice());
            push_char(&mut out, '\n');
            proof {
                assert(out@ =~= encode_entries(se.take(i + 1)));
            }
            i += 1;
        }
        proof {
            assert(se.take(n as int) =~= se);
        }
        out
    }

    /// Reads a table back from the cache-file format. Every well-formed
    /// file parses to exactly the bindings it encodes; anything else is
    /// `StoreUnavailable`.
    pub fn parse(s: &str) -> (r: Result<CacheToken, AuthError>)
        ensures
            match r {
                Ok(st) => parse_entries(s@) == Some(st.spec_entries()) && st@ == entries_map(
                    st.spec_entries(),
                ),
                Err(e) => parse_entries(s@) is None && e == AuthError::StoreUnavailable,
            },
    {
        let v = chars_of(s);
        let n = v.len();
        let mut st = CacheToken { entries: Vec::new() };
        let mut i: usize = 0;
        proof {
            assert(st.spec_entries() =~= Seq::<(Seq<char>, Seq<char>)>::empty());
            assert(v@.skip(0) =~= v@);
        }
        while i < n
            invariant
                n == v@.len(),
                v@ == s@,
                i <= n,
                match parse_entries(v@.skip(i as int)) {
                    Some(tail) => parse_entries(v@) == Some(st.spec_entries() + tail),
                    None => parse_entries(v@) is None,
                },
            decreases n - i,
        {
            let ghost se_before = st.spec_entries();
            let (key_chars, j) = match unesc_until_exec(&v, i, ':') {
                Some(p) => p,
                None => {
                    return Err(AuthError::StoreUnavailable);
                },
            };
            let (val_chars, k) = match unesc_until_exec(&v, j, '\n') {
                Some(p) => p,
                None => {
                    return Err(AuthError::StoreUnavailable);
                },
            };
            let key = string_from_chars(key_chars.as_slice());
            let val = string_from_chars(val_chars.as_slice());
            st.entries.push((key, val));
            proof {
                assert(st.spec_entries() =~= se_before.push((key_chars@, val_chars@)));
                match parse_entries(v@.skip(k as int)) {
                    Some(tail2) => {
                        assert(se_before + (seq![(key_chars@, val_chars@)] + tail2)
                            =~= st.spec_entries() + tail2);
                    },
                    None => {},
                }
            }
            i = k;
        }
        proof {
            assert(v@.skip(n as int) =~= Seq::<char>::empty());
            assert(st.spec_entries() + Seq::<(Seq<char>, Seq<char>)>::empty()
                =~= st.spec_entries());
        }
        Ok(st)
    }
}

/// A token inserted for a previously unknown service is what a later lookup
/// of that service finds.
pub proof fn lemma_insert_then_lookup(before: Map<Seq<char>, Seq<char>>, s: Seq<char>, t: Seq<char>)
    requires
        !before.contains_key(s),
    ensures
        first_write_insert(before, s, t).contains_key(s),
        first_write_insert(before, s, t)[s] == t,
{
}

/// The first write wins: a second insert for the same service changes
/// nothing, and a lookup still finds the first token.
pub proof fn lemma_first_write_wins(
    before: Map<Seq<char>, Seq<char>>,
    s: Seq<char>,
    t1: Seq<char>,
    t2: Seq<char>,
)
    requires
        !before.contains_key(s),
    ensures
        ({
            let after = first_write_insert(first_write_insert(before, s, t1), s, t2);
            after == first_write_insert(before, s, t1) && after.contains_key(s) && after[s] == t1
        }),
{
}

/// Inserts for distinct services never drop each other: after both, each
/// service is bound, the fresh ones to their own tokens, in whichever order
/// the inserts came.
pub proof fn lemma_distinct_inserts_commute(
    before: Map<Seq<char>, Seq<char>>,
    s1: Seq<char>,
    t1: Seq<char>,
    s2: Seq<char>,
    t2: Seq<char>,
)
    requires
        s1 != s2,
    ensures
        ({
            let after = first_write_insert(first_write_insert(before, s1, t1), s2, t2);
            &&& after.contains_key(s1)
            &&& after.contains_key(s2)
            &&& !before.contains_key(s1) ==> after[s1] == t1
            &&& !before.contains_key(s2) ==> after[s2] == t2
            &&& after == first_write_insert(first_write_insert(before, s2, t2), s1, t1)
        }),
{
    let a = first_write_insert(first_write_insert(before, s1, t1), s2, t2);
    let b = first_write_insert(first_write_insert(before, s2, t2), s1, t1);
    assert(a =~= b);
}

} // verus!
