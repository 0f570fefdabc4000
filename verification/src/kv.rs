//! Association lists of strings: what a list of pairs binds a key to,
//! and the lookup that scans for the first match.
use vstd::prelude::*;
use crate::strings::str_eq;

verus! {

/// What a list of pairs binds a key to: the value of the first pair whose
/// key matches, later pairs notwithstanding.
pub open spec fn assoc_lookup(s: Seq<(Seq<char>, Seq<char>)>, k: Seq<char>) -> Option<Seq<char>>
    decreases s.len(),
{
    if s.len() == 0 {
        None
    } else if s[0].0 == k {
        Some(s[0].1)
    } else {
        assoc_lookup(s.skip(1), k)
    }
}

/// The keys and values of a list of string pairs, as characters.
pub open spec fn pairs_view(pairs: Seq<(String, String)>) -> Seq<(Seq<char>, Seq<char>)> {
    pairs.map_values(|p: (String, String)| (p.0@, p.1@))
}

/// The value of the first pair whose key is `key`, if any.
pub fn assoc_get(pairs: &Vec<(String, String)>, key: &str) -> (r: Option<String>)
    ensures
        match r {
            Some(v) => assoc_lookup(pairs_view(pairs@), key@) == Some(v@),
            None => assoc_lookup(pairs_view(pairs@), key@) is None,
        },
{
    let ghost pv = pairs_view(pairs@);
    let n = pairs.len();
    let mut i: usize = 0;
    proof {
        assert(pv.skip(0) =~= pv);
    }
    while i < n
        invariant
            n == pairs@.len(),
            n == pv.len(),
            pv == pairs_view(pairs@),
            i <= n,
            assoc_lookup(pv, key@) == assoc_lookup(pv.skip(i as int), key@),
        decreases n - i,
    {
        proof {
            assert(pv.skip(i as int)[0] == pv[i as int]);
            assert(pv[i as int] == (pairs@[i as int].0@, pairs@[i as int].1@));
            assert(pv.skip(i as int).skip(1) =~= pv.skip(i + 1));
        }
        if str_eq(pairs[i].0.as_str(), key) {
            return Some(pairs[i].1.clone());
        }
        i += 1;
    }
    proof {
        assert(pv.skip(n as int) =~= Seq::<(Seq<char>, Seq<char>)>::empty());
    }
    None
}

/// Pushing a pair with a fresh key extends the association exactly there;
/// every other key keeps its binding.
pub proof fn lemma_assoc_lookup_push(s: Seq<(Seq<char>, Seq<char>)>, key: Seq<char>, val: Seq<char>)
    ensures
        forall|k: Seq<char>|
            #[trigger] assoc_lookup(s.push((key, val)), k) == if assoc_lookup(s, k) is Some {
                assoc_lookup(s, k)
            } else if k == key {
                Some(val)
            } else {
                None::<Seq<char>>
            },
    decreases s.len(),
{
    let pair = (key, val);
    if s.len() == 0 {
        assert forall|k: Seq<char>|
            #[trigger] assoc_lookup(s.push(pair), k) == if assoc_lookup(s, k) is Some {
                assoc_lookup(s, k)
            } else if k == key {
                Some(val)
            } else {
                None::<Seq<char>>
            } by {
            assert(s.push(pair)[0] == pair);
            assert(s.push(pair).skip(1) =~= Seq::<(Seq<char>, Seq<char>)>::empty());
            assert(assoc_lookup(s, k) is None);
            if k == key {
                assert(assoc_lookup(s.push(pair), k) == Some(val));
            } else {
                assert(assoc_lookup(s.push(pair), k) == assoc_lookup(
                    Seq::<(Seq<char>, Seq<char>)>::empty(),
                    k,
                ));
                assert(assoc_lookup(s.push(pair), k) is None);
            }
        }
    } else {
        lemma_assoc_lookup_push(s.skip(1), key, val);
        assert forall|k: Seq<char>|
            #[trigger] assoc_lookup(s.push(pair), k) == if assoc_lookup(s, k) is Some {
                assoc_lookup(s, k)
            } else if k == key {
                Some(val)
            } else {
                None::<Seq<char>>
            } by {
            assert(s.push(pair)[0] == s[0]);
            assert(s.push(pair).skip(1) =~= s.skip(1).push(pair));
            if s[0].0 == k {
                assert(assoc_lookup(s.push(pair), k) == Some(s[0].1));
                assert(assoc_lookup(s, k) == Some(s[0].1));
            } else {
                assert(assoc_lookup(s.push(pair), k) == assoc_lookup(s.skip(1).push(pair), k));
                assert(assoc_lookup(s, k) == assoc_lookup(s.skip(1), k));
            }
        }
    }
}

} // verus!
