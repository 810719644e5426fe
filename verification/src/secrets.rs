//! The secret store: named secret values, modelled as a map from the
//! secret name's characters to the secret value's characters.
//!
//! The store is a list of (name, value) pairs; where a name repeats,
//! the earliest pair wins, which `map_of_pairs` reflects by inserting
//! later pairs first.

use vstd::prelude::*;

verus! {

/// The map a pair list denotes: the first pair of a name gives its value.
pub open spec fn map_of_pairs(pairs: Seq<(String, String)>) -> Map<Seq<char>, Seq<char>>
    decreases pairs.len(),
{
    if pairs.len() == 0 {
        Map::empty()
    } else {
        map_of_pairs(pairs.skip(1)).insert(pairs[0].0@, pairs[0].1@)
    }
}

/// A pair whose name no earlier pair shares settles its key in the map.
proof fn lemma_map_of_pairs_at(pairs: Seq<(String, String)>, i: int)
    requires
        0 <= i < pairs.len(),
        forall|j: int| 0 <= j < i ==> pairs[j].0@ != pairs[i].0@,
    ensures
        map_of_pairs(pairs).contains_key(pairs[i].0@),
        map_of_pairs(pairs)[pairs[i].0@] == pairs[i].1@,
    decreases pairs.len(),
{
    if i == 0 {
    } else {
        assert(forall|j: int|
            0 <= j < i - 1 ==> (#[trigger] pairs.skip(1)[j]).0@ != pairs.skip(1)[i - 1].0@);
        lemma_map_of_pairs_at(pairs.skip(1), i - 1);
    }
}

/// A name no pair carries is absent from the map.
proof fn lemma_map_of_pairs_absent(pairs: Seq<(String, String)>, name: Seq<char>)
    requires
        forall|j: int| 0 <= j < pairs.len() ==> pairs[j].0@ != name,
    ensures
        !map_of_pairs(pairs).contains_key(name),
    decreases pairs.len(),
{
    if pairs.len() > 0 {
        assert(forall|j: int|
            0 <= j < pairs.skip(1).len() ==> (#[trigger] pairs.skip(1)[j]).0@ != name);
        lemma_map_of_pairs_absent(pairs.skip(1), name);
    }
}

/// Appending a pair keeps every settled name as it was, and settles
/// the appended name if it was still absent.
pub proof fn lemma_map_of_pairs_push(pairs: Seq<(String, String)>, p: (String, String))
    ensures
        forall|k: Seq<char>|
            #[trigger] map_of_pairs(pairs).contains_key(k) ==> map_of_pairs(
                pairs.push(p),
            ).contains_key(k) && map_of_pairs(pairs.push(p)).index(k) == map_of_pairs(
                pairs,
            ).index(k),
        map_of_pairs(pairs.push(p)).contains_key(p.0@),
        !map_of_pairs(pairs).contains_key(p.0@) ==> map_of_pairs(pairs.push(p)).index(p.0@)
            == p.1@,
        forall|k: Seq<char>|
            #[trigger] map_of_pairs(pairs.push(p)).contains_key(k) ==> map_of_pairs(
                pairs,
            ).contains_key(k) || k == p.0@,
    decreases pairs.len(),
{
    if pairs.len() == 0 {
        assert(pairs.push(p)[0] == p);
        assert(pairs.push(p).skip(1) =~= Seq::<(String, String)>::empty());
        assert(map_of_pairs(pairs.push(p)) == map_of_pairs(
            Seq::<(String, String)>::empty(),
        ).insert(p.0@, p.1@));
    } else {
        assert(pairs.push(p)[0] == pairs[0]);
        assert(pairs.push(p).skip(1) =~= pairs.skip(1).push(p));
        lemma_map_of_pairs_push(pairs.skip(1), p);
        assert(map_of_pairs(pairs.push(p)) == map_of_pairs(pairs.skip(1).push(p)).insert(
            pairs[0].0@,
            pairs[0].1@,
        ));
        assert forall|k: Seq<char>| #[trigger]
            map_of_pairs(pairs.push(p)).contains_key(k) implies map_of_pairs(pairs).contains_key(
            k,
        ) || k == p.0@ by {
            if k != pairs[0].0@ {
                assert(map_of_pairs(pairs.skip(1).push(p)).contains_key(k));
            }
        }
    }
}

/// Looks a secret up by name; the earliest pair of that name wins.
pub fn lookup_secret<'a>(pairs: &'a Vec<(String, String)>, name: &str) -> (r: Option<&'a String>)
    ensures
        match r {
            Some(v) => map_of_pairs(pairs@).contains_key(name@)
                && v@ == map_of_pairs(pairs@).index(name@),
            None => !map_of_pairs(pairs@).contains_key(name@),
        },
{
    let n = pairs.len();
    let mut i: usize = 0;
    while i < n
        invariant
            n == pairs@.len(),
            0 <= i <= n,
            forall|j: int| 0 <= j < i ==> pairs@[j].0@ != name@,
        decreases n - i,
    {
        if crate::text::str_eq(pairs[i].0.as_str(), name) {
            proof {
                lemma_map_of_pairs_at(pairs@, i as int);
            }
            return Some(&pairs[i].1);
        }
        i = i + 1;
    }
    proof {
        lemma_map_of_pairs_absent(pairs@, name@);
    }
    None
}

} // verus!
