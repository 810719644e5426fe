//! The Linux sandbox variant: synthesis of the allow-list that an
//! allow-list-only kernel restriction needs in order to hide exactly
//! one directory.
//!
//! Nothing is reachable unless explicitly allowed, so hiding one path
//! means allowing, at every ancestor of the denied directory, every
//! entry except the one that continues the chain towards it.  The
//! launcher walks the directories and applies the kernel rules; this
//! module decides the chain and which entries are allowed.

use vstd::prelude::*;
use vstd::string::*;

use crate::text::{str_eq, str_views};

verus! {

/// The Linux sandbox variant.
pub struct LinuxSandbox {}

/// A canonical absolute path: rooted, with no empty segment and no
/// trailing separator (the root itself excepted).
pub open spec fn canonical_abs(p: Seq<char>) -> bool {
    &&& p.len() > 0
    &&& p[0] == '/'
    &&& (p.len() == 1 || p[p.len() - 1] != '/')
    &&& forall|i: int| 0 < i < p.len() ==> !(p[i - 1] == '/' && #[trigger] p[i] == '/')
}

/// The cut positions of a canonical absolute path's ancestor chain:
/// 1 (the root), the position of every interior separator, and the
/// path's full length.
fn slash_cuts(path: &str) -> (c: Vec<usize>)
    requires
        canonical_abs(path@),
    ensures
        c@.len() >= 1,
        c@[0] == 1,
        c@[c@.len() - 1] == path@.len(),
        forall|k: int| 0 <= k < c@.len() ==> 1 <= #[trigger] c@[k] <= path@.len(),
        forall|k: int| 0 <= k < c@.len() - 1 ==> #[trigger] c@[k] < c@[k + 1],
        forall|k: int| 1 <= k < c@.len() - 1 ==> path@[#[trigger] c@[k] as int] == '/',
        forall|s: int|
            0 < s < path@.len() && path@[s] == '/' ==> exists|k: int|
                0 <= k < c@.len() && #[trigger] c@[k] == s,
{
    let plen = path.unicode_len();
    let mut c: Vec<usize> = Vec::new();
    c.push(1);
    let mut i: usize = 1;
    while i < plen
        invariant
            plen == path@.len(),
            canonical_abs(path@),
            1 <= i <= plen,
            c@.len() >= 1,
            c@[0] == 1,
            forall|k: int| 0 <= k < c@.len() ==> 1 <= #[trigger] c@[k] <= i,
            forall|k: int| 0 <= k < c@.len() - 1 ==> #[trigger] c@[k] < c@[k + 1],
            forall|k: int| 1 <= k < c@.len() ==> path@[#[trigger] c@[k] as int] == '/',
            c@[c@.len() - 1] == i ==> i == 1,
            forall|s: int|
                0 < s < i && path@[s] == '/' ==> exists|k: int|
                    0 <= k < c@.len() && #[trigger] c@[k] == s,
        decreases plen - i,
    {
        let ghost c0 = c@;
        if path.get_char(i) == '/' {
            proof {
                if i == 1 {
                    assert(path@[0] == '/' && path@[1] == '/');
                    assert(false);
                }
                assert(c@[c@.len() - 1] < i);
            }
            c.push(i);
        }
        proof {
            assert forall|s: int|
                0 < s < i + 1 && path@[s] == '/' implies exists|k: int|
                    0 <= k < c@.len() && #[trigger] c@[k] == s by {
                if s < i {
                    let k0 = choose|k0: int| 0 <= k0 < c0.len() && #[trigger] c0[k0] == s;
                    assert(c@[k0] == s);
                } else {
                    assert(c@[c@.len() - 1] == s);
                }
            }
        }
        i = i + 1;
    }
    if plen > 1 {
        proof {
            assert(c@[c@.len() - 1] < plen);
        }
        let ghost c1 = c@;
        c.push(plen);
        proof {
            assert forall|s: int|
                0 < s < path@.len() && path@[s] == '/' implies exists|k: int|
                    0 <= k < c@.len() && #[trigger] c@[k] == s by {
                let k0 = choose|k0: int| 0 <= k0 < c1.len() && #[trigger] c1[k0] == s;
                assert(c@[k0] == s);
            }
        }
    }
    c
}

/// The ordered chain of ancestors of a canonical absolute path, from
/// the filesystem root down to and including the path itself.
pub fn ancestor_chain(path: &str) -> (r: Vec<String>)
    requires
        canonical_abs(path@),
    ensures
        r@.len() >= 1,
        (#[trigger] r@[0])@ == path@.subrange(0, 1),
        r@[r@.len() - 1]@ == path@,
        forall|k: int|
            0 <= k < r@.len() ==> (#[trigger] r@[k])@ == path@.subrange(0, r@[k]@.len() as int),
        forall|k: int| 0 <= k < r@.len() - 1 ==> (#[trigger] r@[k])@.len() < r@[k + 1]@.len(),
        forall|k: int| 1 <= k < r@.len() - 1 ==> path@[(#[trigger] r@[k])@.len() as int] == '/',
        forall|s: int|
            0 < s < path@.len() && path@[s] == '/' ==> exists|k: int|
                0 <= k < r@.len() && (#[trigger] r@[k])@.len() == s,
{
    let plen = path.unicode_len();
    let cuts = slash_cuts(path);
    let n = cuts.len();
    let mut r: Vec<String> = Vec::new();
    let mut k: usize = 0;
    while k < n
        invariant
            plen == path@.len(),
            n == cuts@.len(),
            0 <= k <= n,
            r@.len() == k,
            forall|j: int| 0 <= j < n ==> 1 <= #[trigger] cuts@[j] <= plen,
            forall|j: int|
                0 <= j < k ==> (#[trigger] r@[j])@ == path@.subrange(0, cuts@[j] as int),
        decreases n - k,
    {
        r.push(path.substring_char(0, cuts[k]).to_owned());
        k = k + 1;
    }
    proof {
        assert(path@.subrange(0, path@.len() as int) =~= path@);
        assert forall|s: int|
            0 < s < path@.len() && path@[s] == '/' implies exists|j: int|
                0 <= j < r@.len() && (#[trigger] r@[j])@.len() == s by {
            let k0 = choose|k0: int| 0 <= k0 < cuts@.len() && #[trigger] cuts@[k0] == s;
            assert(r@[k0]@.len() == s);
        }
    }
    r
}

/// The view sequence of each directory listing.
pub open spec fn listing_views(ls: Seq<Vec<String>>) -> Seq<Seq<Seq<char>>> {
    ls.map_values(|v: Vec<String>| str_views(v@))
}

/// The allow rules synthesized from level `k` on: each level's listing
/// without the entry that continues the chain, in order.
pub open spec fn allow_from(chain: Seq<Seq<char>>, listings: Seq<Seq<Seq<char>>>, k: int) -> Seq<
    Seq<char>,
>
    decreases listings.len() - k,
{
    if k < 0 || k >= listings.len() {
        Seq::empty()
    } else {
        listings[k].filter(|e: Seq<char>| e != chain[k + 1]) + allow_from(chain, listings, k + 1)
    }
}

/// The full allow-list: for every ancestor of the denied path, its
/// entries except the chain member below that ancestor.
pub open spec fn allow_list_spec(chain: Seq<Seq<char>>, listings: Seq<Seq<Seq<char>>>) -> Seq<
    Seq<char>,
> {
    allow_from(chain, listings, 0)
}

/// The entries of one directory that get an allow rule: all but the
/// excluded one that continues the chain towards the denied path.
pub fn allowed_entries(entries: &Vec<String>, excluded: &str) -> (r: Vec<String>)
    ensures
        str_views(r@) == str_views(entries@).filter(|e: Seq<char>| e != excluded@),
{
    let ghost pred = |e: Seq<char>| e != excluded@;
    let n = entries.len();
    let mut r: Vec<String> = Vec::new();
    proof {
        reveal(Seq::filter);
        assert(str_views(entries@.take(0)) =~= Seq::<Seq<char>>::empty());
        assert(str_views(r@) =~= str_views(entries@.take(0)).filter(pred));
    }
    let mut i: usize = 0;
    while i < n
        invariant
            n == entries@.len(),
            0 <= i <= n,
            str_views(r@) == str_views(entries@.take(i as int)).filter(pred),
            pred == (|e: Seq<char>| e != excluded@),
        decreases n - i,
    {
        let keep = !str_eq(entries[i].as_str(), excluded);
        proof {
            reveal(Seq::filter);
            let e = entries@[i as int]@;
            assert(str_views(entries@.take(i + 1)) =~= str_views(entries@.take(i as int)) + seq![
                e,
            ]);
            Seq::<Seq<char>>::filter_distributes_over_add(
                str_views(entries@.take(i as int)),
                seq![e],
                pred,
            );
            assert(seq![e].drop_last() =~= Seq::<Seq<char>>::empty());
            assert(Seq::<Seq<char>>::empty().filter(pred) =~= Seq::<Seq<char>>::empty());
            if keep {
                assert(seq![e].filter(pred) =~= seq![e]);
            } else {
                assert(seq![e].filter(pred) =~= Seq::<Seq<char>>::empty());
                assert(str_views(entries@.take(i as int)).filter(pred) + Seq::<Seq<char>>::empty()
                    =~= str_views(entries@.take(i as int)).filter(pred));
            }
        }
        if keep {
            let ghost r0 = r@;
            r.push(entries[i].clone());
            proof {
                assert(str_views(r@) =~= str_views(r0) + seq![entries@[i as int]@]);
            }
        }
        i = i + 1;
    }
    proof {
        assert(entries@.take(n as int) =~= entries@);
    }
    r
}

/// Synthesizes the whole allow-list from the ancestor chain and the
/// listings of every ancestor except the denied path itself.
pub fn synthesize_allow_list(chain: &Vec<String>, listings: &Vec<Vec<String>>) -> (r: Vec<String>)
    requires
        chain@.len() == listings@.len() + 1,
    ensures
        str_views(r@) == allow_list_spec(str_views(chain@), listing_views(listings@)),
{
    let ghost cv = str_views(chain@);
    let ghost lv = listing_views(listings@);
    let n = listings.len();
    let mut out: Vec<String> = Vec::new();
    proof {
        assert(str_views(out@) + allow_from(cv, lv, 0) =~= allow_from(cv, lv, 0));
    }
    let mut k: usize = 0;
    while k < n
        invariant
            n == listings@.len(),
            chain@.len() == n + 1,
            cv == str_views(chain@),
            lv == listing_views(listings@),
            0 <= k <= n,
            allow_list_spec(cv, lv) == str_views(out@) + allow_from(cv, lv, k as int),
        decreases n - k,
    {
        let mut level = allowed_entries(&listings[k], chain[k + 1].as_str());
        let ghost out0 = out@;
        let ghost level0 = level@;
        out.append(&mut level);
        proof {
            assert(lv[k as int] == str_views(listings@[k as int]@));
            assert(cv[k + 1] == chain@[k + 1]@);
            assert(str_views(level0) == lv[k as int].filter(|e: Seq<char>| e != cv[k + 1]));
            assert(str_views(out@) =~= str_views(out0) + str_views(level0));
            assert(str_views(out0) + (str_views(level0) + allow_from(cv, lv, k + 1)) =~= (
            str_views(out0) + str_views(level0)) + allow_from(cv, lv, k + 1));
        }
        k = k + 1;
    }
    proof {
        assert(allow_from(cv, lv, n as int) =~= Seq::<Seq<char>>::empty());
        assert(str_views(out@) + Seq::<Seq<char>>::empty() =~= str_views(out@));
    }
    out
}

/// `e` is a direct child entry of directory `d`: it extends `d` by
/// exactly one further path segment.
pub open spec fn direct_child_of(e: Seq<char>, d: Seq<char>) -> bool {
    if d.len() == 1 {
        &&& d.is_prefix_of(e)
        &&& e.len() > 1
        &&& forall|i: int| 1 <= i < e.len() ==> e[i] != '/'
    } else {
        &&& e.len() > d.len() + 1
        &&& e.subrange(0, d.len() as int) == d
        &&& e[d.len() as int] == '/'
        &&& forall|i: int| d.len() + 1 <= i < e.len() ==> e[i] != '/'
    }
}

/// Each chain member is a prefix of every deeper one, and strictly
/// shorter.
proof fn lemma_chain_prefix_pair(chain: Seq<Seq<char>>, j1: int, j2: int)
    requires
        chain.len() >= 1,
        chain[0].len() == 1,
        forall|k: int| 0 <= k < chain.len() - 1 ==> direct_child_of(#[trigger] chain[k + 1], chain[k]),
        0 <= j1 <= j2 < chain.len(),
    ensures
        chain[j1].is_prefix_of(chain[j2]),
        j1 < j2 ==> chain[j1].len() < chain[j2].len(),
    decreases j2 - j1,
{
    if j1 == j2 {
        assert(chain[j1].subrange(0, chain[j1].len() as int) =~= chain[j1]);
    } else {
        lemma_chain_prefix_pair(chain, j1, j2 - 1);
        assert(direct_child_of(chain[(j2 - 1) + 1], chain[j2 - 1]));
        assert(direct_child_of(chain[j2], chain[j2 - 1]));
        assert(chain[j2 - 1].is_prefix_of(chain[j2])) by {
            if chain[j2 - 1].len() != 1 {
                assert(chain[j2].subrange(0, chain[j2 - 1].len() as int) == chain[j2 - 1]);
            }
        }
        assert(chain[j1].is_prefix_of(chain[j2])) by {
            assert(chain[j2].subrange(0, chain[j1].len() as int) =~= chain[j2].subrange(
                0,
                chain[j2 - 1].len() as int,
            ).subrange(0, chain[j1].len() as int));
        }
    }
}

/// A member of the allow rules of one level is in the whole list.
proof fn lemma_allow_from_contains(
    chain: Seq<Seq<char>>,
    listings: Seq<Seq<Seq<char>>>,
    s: int,
    k: int,
    e: Seq<char>,
)
    requires
        0 <= s <= k < listings.len(),
        listings[k].filter(|x: Seq<char>| x != chain[k + 1]).contains(e),
    ensures
        allow_from(chain, listings, s).contains(e),
    decreases k - s,
{
    let level = listings[s].filter(|x: Seq<char>| x != chain[s + 1]);
    if s == k {
        let i = choose|i: int| 0 <= i < level.len() && level[i] == e;
        assert(allow_from(chain, listings, s)[i] == e);
    } else {
        lemma_allow_from_contains(chain, listings, s + 1, k, e);
        let rest = allow_from(chain, listings, s + 1);
        let i = choose|i: int| 0 <= i < rest.len() && rest[i] == e;
        assert(allow_from(chain, listings, s)[level.len() + i] == e);
    }
}

/// A member of the whole allow list is in some level's rules.
proof fn lemma_allow_from_member(
    chain: Seq<Seq<char>>,
    listings: Seq<Seq<Seq<char>>>,
    s: int,
    e: Seq<char>,
)
    requires
        0 <= s,
        allow_from(chain, listings, s).contains(e),
    ensures
        exists|k: int|
            s <= k < listings.len() && (#[trigger] listings[k]).filter(
                |x: Seq<char>| x != chain[k + 1],
            ).contains(e),
    decreases listings.len() - s,
{
    assert(s < listings.len());
    let level = listings[s].filter(|x: Seq<char>| x != chain[s + 1]);
    let rest = allow_from(chain, listings, s + 1);
    let i = choose|i: int|
        0 <= i < allow_from(chain, listings, s).len() && allow_from(chain, listings, s)[i] == e;
    if i < level.len() {
        assert(level[i] == e);
        assert(listings[s].filter(|x: Seq<char>| x != chain[s + 1]).contains(e));
    } else {
        assert(rest[i - level.len()] == e);
        lemma_allow_from_member(chain, listings, s + 1, e);
    }
}

/// Law: the synthesized allow-list holds exactly the siblings along
/// the deny path.  Every entry of an ancestor directory other than the
/// chain member below it receives an allow rule, and no member of the
/// chain — no ancestor of the denied directory, and not the denied
/// directory itself — receives one.
pub proof fn lemma_allow_list_is_siblings(chain: Seq<Seq<char>>, listings: Seq<Seq<Seq<char>>>)
    requires
        chain.len() == listings.len() + 1,
        chain[0].len() == 1,
        forall|k: int| 0 <= k < listings.len() ==> direct_child_of(#[trigger] chain[k + 1], chain[k]),
        forall|k: int, j: int|
            0 <= k < listings.len() && 0 <= j < listings[k].len() ==> direct_child_of(
                (#[trigger] listings[k][j]),
                chain[k],
            ),
    ensures
        forall|k: int, j: int|
            0 <= k < listings.len() && 0 <= j < listings[k].len() && (#[trigger] listings[k][j])
                != chain[k + 1] ==> allow_list_spec(chain, listings).contains(listings[k][j]),
        forall|j: int|
            0 <= j < chain.len() ==> !allow_list_spec(chain, listings).contains(
                #[trigger] chain[j],
            ),
{
    assert forall|k: int, j: int|
        0 <= k < listings.len() && 0 <= j < listings[k].len() && (#[trigger] listings[k][j])
            != chain[k + 1] implies allow_list_spec(chain, listings).contains(
        listings[k][j],
    ) by {
        let pred = |x: Seq<char>| x != chain[k + 1];
        Seq::lemma_filter_contains(listings[k], pred, j);
        lemma_allow_from_contains(chain, listings, 0, k, listings[k][j]);
    }
    assert forall|j: int| 0 <= j < chain.len() implies !allow_list_spec(chain, listings).contains(
        chain[j],
    ) by {
        if allow_list_spec(chain, listings).contains(chain[j]) {
            lemma_allow_from_member(chain, listings, 0, chain[j]);
            let k = choose|k: int|
                0 <= k < listings.len() && (#[trigger] listings[k]).filter(
                    |x: Seq<char>| x != chain[k + 1],
                ).contains(chain[j]);
            let pred = |x: Seq<char>| x != chain[k + 1];
            let flt = listings[k].filter(pred);
            let fi = choose|fi: int| 0 <= fi < flt.len() && flt[fi] == chain[j];
            Seq::lemma_filter_pred(listings[k], pred, fi);
            assert(chain[j] != chain[k + 1]);
            Seq::lemma_filter_contains_rev(listings[k], pred, chain[j]);
            let li = choose|li: int| 0 <= li < listings[k].len() && listings[k][li] == chain[j];
            assert(direct_child_of(chain[j], chain[k]));
            if j <= k {
                lemma_chain_prefix_pair(chain, j, k);
                assert(chain[j].len() <= chain[k].len());
                assert(chain[j].len() > chain[k].len());
                assert(false);
            } else if j == k + 1 {
                assert(false);
            } else {
                // j >= k + 2: the path towards the denied directory has a
                // separator right after chain[k + 1], which a direct child
                // of chain[k] cannot contain.
                let q = chain[k + 1].len() as int;
                lemma_chain_prefix_pair(chain, k + 1, k + 2);
                lemma_chain_prefix_pair(chain, k + 2, j);
                assert(direct_child_of(chain[(k + 1) + 1], chain[k + 1]));
                assert(direct_child_of(chain[k + 2], chain[k + 1]));
                assert(chain[k + 1].len() > 1);
                assert(chain[k + 2][q] == '/');
                assert(chain[j].subrange(0, chain[k + 2].len() as int) == chain[k + 2]);
                assert(chain[j][q] == '/');
                assert(q >= chain[k].len() + 1) by {
                    if chain[k].len() == 1 {
                        assert(chain[k + 1].len() > 1);
                    } else {
                        assert(chain[k + 1].len() > chain[k].len() + 1);
                    }
                }
                assert(q < chain[j].len());
                assert(false);
            }
        }
    }
}

impl LinuxSandbox {
    /// The argument vector of the sandboxed exec on Linux: the
    /// command itself followed by its arguments.
    pub fn exec_argv(&self, cmd: &str, args: &[String]) -> (r: Vec<String>)
        ensures
            r@.len() == 1 + args@.len(),
            r@[0]@ == cmd@,
            forall|k: int| 0 <= k < args@.len() ==> (#[trigger] r@[k + 1])@ == args@[k]@,
    {
        let mut r: Vec<String> = Vec::new();
        r.push(cmd.to_owned());
        let n = args.len();
        let mut i: usize = 0;
        while i < n
            invariant
                n == args@.len(),
                0 <= i <= n,
                r@.len() == 1 + i,
                r@[0]@ == cmd@,
                forall|k: int| 0 <= k < i ==> (#[trigger] r@[k + 1])@ == args@[k]@,
            decreases n - i,
        {
            r.push(args[i].clone());
            i = i + 1;
        }
        r
    }
}

} // verus!
