//! Credential injection: header-template formatting and inline
//! resolution of `PROXY:<name>` secret references.
//!
//! The reference scan is a single left-to-right pass: at each position
//! the literal marker `PROXY:` followed by at least one identifier
//! character starts a reference whose name is the longest identifier
//! run after the marker.  Every reference is replaced by the named
//! secret; one unknown name fails the whole substitution, leaving no
//! partial replacement.

use vstd::prelude::*;
use vstd::string::*;

use crate::error::ProxyError;
use crate::secrets::{lookup_secret, map_of_pairs};
use crate::text::{match_at, occurs_at, replace_all, replace_all_spec};

verus! {

/// An identifier character of a secret-reference name.
pub open spec fn is_word_char(c: char) -> bool {
    ('a' <= c && c <= 'z') || ('A' <= c && c <= 'Z') || ('0' <= c && c <= '9') || c == '_'
}

/// Executable test for [`is_word_char`].
pub fn word_char(c: char) -> (r: bool)
    ensures
        r == is_word_char(c),
{
    ('a' <= c && c <= 'z') || ('A' <= c && c <= 'Z') || ('0' <= c && c <= '9') || c == '_'
}

/// Length of the identifier run of `s` that starts at position `i`.
pub open spec fn word_run_len(s: Seq<char>, i: int) -> nat
    decreases s.len() - i,
{
    if i < 0 || i >= s.len() || !is_word_char(s[i]) {
        0
    } else {
        1 + word_run_len(s, i + 1)
    }
}

/// The identifier run that starts inside `s` stays inside `s`.
pub proof fn lemma_word_run_len_bound(s: Seq<char>, i: int)
    requires
        0 <= i <= s.len(),
    ensures
        i + word_run_len(s, i) <= s.len(),
    decreases s.len() - i,
{
    if i < s.len() && is_word_char(s[i]) {
        lemma_word_run_len_bound(s, i + 1);
    }
}

/// The identifier run from `a` ends exactly where the first
/// non-identifier character (or the end of `s`) stands.
proof fn lemma_word_run_len_exact(s: Seq<char>, a: int, j: int)
    requires
        0 <= a <= j <= s.len(),
        forall|k: int| a <= k < j ==> is_word_char(s[k]),
        j == s.len() || !is_word_char(s[j]),
    ensures
        word_run_len(s, a) == j - a,
    decreases j - a,
{
    if a < j {
        lemma_word_run_len_exact(s, a + 1, j);
    }
}

/// A secret reference begins at position `i` of `s`.
pub open spec fn token_at(s: Seq<char>, i: int) -> bool {
    occurs_at(s, "PROXY:"@, i) && i + "PROXY:"@.len() < s.len() && is_word_char(
        s[i + "PROXY:"@.len()],
    )
}

/// Some secret reference lies within `s`.
pub open spec fn has_token(s: Seq<char>) -> bool {
    exists|i: int| token_at(s, i)
}

/// Resolution of every secret reference of `s` from position `i` on,
/// against the secrets map `m`; `None` when a referenced name is
/// absent from `m`.
pub open spec fn subst_from(s: Seq<char>, m: Map<Seq<char>, Seq<char>>, i: int) -> Option<
    Seq<char>,
>
    decreases s.len() - i,
{
    if i < 0 || i >= s.len() {
        Some(Seq::empty())
    } else if token_at(s, i) {
        let run = word_run_len(s, i + "PROXY:"@.len());
        let name = s.subrange(i + "PROXY:"@.len(), i + "PROXY:"@.len() + run);
        if m.contains_key(name) {
            proof {
                lemma_word_run_len_bound(s, i + "PROXY:"@.len());
            }
            match subst_from(s, m, i + "PROXY:"@.len() + run) {
                Some(t) => Some(m.index(name) + t),
                None => None,
            }
        } else {
            None
        }
    } else {
        match subst_from(s, m, i + 1) {
            Some(t) => Some(seq![s[i]] + t),
            None => None,
        }
    }
}

/// Resolution of every secret reference of `s` against `m`.
pub open spec fn subst_spec(s: Seq<char>, m: Map<Seq<char>, Seq<char>>) -> Option<Seq<char>> {
    subst_from(s, m, 0)
}

/// Scanning over a stretch that starts no reference copies it through
/// unchanged, whatever the rest of the text resolves to.
proof fn lemma_subst_clean_stretch(s: Seq<char>, m: Map<Seq<char>, Seq<char>>, i: int, j: int)
    requires
        0 <= i <= j <= s.len(),
        forall|k: int| i <= k < j ==> !token_at(s, k),
    ensures
        subst_from(s, m, i) == match subst_from(s, m, j) {
            Some(t) => Some(s.subrange(i, j) + t),
            None => None::<Seq<char>>,
        },
    decreases j - i,
{
    if i == j {
        match subst_from(s, m, j) {
            Some(t) => {
                assert(s.subrange(i, j) + t =~= t);
            },
            None => {},
        }
    } else {
        assert(!token_at(s, i));
        lemma_subst_clean_stretch(s, m, i + 1, j);
        match subst_from(s, m, j) {
            Some(t) => {
                assert(seq![s[i]] + (s.subrange(i + 1, j) + t) =~= s.subrange(i, j) + t);
            },
            None => {},
        }
    }
}

/// Law: text without any secret reference is returned unchanged by
/// substitution.
pub proof fn lemma_subst_no_tokens(s: Seq<char>, m: Map<Seq<char>, Seq<char>>)
    requires
        forall|i: int| !token_at(s, i),
    ensures
        subst_spec(s, m) == Some(s),
{
    lemma_subst_clean_stretch(s, m, 0, s.len() as int);
    assert(subst_from(s, m, s.len() as int) == Some(Seq::<char>::empty()));
    assert(s.subrange(0, s.len() as int) + Seq::<char>::empty() =~= s);
}

/// Resolving one reference `PROXY:name` whose name run ends at a
/// non-identifier boundary: a known name substitutes its value and the
/// scan continues after the name; an unknown name fails the whole
/// substitution.
proof fn lemma_subst_token_resolves(
    s: Seq<char>,
    m: Map<Seq<char>, Seq<char>>,
    p: int,
    name: Seq<char>,
)
    requires
        0 <= p,
        p + "PROXY:"@.len() + name.len() <= s.len(),
        s.subrange(p, p + "PROXY:"@.len()) == "PROXY:"@,
        name.len() > 0,
        forall|k: int| 0 <= k < name.len() ==> is_word_char(#[trigger] name[k]),
        s.subrange(p + "PROXY:"@.len(), p + "PROXY:"@.len() + name.len()) == name,
        p + "PROXY:"@.len() + name.len() == s.len() || !is_word_char(
            s[p + "PROXY:"@.len() + name.len()],
        ),
    ensures
        token_at(s, p),
        m.contains_key(name) ==> subst_from(s, m, p) == (match subst_from(
            s,
            m,
            p + "PROXY:"@.len() + name.len(),
        ) {
            Some(t) => Some(m.index(name) + t),
            None => None::<Seq<char>>,
        }),
        !m.contains_key(name) ==> subst_from(s, m, p) is None,
{
    let plen = "PROXY:"@.len() as int;
    assert(occurs_at(s, "PROXY:"@, p));
    assert(s[p + plen] == name[0]);
    assert(token_at(s, p));
    assert forall|k: int| p + plen <= k < p + plen + name.len() implies is_word_char(s[k]) by {
        assert(s[k] == name[k - (p + plen)]);
    }
    lemma_word_run_len_exact(s, p + plen, p + plen + name.len());
    assert(word_run_len(s, p + plen) == name.len());
    assert(s.subrange(p + plen, p + plen + word_run_len(s, p + plen)) == name);
}

/// Law: one unresolvable reference fails the whole substitution —
/// text that reaches an unknown name yields no output at all, so no
/// partial replacement can be observed.
pub proof fn lemma_subst_unknown_reference(
    a: Seq<char>,
    name: Seq<char>,
    rest: Seq<char>,
    m: Map<Seq<char>, Seq<char>>,
)
    requires
        name.len() > 0,
        forall|k: int| 0 <= k < name.len() ==> is_word_char(#[trigger] name[k]),
        rest.len() == 0 || !is_word_char(rest[0]),
        forall|k: int| 0 <= k < a.len() ==> !token_at(a + "PROXY:"@ + name + rest, k),
        !m.contains_key(name),
    ensures
        subst_spec(a + "PROXY:"@ + name + rest, m) is None,
{
    let t = a + "PROXY:"@ + name + rest;
    let plen = "PROXY:"@.len() as int;
    let p = a.len() as int;
    assert(t.subrange(p, p + plen) =~= "PROXY:"@);
    assert(t.subrange(p + plen, p + plen + name.len()) =~= name);
    if rest.len() > 0 {
        assert(t[p + plen + name.len()] == rest[0]);
    }
    lemma_subst_token_resolves(t, m, p, name);
    lemma_subst_clean_stretch(t, m, 0, p);
}

/// Law: the same reference twice within one text resolves to the same
/// substituted value both times.  The pieces around the references
/// start no reference of their own, and each reference's name ends at
/// a non-identifier boundary.
#[verifier::rlimit(50)]
pub proof fn lemma_subst_same_reference_twice(
    a: Seq<char>,
    b: Seq<char>,
    c: Seq<char>,
    name: Seq<char>,
    m: Map<Seq<char>, Seq<char>>,
)
    requires
        name.len() > 0,
        forall|k: int| 0 <= k < name.len() ==> is_word_char(#[trigger] name[k]),
        m.contains_key(name),
        b.len() > 0,
        !is_word_char(b[0]),
        c.len() == 0 || !is_word_char(c[0]),
        forall|k: int|
            0 <= k < a.len() ==> !token_at(a + "PROXY:"@ + name + b + "PROXY:"@ + name + c, k),
        forall|k: int|
            a.len() + "PROXY:"@.len() + name.len() <= k < a.len() + "PROXY:"@.len() + name.len()
                + b.len() ==> !token_at(a + "PROXY:"@ + name + b + "PROXY:"@ + name + c, k),
        forall|k: int|
            a.len() + 2 * "PROXY:"@.len() + 2 * name.len() + b.len() <= k ==> !token_at(
                a + "PROXY:"@ + name + b + "PROXY:"@ + name + c,
                k,
            ),
    ensures
        subst_spec(a + "PROXY:"@ + name + b + "PROXY:"@ + name + c, m) == Some(
            a + m.index(name) + b + m.index(name) + c,
        ),
{
    let t = a + "PROXY:"@ + name + b + "PROXY:"@ + name + c;
    let plen = "PROXY:"@.len() as int;
    let v = m.index(name);
    let p1 = a.len() as int;
    let pb = p1 + plen + name.len() as int;
    let p2 = pb + b.len() as int;
    let pc = p2 + plen + name.len() as int;
    assert(t.len() == pc + c.len());
    assert(t.subrange(p1, p1 + plen) =~= "PROXY:"@);
    assert(t.subrange(p1 + plen, pb) =~= name);
    assert(t[pb] == b[0]);
    assert(t.subrange(p2, p2 + plen) =~= "PROXY:"@);
    assert(t.subrange(p2 + plen, pc) =~= name);
    if c.len() > 0 {
        assert(t[pc] == c[0]);
    }
    // the tail after the second reference passes through unchanged
    lemma_subst_clean_stretch(t, m, pc, t.len() as int);
    assert(subst_from(t, m, t.len() as int) == Some(Seq::<char>::empty()));
    assert(t.subrange(pc, t.len() as int) =~= c);
    assert(c + Seq::<char>::empty() =~= c);
    assert(subst_from(t, m, pc) == Some(c));
    // the second reference resolves
    lemma_subst_token_resolves(t, m, p2, name);
    assert(subst_from(t, m, p2) == Some(v + c));
    // the middle stretch passes through unchanged
    lemma_subst_clean_stretch(t, m, pb, p2);
    assert(t.subrange(pb, p2) =~= b);
    assert(subst_from(t, m, pb) == Some(b + (v + c)));
    // the first reference resolves
    lemma_subst_token_resolves(t, m, p1, name);
    assert(subst_from(t, m, p1) == Some(v + (b + (v + c))));
    // the leading stretch passes through unchanged
    lemma_subst_clean_stretch(t, m, 0, p1);
    assert(t.subrange(0, p1) =~= a);
    assert(subst_from(t, m, 0) == Some(a + (v + (b + (v + c)))));
    assert(a + (v + (b + (v + c))) =~= a + v + b + v + c);
}

/// Executable test for a secret reference starting at position `i`.
fn is_token_at(s: &str, i: usize) -> (r: bool)
    requires
        i <= s@.len(),
    ensures
        r == token_at(s@, i as int),
{
    let marker = "PROXY:";
    let slen = s.unicode_len();
    let plen = marker.unicode_len();
    if !match_at(s, marker, i) {
        return false;
    }
    if !(plen < slen - i) {
        return false;
    }
    word_char(s.get_char(i + plen))
}

/// Replaces every `PROXY:<name>` reference in `input` by the secret so
/// named; fails without output when a referenced name is unknown.
pub fn substitute_tokens(input: &str, secrets: &Vec<(String, String)>) -> (r: Result<
    String,
    ProxyError,
>)
    ensures
        match r {
            Ok(out) => subst_spec(input@, map_of_pairs(secrets@)) == Some(out@),
            Err(e) => subst_spec(input@, map_of_pairs(secrets@)) is None && e is InvalidToken,
        },
{
    let marker = "PROXY:";
    let slen = input.unicode_len();
    let plen = marker.unicode_len();
    let ghost m = map_of_pairs(secrets@);
    let mut out = String::new();
    let mut start: usize = 0;
    let mut i: usize = 0;
    proof {
        assert(out@ + input@.subrange(0, 0) =~= Seq::<char>::empty());
    }
    while i < slen
        invariant
            slen == input@.len(),
            plen == "PROXY:"@.len(),
            m == map_of_pairs(secrets@),
            0 <= start <= i <= slen,
            subst_from(input@, m, 0) == match subst_from(input@, m, i as int) {
                Some(t) => Some(out@ + input@.subrange(start as int, i as int) + t),
                None => None::<Seq<char>>,
            },
        decreases slen - i,
    {
        if is_token_at(input, i) {
            let mut j = i + plen;
            loop
                invariant
                    slen == input@.len(),
                    i + plen <= j <= slen,
                    forall|k: int| i + plen <= k < j ==> is_word_char(input@[k]),
                ensures
                    i + plen <= j <= slen,
                    forall|k: int| i + plen <= k < j ==> is_word_char(input@[k]),
                    j == slen || !is_word_char(input@[j as int]),
                decreases slen - j,
            {
                if j == slen {
                    break;
                }
                if !word_char(input.get_char(j)) {
                    break;
                }
                j = j + 1;
            }
            proof {
                lemma_word_run_len_exact(input@, i + plen, j as int);
            }
            let name = input.substring_char(i + plen, j);
            let ghost run = word_run_len(input@, i + plen);
            proof {
                assert(run == j - (i + plen));
                assert(name@ == input@.subrange(i + plen, j as int));
            }
            match lookup_secret(secrets, name) {
                Some(value) => {
                    let ghost out0 = out@;
                    out.append(input.substring_char(start, i));
                    out.append(value.as_str());
                    proof {
                        assert(out@ == out0 + input@.subrange(start as int, i as int) + m.index(
                            name@,
                        ));
                        assert(subst_from(input@, m, i as int) == match subst_from(
                            input@,
                            m,
                            j as int,
                        ) {
                            Some(t) => Some(m.index(name@) + t),
                            None => None::<Seq<char>>,
                        });
                        match subst_from(input@, m, j as int) {
                            Some(t) => {
                                assert(out@ + input@.subrange(j as int, j as int) + t =~= out0
                                    + input@.subrange(start as int, i as int) + (m.index(name@)
                                    + t));
                            },
                            None => {},
                        }
                    }
                    i = j;
                    start = j;
                },
                None => {
                    proof {
                        assert(subst_from(input@, m, i as int) is None);
                    }
                    let mut detail = String::new();
                    detail.append("Unknown secret: ");
                    detail.append(name);
                    return Err(ProxyError::InvalidToken(detail));
                },
            }
        } else {
            proof {
                assert(!token_at(input@, i as int));
                assert(input@.subrange(start as int, i + 1) =~= input@.subrange(
                    start as int,
                    i as int,
                ) + seq![input@[i as int]]);
                match subst_from(input@, m, i + 1) {
                    Some(t) => {
                        assert(out@ + input@.subrange(start as int, i + 1) + t =~= out@
                            + input@.subrange(start as int, i as int) + (seq![input@[i as int]]
                            + t));
                    },
                    None => {},
                }
            }
            i = i + 1;
        }
    }
    let ghost out1 = out@;
    out.append(input.substring_char(start, slen));
    proof {
        assert(subst_from(input@, m, slen as int) == Some(Seq::<char>::empty()));
        assert(out1 + input@.subrange(start as int, slen as int) + Seq::<char>::empty() =~= out@);
    }
    Ok(out)
}

/// Renders an authorisation header value: every `{secret}` placeholder
/// of the template is replaced by the secret value.
pub fn format_auth_header(format: &str, secret: &str) -> (r: String)
    ensures
        r@ == replace_all_spec(format@, "{secret}"@, secret@),
{
    replace_all(format, "{secret}", secret)
}

/// Whether `input` holds any `PROXY:<name>` secret reference.
pub fn contains_proxy_token(input: &str) -> (r: bool)
    ensures
        r == has_token(input@),
{
    let slen = input.unicode_len();
    let mut i: usize = 0;
    while i < slen
        invariant
            slen == input@.len(),
            0 <= i <= slen,
            forall|k: int| 0 <= k < i ==> !token_at(input@, k),
        decreases slen - i,
    {
        if is_token_at(input, i) {
            return true;
        }
        i = i + 1;
    }
    proof {
        assert(forall|k: int| token_at(input@, k) ==> 0 <= k < input@.len());
    }
    false
}

} // verus!
